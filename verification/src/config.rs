use vstd::prelude::*;

verus! {

/// The proxy's settings.
#[derive(Debug)]
pub struct Config {
    /// Where the proxy listens for clients.
    pub listen_addr: String,
    /// Where the backend Minecraft server listens.
    pub server_addr: String,
    /// The shell command that wakes the backend up.
    pub wake_command: String,
    /// The path of the GeoIP country database.
    pub geoip_db_path: String,
}

} // verus!
