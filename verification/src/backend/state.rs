use vstd::prelude::*;

verus! {

/// What the proxy believes of the backend server, shared by all
/// connections; it starts `Offline`.
#[derive(Clone, Copy, PartialEq, Eq, Debug, Structural)]
pub enum ServerStatus {
    Offline,
    WakingUp,
    Online,
}

impl ServerStatus {
    /// The status the proxy starts with: the backend is taken to be
    /// asleep until a connection to it succeeds.
    pub fn initial() -> (r: ServerStatus)
        ensures
            r == ServerStatus::Offline,
    {
        ServerStatus::Offline
    }
}

} // verus!
