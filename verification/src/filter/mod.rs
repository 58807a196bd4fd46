pub mod handshake;
pub mod geoip;
