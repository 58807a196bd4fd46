pub mod manager;
pub mod state;
