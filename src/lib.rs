pub mod date;
pub mod event;
pub mod event_manager;
pub mod laws;
