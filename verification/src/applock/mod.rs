pub mod paths;
pub mod identifier;
pub mod app_info;
pub mod linux;
pub mod macos;
pub mod windows;
pub mod session;
pub mod polling;
pub mod focus;
pub mod laws;
