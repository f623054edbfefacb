//! Verified core of a touch-friendly application launcher: desktop entry
//! parsing, the launcher grid model with its keyboard cursor and fuzzy
//! filtering, embedded resources and stylesheet composition.

pub mod config;
pub mod desktop_entry;
pub mod grid;
pub mod resource;
pub mod style;

pub use config::Config;
pub use desktop_entry::DesktopEntry;
pub use resource::Resource;
