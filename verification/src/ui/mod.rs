pub mod app;
pub mod editor;
pub mod icons;
pub mod preview;
pub mod search;
pub mod tray;

pub use app::{Message, PexandApp, UiExternalMessage};
pub use editor::EditorState;
