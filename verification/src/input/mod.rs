//! Input system: clipboard, keyboard and mouse input, the input event model,
//! the dispatch event types, the event bus, focus management and runtime state.

pub mod clipboard;
pub mod key;
pub mod mouse;
pub mod event;
pub mod event_types;
pub mod event_bus;
pub mod event_dispatch;
pub mod focus;
pub mod state;
