//! Terminal UI engine core: frame buffers, hit testing, input handling,
//! focus management, keybindings, layout culling and text utilities.

pub mod tree;
pub mod clock;
pub mod text;
pub mod framebuffer;
pub mod input;
pub mod keybinding;
pub mod hit_grid;
pub mod layout;
pub mod keyboard;
pub mod graphics;
pub mod logger;
pub mod palette;
pub mod graphics_protocol;
pub mod glyph;
pub mod painter;
pub mod nerdfont;
pub mod plugin;
