//! Layout: the flexbox keywords, the layout engine over a taffy tree, text
//! measuring, keeping the engine in step with the scene, viewports and
//! binary-search viewport culling.

pub mod compute;
pub mod culling;
pub mod forest;
pub mod measure;
pub mod sync;
pub mod types;
