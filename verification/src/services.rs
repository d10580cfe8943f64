//! What the command layer renders and reports, as data and text.

pub mod agents_render;
pub mod hooks_render;
pub mod instance_check;
pub mod status;
pub mod upgrader;
pub mod skill_installer;
pub mod assess;
