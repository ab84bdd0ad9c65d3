//! The shell's state machines.

pub mod agent;
pub mod assets;
pub mod canvas;
pub mod commands;
pub mod daemon;
pub mod editing;
pub mod editor_buffer;
pub mod editor_layout;
pub mod file_tree;
pub mod gui_control;
pub mod icons;
pub mod launch;
pub mod model;
pub mod note_effects;
pub mod note_names;
pub mod outline;
pub mod rooms;
pub mod rope;
pub mod shell_view;
pub mod surface;
pub mod surface_effects;
pub mod surface_host;
pub mod surface_livekit;
pub mod surface_livekit_client;
pub mod vault_index;
pub mod wrapping;
