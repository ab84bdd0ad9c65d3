//! Core of the Ocean GUI shell: canvas ledgers, text buffers, agent and room
//! state, and the rules that tie them together.

pub mod catalog;
pub mod cockpit;
pub mod json;
pub mod ordered_map;
pub mod paths;
pub mod shell;
pub mod sorted_map;
pub mod text;
pub mod workspace;
