//! Verified core of the Codex status badges for Zellij: agent reports, the
//! dashboard's status table, and the tab-bar renderer.
pub mod status;
pub mod text;
pub mod detect;
pub mod model;
pub mod idset;
pub mod agents;
pub mod dashboard;
pub mod sync;
pub mod overlay;
pub mod render;
pub mod tabbar;
pub mod bar;
pub mod events;
pub mod laws;
pub mod settle;
