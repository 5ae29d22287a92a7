//! Wayland-frontend logic: exact scale arithmetic, shared-memory buffer
//! rules, hotspots, input and state decisions.
pub mod input;
pub mod render;
pub mod scale;
pub mod shm;
pub mod state;
