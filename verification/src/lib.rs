//! Hook dispatch and live restart for a tiling window manager.
//!
//! The manager's control loop owns a [`state::ManagerState`] and hands it to
//! hooks, which give back the next state. Everything that touches the
//! operating system (spawning a process, waiting for one, replacing the
//! process image) is left to the caller: the functions here say what is to be
//! done and what follows from each outcome.

pub mod config;
pub mod handlers;
pub mod payload;
pub mod pending;
pub mod restart;
pub mod state;
pub mod workspace;
