//! Decision logic of a bot that plays a process-scheduler game by reading
//! pixel colours off a screen capture and answering with mouse clicks.
//!
//! The crate holds the colour palette, the slot grids, the reader that turns a
//! capture into a [`state::GameState`], and the policy that turns a state into
//! the ordered list of clicks for one pass. Capturing the screen and moving
//! the pointer are left to the caller.

pub mod color;
pub mod layout;
pub mod overlay;
pub mod page;
pub mod policy;
pub mod process;
pub mod queue;
pub mod screen;
pub mod state;
