//! Core of a "reveal the picture" puzzle: an image is partitioned into a
//! grid of uniform tiles which are revealed one by one, either at random or
//! by grid coordinate. This crate holds the puzzle's authoritative state
//! machine, the tile partitioner, the pixel-buffer model, and the
//! window-coordination logic; the rendering shell around it drives these
//! pieces from its event loop.

pub mod control_panel;
pub mod display_window;
pub mod my_image;
pub mod tiles;
pub mod viewport;
pub mod worker;
