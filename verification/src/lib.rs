//! Bookkeeping for a flocking simulation on a sphere: how data files are
//! named and found again, how ensemble generation is split over worker
//! threads, and when a running simulation records frames.

pub mod text;
pub mod io;
pub mod ensemble;
pub mod simulation;
pub mod analysis;
