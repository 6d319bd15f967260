//! Computes optimal crop windows for an image: given the source dimensions,
//! previously detected face bounding boxes and a target aspect ratio, it
//! sizes the largest box of that ratio that fits, slides it along the one
//! axis it is free on, and places it to keep the faces visible and centered.
//! Every function's behaviour is specified by its contract and verified.

pub mod candidates;
pub mod cropper;
pub mod geometry;
pub mod laws;
pub mod scan;
pub mod sizing;
