use vstd::prelude::*;

pub mod chart;
pub mod wav;
pub mod frame;
pub mod mixing;
pub mod notes;
pub mod text;
pub mod paths;
pub mod cli;
pub mod progress;
pub mod player;
pub mod ffmpeg;

verus! {

} // verus!
