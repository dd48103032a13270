//! Verified core of an audio-reactive flocking visualiser: command-line
//! parsing, capture-source selection, sample framing for the analyser,
//! pixel-frame clearing, background and palette selection, and the integer
//! bookkeeping of the boid simulation (spatial grid, population, ripples and
//! the pseudo-random generator).

pub mod audio;
pub mod control;
pub mod launch;
pub mod render;
pub mod visualisation;
