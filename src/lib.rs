//! Player movement and collision resolution over a static set of box
//! obstacles.
//!
//! Each frame, input becomes a desired horizontal displacement
//! ([`movement`]), the moved player circle is pushed out of obstacle
//! footprints one obstacle at a time ([`collision`]), and the eye height is
//! set by the tallest obstacle under the step probe ([`stepping`]); the view
//! turns independently ([`look`]).
//!
//! All quantities are fixed-point integers: positions in units of
//! `1 / 65536` metre, angles in microradians, times in microseconds.
pub mod geometry;
pub mod collision;
pub mod stepping;
pub mod movement;
pub mod look;
pub mod player;
pub mod settings;
pub mod grid;
pub mod sinphase;
