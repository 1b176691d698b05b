//! A field of stones on a grid, displaced and turned by an amount that grows
//! with depth: a static arrangement recomputed from a seed, and an animated
//! one in which every stone eases toward targets of its own.
//!
//! Lengths are whole millionths of a cell, angles whole microradians, the
//! displacement and rotation scales whole thousandths, and the motion
//! probability whole millionths.

pub mod random;
pub mod stone;
pub mod params;
pub mod field;
pub mod capture;
