//! Note tracking, target selection and spectral bin routing for a pitch
//! quantizer that pulls the spectrum of a signal toward the held notes.

pub mod bins;
pub mod notes;
pub mod targets;
