//! The engine of a piano-roll MIDI sequencer: the project data model, the
//! self-inverting commands that edit it, the grid arithmetic of the piano
//! roll, and the encoder that writes a project out as a Standard MIDI File.
//!
//! Nothing here touches a screen, a timer or a MIDI port. The host hands in
//! plain values and carries out the effects that the engine hands back.
//!
//! Two fixed-point units are used throughout. Musical time is counted in
//! ten-thousandths of a whole note, so a sixteenth note is 625 and a whole
//! note is 10 000, whatever the tempo. Screen lengths are counted in
//! thousandths of a pixel. One unit of time is 32 units of screen width.

pub mod action;
pub mod midi;
pub mod model;
pub mod playback;
pub mod project;
pub mod util;
pub mod views;
