//! Turns the positions of a hand above a tracking device into MIDI: chords
//! on a musical scale, struck at a pace set by the tilt of the hand, with an
//! instrument that changes at a pinch.
//!
//! The crate does no input or output. A caller feeds tracking samples to a
//! [`pipeline::Session`], one [`pipeline::Session::step`] per sample, and
//! sends the messages that come back.
//!
//! * [`smoother`]: a moving average over the last positions.
//! * [`scale`]: the scale, snapping to it, and the map from positions to
//!   MIDI values.
//! * [`chord`]: the chord on a scale position.
//! * [`scheduler`]: which notes sound and until when.
//! * [`gate`]: how soon the next chord may follow.
//! * [`gesture`]: the pinch that changes the instrument.
//! * [`midi`]: the messages and their encoding.
//! * [`pointer`]: where on the screen the hand points.
//! * [`note_name`]: names of pitches.
//! * [`config`]: the options.
//! * [`pipeline`]: the session that ties them together.
//!
//! Positions are whole millimetres, times whole milliseconds, and tilt and
//! pinch distance are counted in thousandths.

pub mod chord;
pub mod config;
pub mod gate;
pub mod gesture;
pub mod midi;
pub mod note_name;
pub mod pipeline;
pub mod pointer;
pub mod scale;
pub mod scheduler;
pub mod smoother;
