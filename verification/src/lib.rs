//! Maps the report stream of a three-axis, eleven-button joystick onto
//! keyboard and pointer events.
//!
//! A report is decoded ([`raw_input`]), normalized against the zero point
//! of the run and compared with the state before it ([`dispatch`]); buttons
//! and axes in key mode answer a change with key events, axes in pointer
//! mode with the movement that their response curve makes of the deflection
//! ([`curve`]). [`session`] is one run as the polling loop drives it, and
//! [`win_input`] holds the input records that an injector sends for the
//! events.
//!
//! Every quantity is an exact integer. A normalized axis value counts steps
//! of 1/255, so the deflection that the hardware reports as a byte is held
//! without rounding, and the fraction that a response curve carries from one
//! sample to the next never drifts.

pub mod config;
pub mod curve;
pub mod dispatch;
pub mod error;
pub mod raw_input;
pub mod session;
pub mod win_input;
