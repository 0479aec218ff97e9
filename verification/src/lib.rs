//! Share counts per worker, and the time they were counted over, from the
//! server log of a mining node.
//!
//! A log is read once, line by line. [`extract`] takes the timestamp off a
//! line, [`window`] keeps the span of time seen and the start of the
//! trailing window, [`filter`] finds the worker in a share report,
//! [`tally`] counts, and [`pipeline`] drives them and draws the conclusion.
//! [`text`] holds the character-level helpers and [`clock`] the points in
//! time, whose calendar arithmetic is `chrono`'s.

pub mod clock;
pub mod extract;
pub mod filter;
pub mod pipeline;
pub mod tally;
pub mod text;
pub mod window;
