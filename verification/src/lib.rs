//! Spaced-repetition scheduling for flashcards kept in plain text files:
//! the review algorithms, the card store and its reconciliation with a
//! fresh scan, the selection of due cards, and the bookkeeping that keeps
//! repeated runs safe and cheap.
//!
//! All arithmetic is integer arithmetic. Ease factors are counted in
//! hundredths, learned factors and mean qualities in millionths; every
//! rounding is half up and every conversion to a machine integer saturates.

pub mod algorithm;
pub mod card;
pub mod db;
pub mod fixed;
pub mod lock;
pub mod persist;
pub mod scan;
pub mod session;
pub mod text;
pub mod time;
pub mod view;
