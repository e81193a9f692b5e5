//! A predictive-text engine: prefix-search indexes over a dictionary and a
//! symbol/shortcode table, and the session state machine that drives them
//! from key events.
pub mod automaton;
pub mod index;
pub mod normalize;
pub mod session;
pub mod text;
