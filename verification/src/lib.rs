//! Playing-card types and verified poker hand evaluation.
//!
//! The library models cards as (value, suit) pairs, encodes them in the
//! Cactus-Kev bit layout, and ranks poker hands on the dense 1..=7462 scale
//! where 1 is a royal flush.  Every evaluator is a pure function of its
//! inputs; contracts pin down the exact rank, category, and description
//! returned for every input.

pub mod badugi_evaluator;
pub mod card;
pub mod combinatorics;
pub mod combos;
pub mod deck;
pub mod describe;
pub mod dramaha_high_evaluator;
pub mod drawmaha_evaluator;
pub mod evaluator;
pub mod evaluator_errors;
pub mod five_card;
pub mod high_evaluator;
pub mod laws;
pub mod low_27_evaluator;
pub mod low_evaluator;
pub mod omaha_hi_evaluator;
pub mod omaha_hilo_evaluator;
pub mod rank;
pub mod ranks;
