//! An interactive fuzzy-ranking selector.
//!
//! Given a fixed pool of candidate strings and a live, user-edited query,
//! the library re-orders the pool by edit-distance similarity to the query
//! and lets a cursor move through the ordered view to pick one candidate.
//! The scorer, the stable re-ranking, the cursor arithmetic and the input
//! state machine live here, fully verified; terminal input and rendering
//! are left to the embedding application.

pub mod ranking;
pub mod scorer;
pub mod session;
