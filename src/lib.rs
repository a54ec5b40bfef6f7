//! A counting container: a mapping from distinct items to how often they were
//! seen, or to the sum of the weights given for them.
pub mod count;
pub mod counter;
pub mod laws;
