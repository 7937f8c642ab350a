//! What holds of every generation run, stated over the registry that a
//! document gives rise to.

pub mod counting;
pub mod declared;
pub mod outcome;
pub mod shape;
