//! Stigmergic agents on toroidal trail fields: the exact integer core of the
//! simulation (wraparound arithmetic, box-filter planning, steering rules and
//! the partition of agents into populations).

pub mod util;
pub mod blur;
pub mod grid;
pub mod model;
