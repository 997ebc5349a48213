//! A shared pool of countable art supplies that concurrent artists draw from,
//! with a per-artist allocation log.

pub mod pool;
pub mod registry;
pub mod selection;
pub mod shared;
