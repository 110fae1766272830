/// Balancing networks as used by the zone index
pub mod bitonics;
/// Zones of a column and their hit counters
pub mod zonemap;
