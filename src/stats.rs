/// Counting networks used as approximate, high-throughput counters
pub mod bitonics;
