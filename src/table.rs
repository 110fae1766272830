/// Hopscotch hash table over neighborhood bitmaps
pub mod hoptable;
/// Transactional sharded hash table
pub mod lotable;
