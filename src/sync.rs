/// Reference-counted single-slot cells
pub mod atomics;
/// Bookkeeping of the thread-identity-aware reentrant reader/writer lock
pub mod rerwlock;
