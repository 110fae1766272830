/// Conflict checks of the isolation levels
pub mod conflicts;
/// Errors of the transaction engine
pub mod errors;
/// Read sets of transaction attempts
pub mod readset;
/// Transactions, their manager and the commit protocol
pub mod transact;
/// Transactional variables
pub mod vars;
/// Entries of the read and write sets
pub mod version;
/// Write sets of transaction attempts
pub mod writeset;
