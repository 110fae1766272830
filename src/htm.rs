/// Decoding of Intel RTM status words
pub mod x86_64;
/// Decoding of Arm TME status words
pub mod aarch64;
