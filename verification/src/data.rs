//! Adapters for the two extension registries: each turns a fetched list of
//! DNS suffixes into the regex form the matching engine consumes.
pub mod iana;
pub mod psl;
