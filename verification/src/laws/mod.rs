//! What the operations of the library promise together, stated of their inputs
//! and results.

pub mod addresses;
pub mod collections;
pub mod dates;
pub mod devices;
pub mod documents;
pub mod files;
pub mod invitations;
pub mod limits;
pub mod links;
pub mod names;
pub mod pictures;
pub mod preferences;
pub mod records;
pub mod reports;
pub mod shares;
pub mod texts;
pub mod wire;
