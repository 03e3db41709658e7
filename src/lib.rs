//! Reader and writer for an AmiBroker-style market-data store: a folder with a
//! master index (`broker.master`) and one binary quote file per symbol.
//!
//! Everything here works on bytes and plain values; reading and writing the
//! files themselves is left to the caller.

pub mod bitparser;
pub mod error;
pub mod quote;
pub mod master;
pub mod paths;
pub mod text;
pub mod csv;
pub mod amireader;
pub mod amidatabase;

pub use amidatabase::AmiDataBase;
pub use amireader::AmiReader;
pub use bitparser::{Date, date_to_bin, read_date, reverse_bits};
pub use error::AmiError;
pub use quote::Quote;
