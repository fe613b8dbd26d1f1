//! Synthetic COBOL corpora, parity re-checks and run receipts for measuring `gnucobol-rs`.

pub mod amount;
pub mod baseline;
pub mod batch;
pub mod bench;
pub mod cobol;
pub mod corpus;
pub mod digest;
pub mod encode;
pub mod field;
pub mod lcg;
pub mod literal;
pub mod procfs;
pub mod receipt;
pub mod recon;
pub mod scale;
pub mod stages;
pub mod text;

pub use batch::{
    convert_display_to_packed, gen_display_batch, money_display, money_packed, parity_holds,
};
pub use lcg::Lcg;
