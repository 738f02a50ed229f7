pub mod filter;
pub mod ring;
pub mod socket;
pub mod spsc;
pub mod tx_metadata;
pub mod umem;
