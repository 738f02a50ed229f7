pub mod gateway;
pub mod ip;
pub mod mac;
pub mod nic;
pub mod range;
pub mod reduced;
pub mod tcp;
pub mod text;
