//! Decoder for the iCE40-style FPGA configuration bitstream format: a
//! preamble synchronizer followed by a streaming opcode/payload command
//! decoder that populates a device-configuration record, including
//! bank-indexed CRAM and BRAM bit storage.

pub mod config;
pub mod decode;
pub mod errors;
pub mod laws;
pub mod preamble;
pub mod store;
