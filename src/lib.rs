//! A STARK prover and verifier for RV32IM execution over the Mersenne-31 field.
//!
//! - `field`, `extension`, `limbs`, `circle`: M31 and its degree-4 extension, 32-bit words
//!   as 16-bit limbs, and the circle group over M31.
//! - `air`: the CPU constraints, polynomial identities over a row's cells.
//! - `memory`, `elf`, `executor`: guest memory, the ELF loader and an RV32IM interpreter.
//! - `merkle`, `channel`: BLAKE3 vector commitments and the Poseidon2 Fiat-Shamir channel.
//! - `lde`, `stark`, `prover`, `verify`: extension, configuration and proof objects, the
//!   prover, and the verifier, which accepts every honest proof of a valid clock trace.
//! - `delegation`: the LogUp sums that tie precompile calls to the CPU.
//! - `hex`: hex text for digests.
pub mod field;
pub mod limbs;
pub mod circle;
pub mod extension;
pub mod air;
pub mod memory;
pub mod elf;
pub mod executor;
pub mod hex;
pub mod merkle;
pub mod channel;
pub mod stark;
pub mod verify;
pub mod lde;
pub mod prover;
pub mod delegation;
pub mod serialize;
