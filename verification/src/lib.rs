//! Call-dispatch and ABI-selector engine for a smart-contract execution
//! layer.
//!
//! Build time: a contract declaration (storage fields plus functions, one of
//! them the constructor) is turned into a dispatch table.  Every externally
//! callable function — declared ones and the read-only getters synthesized
//! for public fields — gets a canonical signature, a 4-byte selector per
//! hash algorithm, and a collision check across the whole surface.
//!
//! Call time: a raw call-data buffer is split into selector and payload,
//! routed through the table, its payload decoded into typed arguments, the
//! bound function invoked at most once, and the outcome encoded as a success
//! or revert payload.

pub mod abi;
pub mod codec;
pub mod dispatch;
pub mod env;
pub mod hash;
pub mod table;
pub mod ty;
