//! A deterministic price-trend signal and its canonical wire format.
//!
//! The library has two halves that share one data contract. The
//! [`forecaster`] module fits an integer least-squares trend to a fixed
//! historical price series and turns one observed amount into a binary
//! buy/sell decision, a confidence score, and a rescaled forecast. The
//! [`codec`] module defines the canonical 96-byte big-endian encoding of
//! that result, a strict decoder for it, and a tolerant decoder that
//! recovers the result from a transport-framed blob whose layout is not
//! known in advance.

pub mod bytes;
pub mod codec;
pub mod forecaster;
pub mod signal;
