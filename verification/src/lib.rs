//! Verified core of a LaTeX-to-canvas command baker.
//!
//! The crate turns laid-out math (KaTeX-compatible display lists) into a
//! stream of canvas drawing commands. Everything here is independent of the
//! numeric type used for coordinates: the scalar `S` is carried through
//! opaquely, so the structure of the emitted command stream (segment
//! prefixes, sub-path splitting, contour closing, paints, frame shape) is
//! proved for every scalar the host picks.

pub mod bake;
pub mod draw;
pub mod encoding;
pub mod fonts;
pub mod outline;
pub mod panic_text;
pub mod resource;
pub mod session;

use vstd::prelude::*;

verus! {

/// A rendering failure, carrying a human-readable message.
#[derive(Debug, Clone, PartialEq)]
pub struct Error(pub String);

/// Fill or stroke paint. Math output only ever uses solid colours.
#[derive(Debug, Clone, PartialEq)]
pub enum Paint {
    Solid(String),
}

} // verus!
