//! The universal emit contract shared by every synthesizer.
//!
//! Every synthesizer's AST root exposes `emit(&self, indent) -> String`.
//! [`SynthesizerNode`] lifts that convention into a trait so generic code —
//! property tests, file assemblers, cross-language composition helpers — can
//! talk about "a node that knows how to render itself" without knowing the
//! concrete type. The trait is deliberately small: no parsing, diffing or
//! mutation.

use vstd::prelude::*;

pub mod laws;

verus! {

/// A value that can render itself to source code at a given indentation level.
///
/// ## Contract for implementors
///
/// - `emit` must be deterministic: `n.emit(i)` equals `n.emit(i)` always.
/// - `emit` must be pure: no IO, no globals, no mutation of `self`.
/// - `indent_unit` is an associated function (not a method) because it
///   depends on the target language, not the node instance.
/// - `variant_id` lets property tests prove every variant is exercised.
///   Two variants must not share an id.
///
/// Implementations live with each synthesizer; the functions of
/// [`laws`] check these promises on concrete values.
pub trait SynthesizerNode {
    /// Emit the node as target-language source at the given indent level.
    fn emit(&self, indent: usize) -> String;

    /// The indentation unit for this synthesizer's target language,
    /// e.g. `"  "` for Nix/YAML/Ruby, `"    "` for Python, `"\t"` for Go.
    fn indent_unit() -> &'static str;

    /// Unique integer tag for the variant of `self`.
    fn variant_id(&self) -> u8;
}

/// Author-attested marker: "this type has no raw/verbatim/text escape-hatch
/// variant that bypasses typed rendering".
///
/// The compiler cannot check this directly; implementors write an
/// attestation string that explains how they enforce it.
pub trait NoRawAttestation {
    /// Short human-readable attestation of how no-raw is enforced.
    fn attestation() -> &'static str;
}

} // verus!
