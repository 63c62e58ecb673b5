//! Property-checkable laws that every `SynthesizerNode` implementation
//! should satisfy. Real synthesizers call these from their test suites.
//!
//! The trait's methods are the implementors' code, so each law states what
//! it observed: the outcome is computed from results that the calls can
//! return (`call_ensures`).

use super::SynthesizerNode;
use crate::text::starts_with;
use vstd::prelude::*;

verus! {

/// The length in bytes of the UTF-8 encoding of `s`, as `str::len` returns it.
pub open spec fn byte_len(s: Seq<char>) -> usize {
    vstd::utf8::encode_utf8(s).len() as usize
}

/// Determinism: calling `emit` twice with the same indent returns the same
/// string. Failure indicates hidden mutable state, time-based formatting,
/// or nondeterministic iteration order.
#[must_use]
pub fn is_deterministic<N: SynthesizerNode>(node: &N, indent: usize) -> (holds: bool)
    ensures
        exists|first: String, second: String|
            #![trigger call_ensures(N::emit, (node, indent), first), call_ensures(N::emit, (node, indent), second)]
            call_ensures(N::emit, (node, indent), first) && call_ensures(
                N::emit,
                (node, indent),
                second,
            ) && holds == (first@ == second@),
{
    let first = node.emit(indent);
    let second = node.emit(indent);
    first == second
}

/// Indent-unit prefix: when the indent grows by one, the output either
/// starts with the extra indent unit or is identical to the lower-indent
/// output (atomic literals often don't honor indent).
#[must_use]
pub fn honors_indent_unit<N: SynthesizerNode>(node: &N, base: usize) -> (holds: bool)
    requires
        base < usize::MAX,
    ensures
        exists|lower: String, higher: String, unit: &'static str|
            #![trigger call_ensures(N::emit, (node, base), lower), call_ensures(N::emit, (node, (base + 1) as usize), higher), call_ensures(N::indent_unit, (), unit)]
            call_ensures(N::emit, (node, base), lower) && call_ensures(
                N::emit,
                (node, (base + 1) as usize),
                higher,
            ) && call_ensures(N::indent_unit, (), unit) && holds == (unit@.is_prefix_of(higher@)
                || lower@ == higher@),
{
    let lower = node.emit(base);
    let higher = node.emit(base + 1);
    let unit = N::indent_unit();
    let prefixed = starts_with(higher.as_str(), unit);
    let same = lower == higher;
    assert(call_ensures(N::emit, (node, base), lower));
    assert(call_ensures(N::emit, (node, (base + 1) as usize), higher));
    assert(call_ensures(N::indent_unit, (), unit));
    prefixed || same
}

/// Non-decreasing length: emitting at a higher indent never produces
/// shorter output (in bytes) than a lower indent.
#[must_use]
pub fn indent_monotone_len<N: SynthesizerNode>(node: &N, base: usize) -> (holds: bool)
    requires
        base < usize::MAX,
    ensures
        exists|higher: String, lower: String|
            #![trigger call_ensures(N::emit, (node, (base + 1) as usize), higher), call_ensures(N::emit, (node, base), lower)]
            call_ensures(N::emit, (node, (base + 1) as usize), higher) && call_ensures(
                N::emit,
                (node, base),
                lower,
            ) && holds == (byte_len(higher@) >= byte_len(lower@)),
{
    let higher = node.emit(base + 1);
    let lower = node.emit(base);
    assert(call_ensures(N::emit, (node, (base + 1) as usize), higher));
    assert(call_ensures(N::emit, (node, base), lower));
    higher.as_str().len() >= lower.as_str().len()
}

/// Variant id is in range: the trait promises a `u8`, so any id that
/// `variant_id` returns is valid.
#[must_use]
pub fn variant_id_is_valid<N: SynthesizerNode>(node: &N) -> (holds: bool)
    ensures
        holds,
{
    let _id: u8 = node.variant_id();
    true
}

} // verus!
