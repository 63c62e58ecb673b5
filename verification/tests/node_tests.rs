use synthesizer_core::node::laws;
use synthesizer_core::{NoRawAttestation, SynthesizerNode};

/// Minimal fixture: two-variant node type for exercising the trait.
#[derive(Clone, Debug, PartialEq)]
enum Tiny {
    Leaf(&'static str),
    Pair(&'static str, &'static str),
}

impl SynthesizerNode for Tiny {
    fn emit(&self, indent: usize) -> String {
        let pad = "  ".repeat(indent);
        match self {
            Self::Leaf(s) => format!("{pad}{s}"),
            Self::Pair(a, b) => format!("{pad}{a}={b}"),
        }
    }
    fn indent_unit() -> &'static str {
        "  "
    }
    fn variant_id(&self) -> u8 {
        match self {
            Self::Leaf(_) => 0,
            Self::Pair(_, _) => 1,
        }
    }
}

impl NoRawAttestation for Tiny {
    fn attestation() -> &'static str {
        "Tiny has only Leaf and Pair variants — neither accepts unstructured bytes."
    }
}

/// A node whose rendering ignores the indent.
struct Atom;

impl SynthesizerNode for Atom {
    fn emit(&self, _indent: usize) -> String {
        "42".to_string()
    }
    fn indent_unit() -> &'static str {
        "\t"
    }
    fn variant_id(&self) -> u8 {
        0
    }
}

/// A node that breaks the indent laws: it shrinks as the indent grows.
struct Shrinking;

impl SynthesizerNode for Shrinking {
    fn emit(&self, indent: usize) -> String {
        "x".repeat(10usize.saturating_sub(indent))
    }
    fn indent_unit() -> &'static str {
        "  "
    }
    fn variant_id(&self) -> u8 {
        7
    }
}

#[test]
fn leaf_emits_at_indent_zero() {
    assert_eq!(Tiny::Leaf("x").emit(0), "x");
}

#[test]
fn leaf_emits_at_indent_one() {
    assert_eq!(Tiny::Leaf("x").emit(1), "  x");
}

#[test]
fn pair_emits_with_pad() {
    assert_eq!(Tiny::Pair("k", "v").emit(2), "    k=v");
}

#[test]
fn indent_unit_is_two_spaces() {
    assert_eq!(Tiny::indent_unit(), "  ");
}

#[test]
fn variant_ids_are_distinct() {
    assert_ne!(Tiny::Leaf("x").variant_id(), Tiny::Pair("a", "b").variant_id());
}

#[test]
fn law_determinism_holds_on_leaf() {
    assert!(laws::is_deterministic(&Tiny::Leaf("x"), 3));
}

#[test]
fn law_determinism_holds_on_pair() {
    assert!(laws::is_deterministic(&Tiny::Pair("k", "v"), 5));
}

#[test]
fn law_honors_indent_unit_on_leaf() {
    assert!(laws::honors_indent_unit(&Tiny::Leaf("x"), 0));
    assert!(laws::honors_indent_unit(&Tiny::Leaf("x"), 4));
}

#[test]
fn law_honors_indent_unit_on_pair() {
    assert!(laws::honors_indent_unit(&Tiny::Pair("k", "v"), 0));
}

#[test]
fn law_indent_monotone_on_both_variants() {
    assert!(laws::indent_monotone_len(&Tiny::Leaf("x"), 0));
    assert!(laws::indent_monotone_len(&Tiny::Pair("k", "v"), 3));
}

#[test]
fn law_variant_id_in_range() {
    assert!(laws::variant_id_is_valid(&Tiny::Leaf("x")));
    assert!(laws::variant_id_is_valid(&Tiny::Pair("a", "b")));
}

#[test]
fn attestation_is_nonempty() {
    assert!(!<Tiny as NoRawAttestation>::attestation().is_empty());
}

#[test]
fn emit_is_pure_over_many_calls() {
    let n = Tiny::Pair("a", "b");
    let first = n.emit(2);
    for _ in 0..32 {
        assert_eq!(n.emit(2), first);
    }
}

#[test]
fn atom_honors_indent_unit_by_being_identical() {
    assert!(laws::honors_indent_unit(&Atom, 0));
    assert!(laws::indent_monotone_len(&Atom, 5));
    assert!(laws::is_deterministic(&Atom, 1));
}

#[test]
fn shrinking_node_fails_indent_laws() {
    assert!(!laws::honors_indent_unit(&Shrinking, 2));
    assert!(!laws::indent_monotone_len(&Shrinking, 2));
    assert!(laws::variant_id_is_valid(&Shrinking));
}
