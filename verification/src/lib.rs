//! Typed building blocks shared by source-code synthesizers: parameterized
//! indentation, ordered key/value and element containers, and the common
//! rendering contract of syntax-tree nodes, each with the laws it obeys.

pub mod indent;
pub mod mapping;
pub mod node;
pub mod sequence;
mod text;

pub use indent::IndentStyle;
pub use mapping::Mapping;
pub use node::{NoRawAttestation, SynthesizerNode};
pub use sequence::Sequence;
