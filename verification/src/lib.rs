//! Generation of vendor-flavored PLCopenXML documents from a compiler's
//! program representation: a generic XML node tree with a verified
//! serializer, typed element builders, an enumerator initial-value conflict
//! resolver, a per-unit parameter-order tracker, and the translator that
//! walks program units into a skeleton document.

use vstd::prelude::*;

pub mod model;
pub mod node;
pub mod elements;
pub mod numtext;
pub mod order;
pub mod resolver;
pub mod template;
pub mod writer;
pub mod xml_gen;

pub use node::Node;

verus! {

/// How a generation step can fail.
///
/// A missing anchor aborts only the affected sub-pass for the affected
/// unit; the two exhaustion conditions are fatal and end the run.
#[derive(Debug, Clone, Copy, PartialEq, Eq, Structural)]
pub enum GenError {
    /// An expected anchor element is absent from the skeleton document.
    AnchorNotFound,
    /// No free enumerator value is left in the representable range.
    ValueExhausted,
    /// No free parameter-order number is left in the representable range.
    OrderExhausted,
}

} // verus!
