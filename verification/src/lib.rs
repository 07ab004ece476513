//! A bidirectional mapping layer between a markup tree (the hardware
//! register description dialect) and strongly typed in-memory records.
//!
//! The representative schema element implemented here is the enumerated
//! values collection: [`enumeratedvalues::EnumeratedValues`] with its nested
//! [`enumeratedvalue::EnumeratedValue`] entries and the closed
//! [`usage::Usage`] qualifier. Each element type is decoded from a
//! [`tree::XmlNode`] and re-encoded back into an equivalent node, with
//! optional fields reflected by omission and round-trip fidelity proved in
//! [`laws`].

pub mod enumeratedvalue;
pub mod enumeratedvalues;
pub mod error;
pub mod laws;
pub mod scalar;
pub mod tree;
pub mod usage;

pub use enumeratedvalue::EnumeratedValue;
pub use enumeratedvalues::EnumeratedValues;
pub use error::FieldError;
pub use error::SvdError;
pub use tree::XmlNode;
pub use usage::Usage;
