//! The core of a GraphQL engine: the document model, the rule that fragment
//! spreads name declared fragments, operation selection, selection-set
//! flattening and merging by response key, input coercion, and value
//! completion with non-null propagation of field errors.

pub mod ast;
pub mod coercion;
pub mod completion;
pub mod executor;
pub mod fields;
pub mod known_fragment_names;
pub mod position;
pub mod validation;
pub mod value;
