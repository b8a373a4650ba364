//! What the operations promise of their results, field by field and across
//! calls.

pub mod answers;
pub mod bodies;
pub mod calling;
pub mod catalogs;
pub mod channels;
pub mod configs;
pub mod doctoring;
pub mod healing;
pub mod markup;
pub mod merging;
pub mod outcomes;
pub mod probing;
pub mod reading;
pub mod requests;
pub mod streams;
pub mod thinking;
