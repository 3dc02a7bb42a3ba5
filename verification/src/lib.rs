//! Message framing and progress logic for a two-sided exchange between
//! ranks of a communicator, together with a communicator handle that is
//! tied to one element type.

pub mod codec;
pub mod header;
pub mod buffer;
pub mod segmented;
pub mod two_sided;
pub mod typed;
pub mod rows;
