//! A disk-backed, shared-memory, multi-producer / multi-consumer message
//! queue: the page layout, the reservation arithmetic, the concurrent data
//! page, the page ring and the consumer cursors.
pub use cursor::{Anonymous, AnonCursor, Grouped};
pub use datapage::{DataPage, DataPageFull, EndOfDataPage};
pub use handle::{HandleState, Next};
pub use ring::PageRing;

pub mod cursor;
pub mod datapage;
pub mod frame;
pub mod handle;
pub mod layout;
pub mod model;
pub mod names;
pub mod ring;
