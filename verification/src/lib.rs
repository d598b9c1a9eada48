//! A bounded three-dimensional atlas page: a greedy packer of boxes into a
//! fixed volume, with a live generation and a dead generation of placements.
pub mod evaluate;
pub mod extent;
pub mod handle;
pub mod laws;
pub mod listing;
pub mod model;
pub mod page;
pub mod proofs;
pub mod search;

pub use extent::Extent;
pub use handle::AtlasHandle;
pub use handle::HandleMint;
pub use model::AtlasInfo;
pub use model::InsertError;
pub use model::PageModel;
pub use model::Slot;
pub use page::AtlasPage;
