//! A subscription to a stream: the images that publishers bring into it, the
//! round-robin passes that poll them, and the requests that it has the client
//! conductor carry out.
//!
//! The list of images is copy-on-write. A reader works on the snapshot that it
//! took; a writer makes the next list from the last one and swaps it in.

pub mod channel;
pub mod conductor;
pub mod error;
pub mod image;
pub mod image_list;
pub mod laws;
pub mod operations;
pub mod polling;
pub mod recorder;
pub mod snapshot;
pub mod subscription;

pub use crate::image::Image;
pub use crate::subscription::Subscription;
