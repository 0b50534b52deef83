//! The cell that holds the current list of images.
//!
//! The cell is an [`arc_swap::ArcSwap`]. Through a shared reference it could be
//! written at any time; here every write takes the cell by `&mut`, so that as
//! long as a reader borrows it, what it holds stands still.

use crate::image::Image;
use arc_swap::ArcSwap;
use std::sync::Arc;
use vstd::prelude::*;

verus! {

/// A list of images that is swapped as a whole.
#[verifier::external_body]
pub struct ImageList {
    cell: ArcSwap<Vec<Image>>,
}

/// The images of the list that `list` holds, in order.
pub uninterp spec fn contents(list: ImageList) -> Seq<Image>;

impl ImageList {
    /// `ArcSwap::from_pointee` puts `images` behind a new pointer and makes a
    /// cell that holds it.
    #[verifier::external_body]
    pub(crate) fn from_pointee(images: Vec<Image>) -> (list: ImageList)
        ensures
            contents(list) == images@,
    {
        ImageList { cell: ArcSwap::from_pointee(images) }
    }

    /// `ArcSwap::load_full` gives another pointer to the list that the cell
    /// holds, and leaves the cell as it is.
    #[verifier::external_body]
    pub(crate) fn load_full(&self) -> (images: Arc<Vec<Image>>)
        ensures
            images@ == contents(*self),
    {
        self.cell.load_full()
    }

    /// `ArcSwap::store` has the cell hold `images` from now on.
    #[verifier::external_body]
    pub(crate) fn store(&mut self, images: Arc<Vec<Image>>)
        ensures
            contents(*final(self)) == images@,
    {
        self.cell.store(images)
    }

    /// `ArcSwap::swap` has the cell hold `images` from now on, and gives back
    /// the pointer that it held.
    #[verifier::external_body]
    pub(crate) fn swap(&mut self, images: Arc<Vec<Image>>) -> (previous: Arc<Vec<Image>>)
        ensures
            contents(*final(self)) == images@,
            previous@ == contents(*old(self)),
    {
        self.cell.swap(images)
    }
}

/// `Arc::try_unwrap` gives the list itself where `images` is the only pointer
/// to it, else that pointer again. Which of the two comes rests on what other
/// pointers there are, and is left open.
#[verifier::external_body]
fn try_unwrap(images: Arc<Vec<Image>>) -> (r: Result<Vec<Image>, Arc<Vec<Image>>>)
    ensures
        match r {
            Ok(list) => list@ == images@,
            Err(pointer) => pointer@ == images@,
        },
{
    Arc::try_unwrap(images)
}

/// The list that `images` points to, copied only where another pointer to it
/// is left.
pub fn unwrap_or_clone(images: Arc<Vec<Image>>) -> (list: Vec<Image>)
    ensures
        list@ == images@,
{
    match try_unwrap(images) {
        Ok(list) => list,
        Err(pointer) => {
            let list = (*pointer).clone();
            assert(list@ =~= pointer@);
            list
        },
    }
}

} // verus!
