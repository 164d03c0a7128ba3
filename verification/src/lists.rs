//! Short lists of immediates and of identifiers.
//!
//! The lists are `smallvec::SmallVec`s, which keep a few items inline before
//! they spill to the heap. What a list holds is named by a specification
//! function; what each operation does to it is assumed here, not proved.

use crate::spv::Imm;
use smallvec::SmallVec;
use vstd::prelude::*;

verus! {

/// A list of immediates, held in a `SmallVec` that is opaque to the verifier.
#[verifier::external_body]
#[derive(Debug)]
pub struct ImmList {
    items: SmallVec<[Imm; 2]>,
}

/// A list of identifiers, held in a `SmallVec` that is opaque to the verifier.
#[verifier::external_body]
#[derive(Debug)]
pub struct IdList {
    items: SmallVec<[u32; 4]>,
}

/// The immediates that a list holds, first to last.
pub uninterp spec fn imm_list_items(list: ImmList) -> Seq<Imm>;

/// The identifiers that a list holds, first to last.
pub uninterp spec fn id_list_items(list: IdList) -> Seq<u32>;

impl ImmList {
    /// `SmallVec::new`: assumed to give a list without items.
    #[verifier::external_body]
    pub(crate) fn new() -> (list: ImmList)
        ensures
            imm_list_items(list) == Seq::<Imm>::empty(),
    {
        ImmList { items: SmallVec::new() }
    }

    /// `SmallVec::push`: assumed to append `imm` behind the items already held.
    #[verifier::external_body]
    pub(crate) fn push(&mut self, imm: Imm)
        ensures
            imm_list_items(*final(self)) == imm_list_items(*old(self)).push(imm),
    {
        self.items.push(imm)
    }

    /// `SmallVec::as_slice`: assumed to give the items held, first to last.
    #[verifier::external_body]
    pub(crate) fn as_slice(&self) -> (items: &[Imm])
        ensures
            items@ == imm_list_items(*self),
    {
        self.items.as_slice()
    }
}

impl IdList {
    /// `SmallVec::new`: assumed to give a list without items.
    #[verifier::external_body]
    pub(crate) fn new() -> (list: IdList)
        ensures
            id_list_items(list) == Seq::<u32>::empty(),
    {
        IdList { items: SmallVec::new() }
    }

    /// `SmallVec::push`: assumed to append `id` behind the items already held.
    #[verifier::external_body]
    pub(crate) fn push(&mut self, id: u32)
        ensures
            id_list_items(*final(self)) == id_list_items(*old(self)).push(id),
    {
        self.items.push(id)
    }

    /// `SmallVec::as_slice`: assumed to give the items held, first to last.
    #[verifier::external_body]
    pub(crate) fn as_slice(&self) -> (items: &[u32])
        ensures
            items@ == id_list_items(*self),
    {
        self.items.as_slice()
    }
}

} // verus!
