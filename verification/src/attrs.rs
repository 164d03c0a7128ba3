//! Attributes: metadata that annotation and entry-point instructions attach
//! to the declaration they target, and sets of such attributes.

use crate::lists::{id_list_items, imm_list_items, IdList, ImmList};
use crate::spv::Imm;
use vstd::prelude::*;

verus! {

/// One attribute of a declaration.
#[derive(Debug)]
pub enum Attr {
    /// An entry point: its immediates (execution model, then name) and the
    /// IDs of its interface.
    SpvEntryPoint { params: ImmList, interface_ids: IdList },
    /// An execution mode, a name or a decoration, with its immediates.
    SpvAnnotation { opcode: u16, params: ImmList },
}

/// The mathematical value of an [`Attr`].
pub enum AttrView {
    SpvEntryPoint { params: Seq<Imm>, interface_ids: Seq<u32> },
    SpvAnnotation { opcode: u16, params: Seq<Imm> },
}

impl View for Attr {
    type V = AttrView;

    open spec fn view(&self) -> AttrView {
        match *self {
            Attr::SpvEntryPoint { params, interface_ids } => AttrView::SpvEntryPoint {
                params: imm_list_items(params),
                interface_ids: id_list_items(interface_ids),
            },
            Attr::SpvAnnotation { opcode, params } => AttrView::SpvAnnotation {
                opcode,
                params: imm_list_items(params),
            },
        }
    }
}

/// Whether two slices of immediates hold the same items in the same order.
fn same_imms(a: &[Imm], b: &[Imm]) -> (same: bool)
    ensures
        same == (a@ == b@),
{
    if a.len() != b.len() {
        return false;
    }
    let mut i: usize = 0;
    while i < a.len()
        invariant
            a@.len() == b@.len(),
            i <= a@.len(),
            forall|j: int| 0 <= j < i ==> a@[j] == b@[j],
        decreases a@.len() - i,
    {
        if a[i] != b[i] {
            return false;
        }
        i += 1;
    }
    assert(a@ =~= b@);
    true
}

/// Whether two slices of identifiers hold the same items in the same order.
fn same_ids(a: &[u32], b: &[u32]) -> (same: bool)
    ensures
        same == (a@ == b@),
{
    if a.len() != b.len() {
        return false;
    }
    let mut i: usize = 0;
    while i < a.len()
        invariant
            a@.len() == b@.len(),
            i <= a@.len(),
            forall|j: int| 0 <= j < i ==> a@[j] == b@[j],
        decreases a@.len() - i,
    {
        if a[i] != b[i] {
            return false;
        }
        i += 1;
    }
    assert(a@ =~= b@);
    true
}

/// The items of a slice of immediates, collected into a list.
fn imm_list_from(items: &[Imm]) -> (list: ImmList)
    ensures
        imm_list_items(list) == items@,
{
    let mut list = ImmList::new();
    let mut i: usize = 0;
    while i < items.len()
        invariant
            i <= items@.len(),
            imm_list_items(list) == items@.take(i as int),
        decreases items@.len() - i,
    {
        list.push(items[i]);
        assert(items@.take(i as int).push(items@[i as int]) =~= items@.take(i + 1));
        i += 1;
    }
    assert(items@.take(items@.len() as int) =~= items@);
    list
}

/// The items of a slice of identifiers, collected into a list.
fn id_list_from(items: &[u32]) -> (list: IdList)
    ensures
        id_list_items(list) == items@,
{
    let mut list = IdList::new();
    let mut i: usize = 0;
    while i < items.len()
        invariant
            i <= items@.len(),
            id_list_items(list) == items@.take(i as int),
        decreases items@.len() - i,
    {
        list.push(items[i]);
        assert(items@.take(i as int).push(items@[i as int]) =~= items@.take(i + 1));
        i += 1;
    }
    assert(items@.take(items@.len() as int) =~= items@);
    list
}

/// The items of a slice, copied into a vector.
fn copy_imms(items: &[Imm]) -> (copy: Vec<Imm>)
    ensures
        copy@ == items@,
{
    let mut copy: Vec<Imm> = Vec::new();
    let mut i: usize = 0;
    while i < items.len()
        invariant
            i <= items@.len(),
            copy@ == items@.take(i as int),
        decreases items@.len() - i,
    {
        copy.push(items[i]);
        assert(items@.take(i as int).push(items@[i as int]) =~= items@.take(i + 1));
        i += 1;
    }
    assert(items@.take(items@.len() as int) =~= items@);
    copy
}

/// The items of a slice, copied into a vector.
fn copy_ids(items: &[u32]) -> (copy: Vec<u32>)
    ensures
        copy@ == items@,
{
    let mut copy: Vec<u32> = Vec::new();
    let mut i: usize = 0;
    while i < items.len()
        invariant
            i <= items@.len(),
            copy@ == items@.take(i as int),
        decreases items@.len() - i,
    {
        copy.push(items[i]);
        assert(items@.take(i as int).push(items@[i as int]) =~= items@.take(i + 1));
        i += 1;
    }
    assert(items@.take(items@.len() as int) =~= items@);
    copy
}

impl Attr {
    /// The entry-point attribute with the given immediates and interface IDs.
    pub fn entry_point(params: &[Imm], interface_ids: &[u32]) -> (attr: Attr)
        ensures
            attr@ == (AttrView::SpvEntryPoint { params: params@, interface_ids: interface_ids@ }),
    {
        Attr::SpvEntryPoint {
            params: imm_list_from(params),
            interface_ids: id_list_from(interface_ids),
        }
    }

    /// The annotation attribute of the given opcode with the given immediates.
    pub fn annotation(opcode: u16, params: &[Imm]) -> (attr: Attr)
        ensures
            attr@ == (AttrView::SpvAnnotation { opcode, params: params@ }),
    {
        Attr::SpvAnnotation { opcode, params: imm_list_from(params) }
    }

    /// Whether the attribute is an entry point.
    pub fn is_entry_point(&self) -> (r: bool)
        ensures
            r == (self@ is SpvEntryPoint),
    {
        match self {
            Attr::SpvEntryPoint { .. } => true,
            Attr::SpvAnnotation { .. } => false,
        }
    }

    /// The opcode of an annotation; `None` for an entry point.
    pub fn opcode(&self) -> (r: Option<u16>)
        ensures
            r == (match self@ {
                AttrView::SpvEntryPoint { .. } => None,
                AttrView::SpvAnnotation { opcode, .. } => Some(opcode),
            }),
    {
        match self {
            Attr::SpvEntryPoint { .. } => None,
            Attr::SpvAnnotation { opcode, .. } => Some(*opcode),
        }
    }

    /// The immediates of the attribute, first to last.
    pub fn params(&self) -> (r: Vec<Imm>)
        ensures
            r@ == (match self@ {
                AttrView::SpvEntryPoint { params, .. } => params,
                AttrView::SpvAnnotation { params, .. } => params,
            }),
    {
        match self {
            Attr::SpvEntryPoint { params, .. } => copy_imms(params.as_slice()),
            Attr::SpvAnnotation { params, .. } => copy_imms(params.as_slice()),
        }
    }

    /// The interface IDs of an entry point; none for an annotation.
    pub fn interface_ids(&self) -> (r: Vec<u32>)
        ensures
            r@ == (match self@ {
                AttrView::SpvEntryPoint { interface_ids, .. } => interface_ids,
                AttrView::SpvAnnotation { .. } => Seq::<u32>::empty(),
            }),
    {
        match self {
            Attr::SpvEntryPoint { interface_ids, .. } => copy_ids(interface_ids.as_slice()),
            Attr::SpvAnnotation { .. } => Vec::new(),
        }
    }

    /// Whether two attributes have the same value.
    pub fn same(&self, other: &Attr) -> (r: bool)
        ensures
            r == (self@ == other@),
    {
        match self {
            Attr::SpvEntryPoint { params, interface_ids } => match other {
                Attr::SpvEntryPoint { params: other_params, interface_ids: other_ids } => {
                    same_imms(params.as_slice(), other_params.as_slice()) && same_ids(
                        interface_ids.as_slice(),
                        other_ids.as_slice(),
                    )
                },
                Attr::SpvAnnotation { .. } => false,
            },
            Attr::SpvAnnotation { opcode, params } => match other {
                Attr::SpvEntryPoint { .. } => false,
                Attr::SpvAnnotation { opcode: other_opcode, params: other_params } => {
                    *opcode == *other_opcode && same_imms(
                        params.as_slice(),
                        other_params.as_slice(),
                    )
                },
            },
        }
    }
}

/// A set of attributes: no value occurs in it twice.
#[derive(Debug)]
pub struct AttrSet {
    items: Vec<Attr>,
}

impl AttrSet {
    /// The values of the attributes held, in the order they were inserted.
    pub closed spec fn values(&self) -> Seq<AttrView> {
        Seq::new(self.items@.len(), |i: int| self.items@[i]@)
    }

    /// No value is held twice.
    pub closed spec fn wf(&self) -> bool {
        self.values().no_duplicates()
    }

    /// The set without attributes.
    pub fn new() -> (set: AttrSet)
        ensures
            set.wf(),
            set@ == Set::<AttrView>::empty(),
    {
        let set = AttrSet { items: Vec::new() };
        assert(set.values() =~= Seq::<AttrView>::empty());
        assert(set@ =~= Set::<AttrView>::empty());
        set
    }

    /// How many attributes the set holds.
    pub fn len(&self) -> (n: usize)
        requires
            self.wf(),
        ensures
            n == self@.len(),
    {
        proof {
            self.values().unique_seq_to_set();
        }
        self.items.len()
    }

    /// Whether the set holds an attribute with the value of `attr`.
    pub fn contains(&self, attr: &Attr) -> (found: bool)
        ensures
            found == self@.contains(attr@),
    {
        let mut i: usize = 0;
        while i < self.items.len()
            invariant
                i <= self.items@.len(),
                forall|j: int| 0 <= j < i ==> self.values()[j] != attr@,
            decreases self.items@.len() - i,
        {
            if self.items[i].same(attr) {
                assert(self.values()[i as int] == attr@);
                return true;
            }
            i += 1;
        }
        false
    }

    /// Adds `attr` to the set, unless the set holds its value already.
    /// Returns whether it was added.
    pub fn insert(&mut self, attr: Attr) -> (added: bool)
        requires
            old(self).wf(),
        ensures
            final(self).wf(),
            final(self)@ == old(self)@.insert(attr@),
            added == !old(self)@.contains(attr@),
    {
        if self.contains(&attr) {
            assert(self@.insert(attr@) =~= self@);
            return false;
        }
        let ghost before = self.values();
        self.items.push(attr);
        assert(self.values() =~= before.push(attr@));
        proof {
            before.lemma_push_to_set_commute(attr@);
        }
        true
    }

    /// The attribute at position `i` in insertion order.
    pub fn get(&self, i: usize) -> (attr: &Attr)
        requires
            i < self@.len(),
            self.wf(),
        ensures
            self@.contains(attr@),
    {
        proof {
            self.values().unique_seq_to_set();
        }
        assert(self.values()[i as int] == self.items@[i as int]@);
        &self.items[i]
    }
}

impl View for AttrSet {
    type V = Set<AttrView>;

    closed spec fn view(&self) -> Set<AttrView> {
        self.values().to_set()
    }
}

} // verus!
