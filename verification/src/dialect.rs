//! The dialect of a module: the target environment it was built against.

use vstd::prelude::*;

verus! {

/// A set of capabilities, each named by its number.
#[derive(Debug)]
pub struct CapabilitySet {
    items: Vec<u32>,
}

impl View for CapabilitySet {
    type V = Set<u32>;

    closed spec fn view(&self) -> Set<u32> {
        self.items@.to_set()
    }
}

impl CapabilitySet {
    /// No capability is held twice.
    pub closed spec fn wf(&self) -> bool {
        self.items@.no_duplicates()
    }

    /// The set without capabilities.
    pub fn new() -> (set: CapabilitySet)
        ensures
            set.wf(),
            set@ == Set::<u32>::empty(),
    {
        let set = CapabilitySet { items: Vec::new() };
        assert(set@ =~= Set::<u32>::empty());
        set
    }

    /// How many capabilities the set holds.
    pub fn len(&self) -> (n: usize)
        requires
            self.wf(),
        ensures
            n == self@.len(),
            self@.finite(),
    {
        proof {
            self.items@.unique_seq_to_set();
        }
        self.items.len()
    }

    /// Whether the set holds `cap`.
    pub fn contains(&self, cap: u32) -> (found: bool)
        ensures
            found == self@.contains(cap),
    {
        let mut i: usize = 0;
        while i < self.items.len()
            invariant
                i <= self.items@.len(),
                forall|j: int| 0 <= j < i ==> self.items@[j] != cap,
            decreases self.items@.len() - i,
        {
            if self.items[i] == cap {
                return true;
            }
            i += 1;
        }
        false
    }

    /// Adds `cap` to the set. Returns whether it was absent before.
    pub fn insert(&mut self, cap: u32) -> (added: bool)
        requires
            old(self).wf(),
        ensures
            final(self).wf(),
            final(self)@ == old(self)@.insert(cap),
            added == !old(self)@.contains(cap),
    {
        if self.contains(cap) {
            assert(self@.insert(cap) =~= self@);
            return false;
        }
        proof {
            self.items@.lemma_push_to_set_commute(cap);
        }
        self.items.push(cap);
        true
    }

    /// Adds every capability of `other` to the set.
    pub fn extend(&mut self, other: &CapabilitySet)
        requires
            old(self).wf(),
        ensures
            final(self).wf(),
            final(self)@ == old(self)@.union(other@),
    {
        let mut i: usize = 0;
        while i < other.items.len()
            invariant
                i <= other.items@.len(),
                self.wf(),
                self@ == old(self)@.union(other.items@.take(i as int).to_set()),
            decreases other.items@.len() - i,
        {
            let cap = other.items[i];
            proof {
                other.items@.take(i as int).lemma_push_to_set_commute(cap);
                assert(other.items@.take(i as int).push(cap) =~= other.items@.take(i + 1));
                assert(old(self)@.union(other.items@.take(i as int).to_set()).insert(cap) =~= old(
                    self,
                )@.union(other.items@.take(i + 1).to_set()));
            }
            self.insert(cap);
            i += 1;
        }
        assert(other.items@.take(other.items@.len() as int) =~= other.items@);
    }

    /// A copy of the set.
    pub fn duplicate(&self) -> (copy: CapabilitySet)
        ensures
            copy@ == self@,
            self.wf() ==> copy.wf(),
    {
        CapabilitySet { items: self.items.clone() }
    }

    /// The capabilities held, each once, in the order they were added.
    pub fn to_vec(&self) -> (caps: Vec<u32>)
        ensures
            caps@.to_set() == self@,
            self.wf() ==> caps@.no_duplicates(),
    {
        self.items.clone()
    }
}

/// A set of extensions, each named by its string.
#[derive(Debug)]
pub struct ExtensionSet {
    items: Vec<String>,
}

impl View for ExtensionSet {
    type V = Set<Seq<char>>;

    closed spec fn view(&self) -> Set<Seq<char>> {
        self.names().to_set()
    }
}

impl ExtensionSet {
    /// The names held, in the order they were added.
    pub closed spec fn names(&self) -> Seq<Seq<char>> {
        Seq::new(self.items@.len(), |i: int| self.items@[i]@)
    }

    /// No name is held twice.
    pub closed spec fn wf(&self) -> bool {
        self.names().no_duplicates()
    }

    /// The set without extensions.
    pub fn new() -> (set: ExtensionSet)
        ensures
            set.wf(),
            set@ == Set::<Seq<char>>::empty(),
    {
        let set = ExtensionSet { items: Vec::new() };
        assert(set.names() =~= Seq::<Seq<char>>::empty());
        assert(set@ =~= Set::<Seq<char>>::empty());
        set
    }

    /// How many extensions the set holds.
    pub fn len(&self) -> (n: usize)
        requires
            self.wf(),
        ensures
            n == self@.len(),
            self@.finite(),
    {
        proof {
            self.names().unique_seq_to_set();
        }
        self.items.len()
    }

    /// Whether the set holds the extension `name`.
    pub fn contains(&self, name: &String) -> (found: bool)
        ensures
            found == self@.contains(name@),
    {
        let mut i: usize = 0;
        while i < self.items.len()
            invariant
                i <= self.items@.len(),
                forall|j: int| 0 <= j < i ==> self.names()[j] != name@,
            decreases self.items@.len() - i,
        {
            if self.items[i] == *name {
                assert(self.names()[i as int] == name@);
                return true;
            }
            i += 1;
        }
        false
    }

    /// Adds the extension `name` to the set. Returns whether it was absent
    /// before.
    pub fn insert(&mut self, name: String) -> (added: bool)
        requires
            old(self).wf(),
        ensures
            final(self).wf(),
            final(self)@ == old(self)@.insert(name@),
            added == !old(self)@.contains(name@),
    {
        if self.contains(&name) {
            assert(self@.insert(name@) =~= self@);
            return false;
        }
        let ghost before = self.names();
        self.items.push(name);
        assert(self.names() =~= before.push(name@));
        proof {
            before.lemma_push_to_set_commute(name@);
        }
        true
    }

    /// Adds every extension of `other` to the set.
    pub fn extend(&mut self, other: &ExtensionSet)
        requires
            old(self).wf(),
        ensures
            final(self).wf(),
            final(self)@ == old(self)@.union(other@),
    {
        let mut i: usize = 0;
        while i < other.items.len()
            invariant
                i <= other.items@.len(),
                self.wf(),
                self@ == old(self)@.union(other.names().take(i as int).to_set()),
            decreases other.items@.len() - i,
        {
            let name = other.items[i].clone();
            proof {
                other.names().take(i as int).lemma_push_to_set_commute(name@);
                assert(other.names().take(i as int).push(name@) =~= other.names().take(i + 1));
                assert(old(self)@.union(other.names().take(i as int).to_set()).insert(name@)
                    =~= old(self)@.union(other.names().take(i + 1).to_set()));
            }
            self.insert(name);
            i += 1;
        }
        assert(other.names().take(other.items@.len() as int) =~= other.names());
    }

    /// A copy of the set.
    pub fn duplicate(&self) -> (copy: ExtensionSet)
        ensures
            copy@ == self@,
            self.wf() ==> copy.wf(),
    {
        let mut items: Vec<String> = Vec::new();
        let mut i: usize = 0;
        while i < self.items.len()
            invariant
                i <= self.items@.len(),
                items@.len() == i,
                forall|j: int| 0 <= j < i ==> (#[trigger] items@[j])@ == self.items@[j]@,
            decreases self.items@.len() - i,
        {
            items.push(self.items[i].clone());
            i += 1;
        }
        let copy = ExtensionSet { items };
        assert(copy.names() =~= self.names());
        copy
    }

    /// The extension at position `i`, in the order they were added.
    pub fn get(&self, i: usize) -> (name: &String)
        requires
            self.wf(),
            i < self@.len(),
        ensures
            self@.contains(name@),
    {
        proof {
            self.names().unique_seq_to_set();
        }
        assert(self.names()[i as int] == self.items@[i as int]@);
        &self.items[i]
    }
}

/// The target environment of a module.
#[derive(Debug)]
pub struct Dialect {
    pub version_major: u8,
    pub version_minor: u8,
    pub original_generator_magic: u32,
    pub original_id_bound: u32,
    pub capabilities: CapabilitySet,
    pub extensions: ExtensionSet,
    pub addressing_model: u32,
    pub memory_model: u32,
}

/// The mathematical value of a [`Dialect`].
pub struct DialectView {
    pub version_major: u8,
    pub version_minor: u8,
    pub original_generator_magic: u32,
    pub original_id_bound: u32,
    pub capabilities: Set<u32>,
    pub extensions: Set<Seq<char>>,
    pub addressing_model: u32,
    pub memory_model: u32,
}

impl View for Dialect {
    type V = DialectView;

    open spec fn view(&self) -> DialectView {
        DialectView {
            version_major: self.version_major,
            version_minor: self.version_minor,
            original_generator_magic: self.original_generator_magic,
            original_id_bound: self.original_id_bound,
            capabilities: self.capabilities@,
            extensions: self.extensions@,
            addressing_model: self.addressing_model,
            memory_model: self.memory_model,
        }
    }
}

impl Dialect {
    /// The ID bound is not zero, and neither set holds an item twice.
    pub open spec fn wf(&self) -> bool {
        &&& self.original_id_bound != 0
        &&& self.capabilities.wf()
        &&& self.extensions.wf()
    }

    /// A copy of the dialect.
    pub fn duplicate(&self) -> (copy: Dialect)
        ensures
            copy@ == self@,
            self.wf() ==> copy.wf(),
    {
        Dialect {
            version_major: self.version_major,
            version_minor: self.version_minor,
            original_generator_magic: self.original_generator_magic,
            original_id_bound: self.original_id_bound,
            capabilities: self.capabilities.duplicate(),
            extensions: self.extensions.duplicate(),
            addressing_model: self.addressing_model,
            memory_model: self.memory_model,
        }
    }
}

/// The dialect of a module, by family. There is one family.
#[derive(Debug)]
pub enum ModuleDialect {
    Spv(Dialect),
}

impl View for ModuleDialect {
    type V = DialectView;

    open spec fn view(&self) -> DialectView {
        match *self {
            ModuleDialect::Spv(d) => d@,
        }
    }
}

impl ModuleDialect {
    /// The dialect inside is well-formed.
    pub open spec fn wf(&self) -> bool {
        match *self {
            ModuleDialect::Spv(d) => d.wf(),
        }
    }

    /// A copy of the dialect.
    pub fn duplicate(&self) -> (copy: ModuleDialect)
        ensures
            copy@ == self@,
            self.wf() ==> copy.wf(),
    {
        match self {
            ModuleDialect::Spv(d) => ModuleDialect::Spv(d.duplicate()),
        }
    }
}

} // verus!
