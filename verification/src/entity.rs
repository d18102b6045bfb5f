//! Entity ids: an index into per-node storage plus a generation counter.

use vstd::prelude::*;
use vizia_id::GenerationalId;

verus! {

/// Number of low bits of an id that hold the index.
pub const INDEX_BITS: u64 = 48;

/// Mask of the index bits of an id.
pub const INDEX_MASK: u64 = 0xffff_ffff_ffff;

/// Mask of the generation, once shifted down by [`INDEX_BITS`].
pub const GENERATION_MASK: u64 = 0xffff;

/// An id of one node of the view tree.
///
/// The low 48 bits are the index of the node's slot, the high 16 bits count
/// how often that slot has been handed out.
#[derive(Clone, Copy, Debug, PartialEq, Eq, Hash, Structural)]
pub struct Entity(pub u64);

impl Entity {
    /// The id of the root of every tree.
    pub open spec fn spec_root() -> Entity {
        Entity(0)
    }

    /// The id that stands for "no entity".
    pub open spec fn spec_null() -> Entity {
        Entity(u64::MAX)
    }

    /// The slot that the id addresses.
    pub open spec fn slot(self) -> usize {
        (self.0 & INDEX_MASK) as usize
    }

    /// True for ids whose generation is zero, which are their own index.
    pub open spec fn is_plain(self) -> bool {
        self.0 <= INDEX_MASK
    }

    /// The root id.
    #[verifier::when_used_as_spec(spec_root)]
    pub fn root() -> (r: Entity)
        ensures
            r == Entity::spec_root(),
    {
        Entity(0)
    }

    /// The null id.
    #[verifier::when_used_as_spec(spec_null)]
    pub fn null() -> (r: Entity)
        ensures
            r == Entity::spec_null(),
    {
        Entity(u64::MAX)
    }

    /// Packs an index and a generation into an id. Bits of either argument
    /// that do not fit are dropped.
    pub fn new(index: u64, generation: u64) -> (r: Entity)
        ensures
            r.0 == (index & INDEX_MASK) | ((generation & GENERATION_MASK) << INDEX_BITS),
            index <= INDEX_MASK && generation == 0 ==> r.0 == index,
    {
        let low: u64 = index & INDEX_MASK;
        let high: u64 = (generation & GENERATION_MASK) << INDEX_BITS;
        assert(index <= 0xffff_ffff_ffffu64 ==> (index & 0xffff_ffff_ffffu64) | ((0u64
            & 0xffffu64) << 48u64) == index) by (bit_vector);
        Entity(low | high)
    }

    /// The index of the id's slot.
    pub fn index(&self) -> (r: usize)
        ensures
            r == self.slot(),
    {
        (self.0 & INDEX_MASK) as usize
    }

    /// The generation of the id.
    pub fn generation(&self) -> (r: u16)
        ensures
            r == ((self.0 >> INDEX_BITS) & GENERATION_MASK) as u16,
    {
        ((self.0 >> INDEX_BITS) & GENERATION_MASK) as u16
    }

    /// Whether this is the null id.
    pub fn is_null(&self) -> (r: bool)
        ensures
            r == (*self == Entity::spec_null()),
    {
        self.0 == u64::MAX
    }

    /// An id without generation that is below the mask addresses the slot of
    /// its own number, and is not the null id.
    pub proof fn lemma_plain_slot(self)
        requires
            self.0 <= usize::MAX,
            self.is_plain(),
        ensures
            self.slot() == self.0,
            self != Entity::spec_null(),
    {
        let v = self.0;
        assert(v <= 0xffff_ffff_ffffu64 ==> v & 0xffff_ffff_ffffu64 == v) by (bit_vector);
    }
}

impl Default for Entity {
    fn default() -> (r: Entity)
        ensures
            r == Entity::spec_null(),
    {
        Entity::null()
    }
}

/// The ids as the tree sees them. The tree addresses a node's storage by
/// `index`, takes `root` for the top of every tree and `null` for "no
/// entity"; each function here is the one of the same name above.
impl GenerationalId for Entity {
    fn new(index: u64, generation: u64) -> (r: Self)
        ensures
            r.0 == (index & INDEX_MASK) | ((generation & GENERATION_MASK) << INDEX_BITS),
            index <= INDEX_MASK && generation == 0 ==> r.0 == index,
    {
        Entity::new(index, generation)
    }

    fn index(&self) -> (r: usize)
        ensures
            r == self.slot(),
    {
        Entity::index(self)
    }

    fn generation(&self) -> (r: u16)
        ensures
            r == ((self.0 >> INDEX_BITS) & GENERATION_MASK) as u16,
    {
        Entity::generation(self)
    }

    fn null() -> (r: Self)
        ensures
            r == Entity::spec_null(),
    {
        Entity::null()
    }

    fn is_null(&self) -> (r: bool)
        ensures
            r == (*self == Entity::spec_null()),
    {
        Entity::is_null(self)
    }

    fn root() -> (r: Self)
        ensures
            r == Entity::spec_root(),
    {
        Entity::root()
    }
}

} // verus!
