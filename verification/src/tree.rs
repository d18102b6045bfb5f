//! The tree of entities: who is whose parent, and in which order the
//! children of a node stand.
//!
//! The links themselves are kept by `vizia_storage::Tree`. This module states
//! what that tree holds as a sequence of [`Node`]s, one per slot, and proves
//! what the rest of the library needs of it.

use vstd::prelude::*;
use vizia_storage::{Tree, TreeExt, TreeIterator};
use crate::entity::{Entity, INDEX_MASK};

verus! {

/// What the tree records of one slot.
pub struct Node {
    /// The parent, `None` for the root.
    pub parent: Option<Entity>,
    /// The children, first to last.
    pub children: Seq<Entity>,
    /// Whether layout skips the node.
    pub ignored: bool,
    /// Whether keyboard focus is confined to the node's subtree.
    pub lock_focus_within: bool,
}

/// Why a tree operation was refused.
#[derive(Clone, Copy, Debug, PartialEq, Eq, Structural)]
pub enum TreeError {
    /// The entity does not exist in the tree.
    NoEntity,
    /// The parent does not exist in the tree.
    InvalidParent,
    /// The sibling does not exist in the tree.
    InvalidSibling,
    /// The entity is null.
    NullEntity,
    /// The desired sibling is already the sibling.
    AlreadySibling,
    /// The desired first child is already the first child.
    AlreadyFirstChild,
    /// Every index that an id can hold is in use.
    OutOfIds,
}

/// The tree of entities. Its links are those of a `vizia_storage::Tree`,
/// which this library reads and changes only through the functions below.
#[verifier::external_body]
pub struct EntityTree {
    inner: Tree<Entity>,
}

/// The slots of a tree, by index: for each one its parent, its children in
/// order, and its flags.
pub uninterp spec fn tree_nodes(t: EntityTree) -> Seq<Node>;

/// The one slot of a new tree: a root without parent or children, to which
/// focus is confined.
pub open spec fn root_node() -> Node {
    Node { parent: None, children: Seq::empty(), ignored: false, lock_focus_within: true }
}

/// The slot of an entity that has just been added below `parent`.
pub open spec fn leaf_node(parent: Entity) -> Node {
    Node { parent: Some(parent), children: Seq::empty(), ignored: false, lock_focus_within: false }
}

/// The slots after `child`, which takes the next free slot, has become the
/// last child of `parent`.
pub open spec fn with_child(nodes: Seq<Node>, parent: Entity, child: Entity) -> Seq<Node> {
    let p = parent.slot() as int;
    nodes.update(p, Node { children: nodes[p].children.push(child), ..nodes[p] }).push(
        leaf_node(parent),
    )
}

/// The slots after the focus lock of `entity` has been set to `flag`. An
/// entity without a slot changes nothing.
pub open spec fn with_focus_lock(nodes: Seq<Node>, entity: Entity, flag: bool) -> Seq<Node> {
    let i = entity.slot() as int;
    if i < nodes.len() {
        nodes.update(i, Node { lock_focus_within: flag, ..nodes[i] })
    } else {
        nodes
    }
}

/// The parent that the slot of `entity` records, if there is such a slot and
/// it records one.
pub open spec fn parent_of(nodes: Seq<Node>, entity: Entity) -> Option<Entity> {
    if entity.slot() < nodes.len() {
        nodes[entity.slot() as int].parent
    } else {
        None
    }
}

/// Whether focus is confined to the subtree of `entity`.
pub open spec fn focus_locked(nodes: Seq<Node>, entity: Entity) -> bool {
    entity.slot() < nodes.len() && nodes[entity.slot() as int].lock_focus_within
}

/// The entity reached from `entity` by `steps` parent links, `None` once the
/// links have run out.
pub open spec fn ancestor_at(nodes: Seq<Node>, entity: Entity, steps: nat) -> Option<Entity>
    decreases steps,
{
    if steps == 0 {
        Some(entity)
    } else {
        match ancestor_at(nodes, entity, (steps - 1) as nat) {
            Some(below) => parent_of(nodes, below),
            None => None,
        }
    }
}

/// Whether `entity` is `ancestor` or lies below it. The null id lies below
/// nothing, not even itself.
pub open spec fn descends_from(nodes: Seq<Node>, entity: Entity, ancestor: Entity) -> bool {
    entity != Entity::spec_null() && exists|steps: nat|
        ancestor_at(nodes, entity, steps) == Some(ancestor)
}

/// Whether `entity` has a slot of its own in the tree: it carries no
/// generation and its index is in use.
pub open spec fn is_live(nodes: Seq<Node>, entity: Entity) -> bool {
    entity.0 < nodes.len()
}

/// The shape that every tree of this library has: a single root in slot 0,
/// every other slot below an earlier one, parents and children that agree,
/// and no ignored node.
pub open spec fn well_formed(nodes: Seq<Node>) -> bool {
    &&& 0 < nodes.len() <= INDEX_MASK
    &&& nodes.len() <= usize::MAX
    &&& nodes[0].parent is None
    &&& forall|i: int| 0 <= i < nodes.len() ==> !(#[trigger] nodes[i]).ignored
    &&& forall|i: int|
        0 < i < nodes.len() ==> (#[trigger] nodes[i]).parent is Some && nodes[i].parent.unwrap().0
            < i
    &&& forall|i: int, k: int|
        0 <= i < nodes.len() && 0 <= k < nodes[i].children.len() ==> {
            let c = #[trigger] nodes[i].children[k];
            i < c.0 < nodes.len() && nodes[c.0 as int].parent == Some(Entity(i as u64))
        }
    &&& forall|i: int|
        0 < i < nodes.len() ==> nodes[(#[trigger] nodes[i]).parent.unwrap().0 as int].children.contains(
            Entity(i as u64),
        )
}

/// The entities of the subtree of `root` in depth-first order, each parent
/// before its children and the children first to last. An id without a slot
/// of its own stands alone.
pub open spec fn subtree_order(nodes: Seq<Node>, root: Entity) -> Seq<Entity>
    decreases nodes.len() - root.0, 1int, 0int,
{
    if is_live(nodes, root) {
        seq![root] + forest_order(nodes, root, nodes[root.0 as int].children)
    } else {
        seq![root]
    }
}

/// The subtrees of `children`, which are children of `parent`, one after
/// another.
pub open spec fn forest_order(nodes: Seq<Node>, parent: Entity, children: Seq<Entity>) -> Seq<
    Entity,
>
    decreases nodes.len() - parent.0, 0int, children.len(),
{
    if children.len() == 0 {
        Seq::empty()
    } else {
        let first = children[0];
        let head = if parent.0 < first.0 < nodes.len() {
            subtree_order(nodes, first)
        } else {
            seq![first]
        };
        head + forest_order(nodes, parent, children.drop_first())
    }
}

/// `Tree::new`: a tree that holds the root alone.
#[verifier::external_body]
fn tree_new() -> (t: EntityTree)
    ensures
        tree_nodes(t) == seq![root_node()],
{
    EntityTree { inner: Tree::new() }
}

/// The length of the tree's `parent` vector, which is the number of slots.
#[verifier::external_body]
fn tree_len(t: &EntityTree) -> (n: usize)
    ensures
        n == tree_nodes(*t).len(),
{
    t.inner.parent.len()
}

/// `Tree::add`, for an entity that takes the next free slot. A null id is
/// refused, then a parent without a slot; otherwise the entity becomes the
/// last child of `parent`. A refusal leaves the tree as it was. The slots are
/// the entries of a vector, so their number fits a machine word.
#[verifier::external_body]
fn tree_add(t: &mut EntityTree, entity: Entity, parent: Entity) -> (r: Result<(), TreeError>)
    requires
        well_formed(tree_nodes(*old(t))),
        entity.slot() == tree_nodes(*old(t)).len(),
    ensures
        r == if entity == Entity::spec_null() || parent == Entity::spec_null() {
            Err::<(), TreeError>(TreeError::NullEntity)
        } else if parent.slot() >= tree_nodes(*old(t)).len() {
            Err(TreeError::InvalidParent)
        } else {
            Ok(())
        },
        tree_nodes(*final(t)) == if r is Ok {
            with_child(tree_nodes(*old(t)), parent, entity)
        } else {
            tree_nodes(*old(t))
        },
        tree_nodes(*final(t)).len() <= usize::MAX,
{
    match t.inner.add(entity, parent) {
        Ok(()) => Ok(()),
        Err(vizia_storage::TreeError::NoEntity) => Err(TreeError::NoEntity),
        Err(vizia_storage::TreeError::InvalidParent) => Err(TreeError::InvalidParent),
        Err(vizia_storage::TreeError::InvalidSibling) => Err(TreeError::InvalidSibling),
        Err(vizia_storage::TreeError::NullEntity) => Err(TreeError::NullEntity),
        Err(vizia_storage::TreeError::AlreadySibling) => Err(TreeError::AlreadySibling),
        Err(vizia_storage::TreeError::AlreadyFirstChild) => Err(TreeError::AlreadyFirstChild),
    }
}

/// `Tree::get_parent`: what the slot of `entity` records as its parent.
#[verifier::external_body]
fn tree_get_parent(t: &EntityTree, entity: Entity) -> (r: Option<Entity>)
    ensures
        r == parent_of(tree_nodes(*t), entity),
{
    t.inner.get_parent(entity)
}

/// `Tree::set_lock_focus_within`: sets the flag of the slot of `entity`, if
/// it has one, and touches nothing else.
#[verifier::external_body]
fn tree_set_lock_focus_within(t: &mut EntityTree, entity: Entity, flag: bool)
    ensures
        tree_nodes(*final(t)) == with_focus_lock(tree_nodes(*old(t)), entity, flag),
{
    t.inner.set_lock_focus_within(entity, flag)
}

/// The entry at `index` of the tree's `lock_focus_within` vector, `None`
/// where the vector has no such entry.
#[verifier::external_body]
fn tree_lock_flag(t: &EntityTree, index: usize) -> (r: Option<bool>)
    ensures
        r == if index < tree_nodes(*t).len() {
            Some(tree_nodes(*t)[index as int].lock_focus_within)
        } else {
            None
        },
{
    t.inner.lock_focus_within.get(index).copied()
}

/// `TreeExt::is_descendant_of`: walks from `entity` up the parent links and
/// looks for `ancestor`, starting with `entity` itself; the null id is below
/// nothing. (An ignored ancestor would be passed over; a well-formed tree has
/// none.)
#[verifier::external_body]
fn tree_is_descendant_of(t: &EntityTree, entity: Entity, ancestor: Entity) -> (r: bool)
    requires
        well_formed(tree_nodes(*t)),
    ensures
        r == descends_from(tree_nodes(*t), entity, ancestor),
{
    entity.is_descendant_of(&t.inner, ancestor)
}

/// `TreeIterator::subtree`, run to its end: the subtree of `root` in
/// depth-first order, parents before children.
#[verifier::external_body]
fn tree_subtree(t: &EntityTree, root: Entity) -> (r: Vec<Entity>)
    requires
        well_formed(tree_nodes(*t)),
        is_live(tree_nodes(*t), root) || root.slot() >= tree_nodes(*t).len(),
    ensures
        r@ == subtree_order(tree_nodes(*t), root),
{
    TreeIterator::subtree(&t.inner, root).collect()
}

impl EntityTree {
    /// The slots of the tree.
    pub open spec fn nodes(&self) -> Seq<Node> {
        tree_nodes(*self)
    }

    /// The tree has the shape that [`well_formed`] describes.
    pub open spec fn wf(&self) -> bool {
        well_formed(tree_nodes(*self))
    }

    /// A tree that holds the root alone.
    pub fn new() -> (t: EntityTree)
        ensures
            t.nodes() == seq![root_node()],
            t.wf(),
    {
        let t = tree_new();
        proof {
            lemma_root_well_formed();
        }
        t
    }

    /// The number of slots.
    pub fn len(&self) -> (n: usize)
        ensures
            n == self.nodes().len(),
    {
        tree_len(self)
    }

    /// Adds a new entity as the last child of `parent` and returns its id,
    /// which is the index of the next free slot.
    ///
    /// A null parent is refused with `NullEntity`, a parent that is not in
    /// the tree with `InvalidParent`, and a full tree with `OutOfIds`; the
    /// tree is then unchanged.
    pub fn add_child(&mut self, parent: Entity) -> (r: Result<Entity, TreeError>)
        requires
            old(self).wf(),
        ensures
            final(self).wf(),
            r == if old(self).nodes().len() >= INDEX_MASK {
                Err::<Entity, TreeError>(TreeError::OutOfIds)
            } else if parent == Entity::spec_null() {
                Err(TreeError::NullEntity)
            } else if !is_live(old(self).nodes(), parent) {
                Err(TreeError::InvalidParent)
            } else {
                Ok(Entity(old(self).nodes().len() as u64))
            },
            match r {
                Ok(child) => final(self).nodes() == with_child(old(self).nodes(), parent, child)
                    && final(self).nodes().len() == old(self).nodes().len() + 1,
                Err(_) => *final(self) == *old(self),
            },
    {
        let n = tree_len(self);
        if n as u64 >= INDEX_MASK {
            return Err(TreeError::OutOfIds);
        }
        if parent.is_null() {
            return Err(TreeError::NullEntity);
        }
        if parent.0 >= n as u64 {
            return Err(TreeError::InvalidParent);
        }
        let child = Entity::new(n as u64, 0);
        proof {
            child.lemma_plain_slot();
            parent.lemma_plain_slot();
        }
        match tree_add(self, child, parent) {
            Ok(()) => {
                proof {
                    lemma_with_child_well_formed(old(self).nodes(), parent, child);
                }
                Ok(child)
            },
            Err(e) => Err(e),
        }
    }

    /// The parent of `entity`, `None` for the root and for an id without a
    /// slot.
    pub fn get_parent(&self, entity: Entity) -> (r: Option<Entity>)
        ensures
            r == parent_of(self.nodes(), entity),
    {
        tree_get_parent(self, entity)
    }

    /// Whether `entity` is `ancestor` or lies below it.
    pub fn is_descendant_of(&self, entity: Entity, ancestor: Entity) -> (r: bool)
        requires
            self.wf(),
        ensures
            r == descends_from(self.nodes(), entity, ancestor),
    {
        tree_is_descendant_of(self, entity, ancestor)
    }

    /// The subtree of `root` in depth-first order. An id that has no slot of
    /// its own in the tree stands alone.
    pub fn subtree(&self, root: Entity) -> (r: Vec<Entity>)
        requires
            self.wf(),
        ensures
            r@ == subtree_order(self.nodes(), root),
    {
        let n = tree_len(self);
        if root.0 < n as u64 || root.index() >= n {
            tree_subtree(self, root)
        } else {
            let mut alone = Vec::new();
            alone.push(root);
            assert(alone@ =~= seq![root]);
            alone
        }
    }

    /// Confines focus to the subtree of `entity`, or lifts that again. An id
    /// without a slot changes nothing.
    pub fn set_lock_focus_within(&mut self, entity: Entity, flag: bool)
        requires
            old(self).wf(),
        ensures
            final(self).wf(),
            final(self).nodes() == with_focus_lock(old(self).nodes(), entity, flag),
    {
        tree_set_lock_focus_within(self, entity, flag);
        proof {
            lemma_focus_lock_well_formed(old(self).nodes(), entity, flag);
        }
    }

    /// Whether focus is confined to the subtree of `entity`.
    pub fn is_focus_locked(&self, entity: Entity) -> (r: bool)
        ensures
            r == focus_locked(self.nodes(), entity),
    {
        match tree_lock_flag(self, entity.index()) {
            Some(flag) => flag,
            None => false,
        }
    }
}

/// The tree that holds the root alone is well formed.
pub proof fn lemma_root_well_formed()
    ensures
        well_formed(seq![root_node()]),
{
    let nodes = seq![root_node()];
    assert(nodes.len() == 1);
    assert(nodes[0] == root_node());
    assert(nodes[0].children.len() == 0);
}

/// Adding a child in the next free slot below a live parent keeps a tree
/// well formed.
pub proof fn lemma_with_child_well_formed(nodes: Seq<Node>, parent: Entity, child: Entity)
    requires
        well_formed(nodes),
        is_live(nodes, parent),
        nodes.len() < INDEX_MASK,
        nodes.len() < usize::MAX,
        child == Entity(nodes.len() as u64),
    ensures
        well_formed(with_child(nodes, parent, child)),
{
    parent.lemma_plain_slot();
    let after = with_child(nodes, parent, child);
    let p = parent.0 as int;
    let n = nodes.len() as int;
    assert(after.len() == n + 1);
    assert(after[n] == leaf_node(parent));
    assert(after[p].children == nodes[p].children.push(child));
    assert(after[p].parent == nodes[p].parent);
    assert forall|i: int| 0 <= i < n && i != p implies #[trigger] after[i] == nodes[i] by {}
    assert forall|i: int| 0 <= i < after.len() implies !(#[trigger] after[i]).ignored by {
        if i < n {
            assert(!nodes[i].ignored);
        }
    }
    assert forall|i: int| 0 < i < after.len() implies (#[trigger] after[i]).parent is Some
        && after[i].parent.unwrap().0 < i by {
        if i < n {
            assert(nodes[i].parent is Some);
        }
    }
    assert forall|i: int, k: int|
        0 <= i < after.len() && 0 <= k < after[i].children.len() implies {
        let c = #[trigger] after[i].children[k];
        i < c.0 < after.len() && after[c.0 as int].parent == Some(Entity(i as u64))
    } by {
        if i == p {
            if k < nodes[p].children.len() {
                let c = nodes[p].children[k];
                assert(after[i].children[k] == c);
                assert(after[c.0 as int].parent == nodes[c.0 as int].parent);
            }
        } else if i < n {
            let c = nodes[i].children[k];
            assert(after[i].children[k] == c);
            assert(after[c.0 as int].parent == nodes[c.0 as int].parent);
        }
    }
    assert forall|i: int| 0 < i < after.len() implies after[(#[trigger] after[i]).parent.unwrap().0 as int].children.contains(
        Entity(i as u64),
    ) by {
        if i == n {
            assert(after[p].children[nodes[p].children.len() as int] == child);
        } else {
            let q = nodes[i].parent.unwrap().0 as int;
            assert(after[i].parent == nodes[i].parent);
            assert(nodes[q].children.contains(Entity(i as u64)));
            let k = choose|k: int|
                0 <= k < nodes[q].children.len() && nodes[q].children[k] == Entity(i as u64);
            if q == p {
                assert(after[p].children[k] == Entity(i as u64));
            } else {
                assert(after[q].children[k] == Entity(i as u64));
            }
        }
    }
}

/// Setting a focus lock keeps a tree well formed.
pub proof fn lemma_focus_lock_well_formed(nodes: Seq<Node>, entity: Entity, flag: bool)
    requires
        well_formed(nodes),
    ensures
        well_formed(with_focus_lock(nodes, entity, flag)),
{
    let after = with_focus_lock(nodes, entity, flag);
    let s = entity.slot() as int;
    if s < nodes.len() {
        assert forall|i: int| 0 <= i < nodes.len() implies (#[trigger] after[i]).parent
            == nodes[i].parent && after[i].children == nodes[i].children && after[i].ignored
            == nodes[i].ignored by {}
        assert forall|i: int| 0 < i < after.len() implies after[(#[trigger] after[i]).parent.unwrap().0 as int].children.contains(
            Entity(i as u64),
        ) by {
            let q = nodes[i].parent.unwrap().0 as int;
            assert(nodes[q].children.contains(Entity(i as u64)));
        }
    }
}

/// Setting a focus lock changes neither which ids are live nor who is below
/// whom.
pub proof fn lemma_focus_lock_live(nodes: Seq<Node>, entity: Entity, flag: bool)
    ensures
        with_focus_lock(nodes, entity, flag).len() == nodes.len(),
        forall|e: Entity| #[trigger]
            parent_of(with_focus_lock(nodes, entity, flag), e) == parent_of(nodes, e),
{
}

/// Every entity that the depth-first order of the subtree of a live `root`
/// holds is live and is `root` or lies below it.
pub proof fn lemma_subtree_descends(nodes: Seq<Node>, root: Entity, member: Entity)
    requires
        well_formed(nodes),
        is_live(nodes, root),
        subtree_order(nodes, root).contains(member),
    ensures
        is_live(nodes, member),
        descends_from(nodes, member, root),
    decreases nodes.len() - root.0, 1int, 0int,
{
    root.lemma_plain_slot();
    let order = subtree_order(nodes, root);
    let children = nodes[root.0 as int].children;
    let rest = forest_order(nodes, root, children);
    let i = choose|i: int| 0 <= i < order.len() && order[i] == member;
    if i == 0 {
        assert(ancestor_at(nodes, root, 0) == Some(root));
    } else {
        assert(rest[i - 1] == member);
        assert(rest.contains(member));
        assert forall|k: int| 0 <= k < children.len() implies root.0 < (#[trigger] children[k]).0
            < nodes.len() && nodes[children[k].0 as int].parent == Some(root) by {
            assert(nodes[root.0 as int].children[k] == children[k]);
        }
        lemma_forest_descends(nodes, root, children, member);
    }
}

/// The same for the subtrees of some children of a live `parent`, one after
/// another.
pub proof fn lemma_forest_descends(
    nodes: Seq<Node>,
    parent: Entity,
    children: Seq<Entity>,
    member: Entity,
)
    requires
        well_formed(nodes),
        is_live(nodes, parent),
        forall|k: int|
            0 <= k < children.len() ==> parent.0 < (#[trigger] children[k]).0 < nodes.len()
                && nodes[children[k].0 as int].parent == Some(parent),
        forest_order(nodes, parent, children).contains(member),
    ensures
        is_live(nodes, member),
        descends_from(nodes, member, parent),
    decreases nodes.len() - parent.0, 0int, children.len(),
{
    let order = forest_order(nodes, parent, children);
    if children.len() > 0 {
        let first = children[0];
        let head = subtree_order(nodes, first);
        let tail = forest_order(nodes, parent, children.drop_first());
        assert(order == head + tail);
        let i = choose|i: int| 0 <= i < order.len() && order[i] == member;
        if i < head.len() {
            assert(head[i] == member);
            assert(head.contains(member));
            lemma_subtree_descends(nodes, first, member);
            let steps = choose|steps: nat| ancestor_at(nodes, member, steps) == Some(first);
            first.lemma_plain_slot();
            assert(parent_of(nodes, first) == Some(parent));
            assert(ancestor_at(nodes, member, steps + 1) == Some(parent));
        } else {
            assert(tail[i - head.len()] == member);
            assert(tail.contains(member));
            assert forall|k: int| 0 <= k < children.drop_first().len() implies parent.0 < (
            #[trigger] children.drop_first()[k]).0 < nodes.len() && nodes[children.drop_first()[k].0 as int].parent
                == Some(parent) by {
                assert(children.drop_first()[k] == children[k + 1]);
            }
            lemma_forest_descends(nodes, parent, children.drop_first(), member);
        }
    }
}

} // verus!
