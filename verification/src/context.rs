//! The shared context: the tree, the views and models of its entities, the
//! current-entity cursor, focus state and dirty flags.

use vstd::prelude::*;
use std::collections::HashMap;
use crate::data::{
    first_held, first_in, lemma_put_held_appends, lemma_put_held_replaces, lemma_put_then_first,
    put_held, Model, Stored,
};
use crate::entity::Entity;
use crate::tree::{
    is_live, lemma_focus_lock_live, parent_of, root_node, with_child, with_focus_lock,
    EntityTree, TreeError,
};

verus! {

/// The bit pattern of the single-precision value 1.0.
pub const UNIT_SCALE: u32 = 0x3f80_0000;

/// The rectangle that layout has recorded for an entity. Each field is the
/// bit pattern of a single-precision number; the core stores and returns the
/// rectangle and computes nothing with it.
#[derive(Clone, Copy, Debug, PartialEq, Eq, Structural)]
pub struct BoundingBox {
    pub x: u32,
    pub y: u32,
    pub w: u32,
    pub h: u32,
}

impl BoundingBox {
    /// The empty rectangle at the origin.
    pub open spec fn empty() -> BoundingBox {
        BoundingBox { x: 0, y: 0, w: 0, h: 0 }
    }
}

impl Default for BoundingBox {
    fn default() -> (r: BoundingBox)
        ensures
            r == BoundingBox::empty(),
    {
        BoundingBox { x: 0, y: 0, w: 0, h: 0 }
    }
}

/// The state that every callback of the user interface reads and writes.
///
/// `D` is the type under which views and models are stored, see
/// [`crate::data::Stored`].
pub struct Context<D> {
    /// Which entity is whose parent.
    pub tree: EntityTree,
    /// The view of each entity, by id.
    pub views: HashMap<u64, D>,
    /// The models that each entity owns, by id.
    pub models: HashMap<u64, Vec<D>>,
    /// The entity on whose behalf the running callback acts.
    pub current: Entity,
    /// The entity that has keyboard focus.
    pub focused: Entity,
    /// The entities that had focus when a focus trap was entered, innermost
    /// last.
    pub focus_stack: Vec<Entity>,
    /// Layout has to be computed again.
    pub relayout: bool,
    /// Styles have to be resolved again.
    pub restyle: bool,
    /// The window has to be drawn again.
    pub redraw: bool,
    /// The rectangles that layout has recorded, by id.
    pub bounds: HashMap<u64, BoundingBox>,
    /// The bit pattern of the device's scale factor.
    pub scale_factor: u32,
}

impl<D> Context<D> {
    /// The tree is well formed, and views and models belong to entities of
    /// the tree.
    pub open spec fn wf(&self) -> bool {
        &&& self.tree.wf()
        &&& forall|id: u64| #[trigger] self.views@.dom().contains(id) ==> id < self.tree.nodes().len()
        &&& forall|id: u64|
            #[trigger] self.models@.dom().contains(id) ==> id < self.tree.nodes().len()
    }

    /// This context with the cursor moved to `entity`.
    pub open spec fn at(self, entity: Entity) -> Context<D> {
        Context { current: entity, ..self }
    }

    /// This context differs from `pre` in that `child` has been added as the
    /// last child of `parent`, with `view` as its view.
    pub open spec fn grown_from(
        self,
        pre: Context<D>,
        parent: Entity,
        child: Entity,
        view: D,
    ) -> bool {
        &&& self.tree.nodes() == with_child(pre.tree.nodes(), parent, child)
        &&& self.views@ == pre.views@.insert(child.0, view)
        &&& self == Context { tree: self.tree, views: self.views, ..pre }
    }

    /// The rectangle recorded for `entity`, the empty one where none is.
    pub open spec fn bounds_of(self, entity: Entity) -> BoundingBox {
        if self.bounds@.dom().contains(entity.0) {
            self.bounds@[entity.0]
        } else {
            BoundingBox::empty()
        }
    }

    /// A context whose tree holds the root alone. The cursor and the focus
    /// are on the root, nothing is dirty, and the scale factor is 1.
    pub fn new() -> (cx: Context<D>)
        ensures
            cx.wf(),
            cx.tree.nodes() == seq![root_node()],
            cx.views@ == Map::<u64, D>::empty(),
            cx.models@ == Map::<u64, Vec<D>>::empty(),
            cx.current == Entity::spec_root(),
            cx.focused == Entity::spec_root(),
            cx.focus_stack@ == Seq::<Entity>::empty(),
            !cx.relayout && !cx.restyle && !cx.redraw,
            cx.bounds@ == Map::<u64, BoundingBox>::empty(),
            cx.scale_factor == UNIT_SCALE,
    {
        Context {
            tree: EntityTree::new(),
            views: HashMap::new(),
            models: HashMap::new(),
            current: Entity::root(),
            focused: Entity::root(),
            focus_stack: Vec::new(),
            relayout: false,
            restyle: false,
            redraw: false,
            bounds: HashMap::new(),
            scale_factor: UNIT_SCALE,
        }
    }

    /// The entity on whose behalf the running callback acts.
    pub fn current(&self) -> (r: Entity)
        ensures
            r == self.current,
    {
        self.current
    }

    /// Moves the cursor to `entity`.
    pub fn set_current(&mut self, entity: Entity)
        ensures
            *final(self) == old(self).at(entity),
    {
        self.current = entity;
    }

    /// Runs `f` with the cursor on `entity` and puts the cursor back where it
    /// was, wherever `f` has left it.
    pub fn with_current<R, F: FnOnce(&mut Context<D>) -> R>(&mut self, entity: Entity, f: F) -> (r:
        R)
        requires
            forall|c: &mut Context<D>| *c == old(self).at(entity) ==> #[trigger] call_requires(f, (c, )),
        ensures
            final(self).current == old(self).current,
            exists|c: &mut Context<D>|
                *c == old(self).at(entity) && (#[trigger] call_ensures(f, (c, ), r)) && *final(self)
                    == final(c).at(old(self).current),
    {
        let previous = self.current;
        self.current = entity;
        let r = f(self);
        self.current = previous;
        r
    }

    /// The entity that has keyboard focus.
    pub fn focused(&self) -> (r: Entity)
        ensures
            r == self.focused,
    {
        self.focused
    }

    /// Gives keyboard focus to the current entity.
    pub fn focus(&mut self)
        ensures
            *final(self) == (Context { focused: old(self).current, ..*old(self) }),
    {
        self.focused = self.current;
    }

    /// Leaves the focus trap of `scope`: the subtree of `scope` no longer
    /// confines focus, and focus goes back to the entity on top of the focus
    /// stack, which is taken off the stack.
    pub fn unlock_focus(&mut self, scope: Entity)
        requires
            old(self).wf(),
            old(self).focus_stack@.len() > 0,
        ensures
            final(self).wf(),
            final(self).tree.nodes() == with_focus_lock(old(self).tree.nodes(), scope, false),
            final(self).focused == old(self).focus_stack@.last(),
            final(self).focus_stack@ == old(self).focus_stack@.drop_last(),
            *final(self) == (Context {
                tree: final(self).tree,
                focused: final(self).focused,
                focus_stack: final(self).focus_stack,
                ..*old(self)
            }),
    {
        self.tree.set_lock_focus_within(scope, false);
        proof {
            lemma_focus_lock_live(old(self).tree.nodes(), scope, false);
        }
        let previous = self.focus_stack.pop().unwrap();
        self.focused = previous;
    }

    /// The entities that had focus when a focus trap was entered, innermost
    /// last.
    pub fn focus_stack(&self) -> (r: &Vec<Entity>)
        ensures
            r@ == self.focus_stack@,
    {
        &self.focus_stack
    }

    /// Adds a new entity as the last child of `parent`, with `view` as its
    /// view, and returns its id. Where the tree refuses the parent nothing
    /// changes.
    pub fn add_view(&mut self, parent: Entity, view: D) -> (r: Result<Entity, TreeError>)
        requires
            old(self).wf(),
        ensures
            final(self).wf(),
            r == if old(self).tree.nodes().len() >= crate::entity::INDEX_MASK {
                Err::<Entity, TreeError>(TreeError::OutOfIds)
            } else if parent == Entity::spec_null() {
                Err(TreeError::NullEntity)
            } else if !is_live(old(self).tree.nodes(), parent) {
                Err(TreeError::InvalidParent)
            } else {
                Ok(Entity(old(self).tree.nodes().len() as u64))
            },
            match r {
                Ok(child) => final(self).grown_from(*old(self), parent, child, view) && final(self).tree.nodes().len()
                    == old(self).tree.nodes().len() + 1,
                Err(_) => *final(self) == *old(self),
            },
    {
        broadcast use vstd::std_specs::hash::group_hash_axioms;

        match self.tree.add_child(parent) {
            Ok(child) => {
                self.views.insert(child.0, view);
                assert(self.tree.nodes().len() == old(self).tree.nodes().len() + 1);
                assert(self.views@ =~= old(self).views@.insert(child.0, view));
                Ok(child)
            },
            Err(e) => Err(e),
        }
    }

    /// Asks for a new layout pass.
    pub fn needs_relayout(&mut self)
        ensures
            *final(self) == (Context { relayout: true, ..*old(self) }),
    {
        self.relayout = true;
    }

    /// Asks for styles to be resolved again.
    pub fn needs_restyle(&mut self)
        ensures
            *final(self) == (Context { restyle: true, ..*old(self) }),
    {
        self.restyle = true;
    }

    /// Asks for the window to be drawn again.
    pub fn needs_redraw(&mut self)
        ensures
            *final(self) == (Context { redraw: true, ..*old(self) }),
    {
        self.redraw = true;
    }

    /// The rectangle that layout has recorded for `entity`, the empty one
    /// where it has recorded none.
    pub fn get_bounds(&self, entity: Entity) -> (r: BoundingBox)
        ensures
            r == self.bounds_of(entity),
    {
        broadcast use vstd::std_specs::hash::group_hash_axioms;

        match self.bounds.get(&entity.0) {
            Some(b) => *b,
            None => BoundingBox::default(),
        }
    }

    /// Records the rectangle of `entity`.
    pub fn set_bounds(&mut self, entity: Entity, bounds: BoundingBox)
        ensures
            final(self).bounds@ == old(self).bounds@.insert(entity.0, bounds),
            *final(self) == (Context { bounds: final(self).bounds, ..*old(self) }),
            final(self).bounds_of(entity) == bounds,
    {
        broadcast use vstd::std_specs::hash::group_hash_axioms;

        self.bounds.insert(entity.0, bounds);
    }

    /// The bit pattern of the device's scale factor.
    pub fn scale_factor(&self) -> (r: u32)
        ensures
            r == self.scale_factor,
    {
        self.scale_factor
    }

    /// Records the device's scale factor, as a bit pattern.
    pub fn set_scale_factor(&mut self, bits: u32)
        ensures
            *final(self) == (Context { scale_factor: bits, ..*old(self) }),
    {
        self.scale_factor = bits;
    }

    /// The models that `entity` owns, none where it owns no store.
    pub open spec fn store_of(self, entity: Entity) -> Seq<D> {
        if self.models@.dom().contains(entity.0) {
            self.models@[entity.0]@
        } else {
            Seq::empty()
        }
    }

    /// The value of type `T` that `entity` itself offers: the first such
    /// model that it owns, else its view where that is of type `T`.
    pub open spec fn data_at<T: Stored<D>>(self, entity: Entity) -> Option<T> {
        match first_held::<D, T>(self.store_of(entity)) {
            Some(value) => Some(value),
            None => if self.views@.dom().contains(entity.0) {
                T::held_in(self.views@[entity.0])
            } else {
                None
            },
        }
    }

    /// The value of type `T` that is visible from `entity`: what the entity
    /// itself offers, else what the nearest ancestor offers that offers one.
    pub open spec fn find_data<T: Stored<D>>(self, entity: Entity) -> Option<T>
        decreases entity.slot(),
    {
        match self.data_at::<T>(entity) {
            Some(value) => Some(value),
            None => match parent_of(self.tree.nodes(), entity) {
                Some(parent) => if parent.slot() < entity.slot() {
                    self.find_data::<T>(parent)
                } else {
                    None
                },
                None => None,
            },
        }
    }

    /// Looks up the value of type `T` that is visible from `entity`: first
    /// among the models that the entity owns, then in its view, then in the
    /// same way at its parent, and so on up to the root.
    pub fn data<T: Stored<D>>(&self, entity: Entity) -> (r: Option<&T>)
        ensures
            r.is_some() == self.find_data::<T>(entity).is_some(),
            r.is_some() ==> *r.unwrap() == self.find_data::<T>(entity).unwrap(),
    {
        broadcast use vstd::std_specs::hash::group_hash_axioms;

        let mut at = entity;
        loop
            invariant
                self.find_data::<T>(entity) == self.find_data::<T>(at),
            decreases at.slot(),
        {
            match self.models.get(&at.0) {
                Some(store) => {
                    match first_in::<D, T>(store) {
                        Some(value) => {
                            return Some(value);
                        },
                        None => {},
                    }
                },
                None => {},
            }
            match self.views.get(&at.0) {
                Some(view) => {
                    match T::downcast_ref(view) {
                        Some(value) => {
                            return Some(value);
                        },
                        None => {},
                    }
                },
                None => {},
            }
            match self.tree.get_parent(at) {
                Some(parent) => {
                    if parent.index() < at.index() {
                        at = parent;
                    } else {
                        return None;
                    }
                },
                None => {
                    return None;
                },
            }
        }
    }

    /// Gives `entity` the model `model`. It takes the place of the model of
    /// type `T` that the entity owns already, if it owns one, so that an
    /// entity never owns two models of one type. An entity that is not in the
    /// tree gets no model, and the result is `false`.
    pub fn add_model<T: Stored<D>>(&mut self, entity: Entity, model: T) -> (added: bool)
        requires
            old(self).wf(),
        ensures
            final(self).wf(),
            added == is_live(old(self).tree.nodes(), entity),
            !added ==> *final(self) == *old(self),
            *final(self) == (Context { models: final(self).models, ..*old(self) }),
            added ==> final(self).models@ == old(self).models@.insert(
                entity.0,
                final(self).models@[entity.0],
            ) && final(self).store_of(entity) == put_held::<D, T>(
                old(self).store_of(entity),
                model.erased(),
            ) && final(self).data_at::<T>(entity) == Some(model),
    {
        broadcast use vstd::std_specs::hash::group_hash_axioms;

        let n = self.tree.len();
        if entity.0 >= n as u64 {
            return false;
        }
        let data = model.erase();
        let mut store = match self.models.remove(&entity.0) {
            Some(store) => store,
            None => Vec::new(),
        };
        assert(store@ == old(self).store_of(entity));
        let mut i: usize = 0;
        let mut found = false;
        while i < store.len() && !found
            invariant
                0 <= i <= store.len(),
                forall|j: int| 0 <= j < i ==> T::held_in(#[trigger] store@[j]) is None,
                found ==> i < store.len() && T::held_in(store@[i as int]) is Some,
            decreases store.len() - i + if found { 0int } else { 1int },
        {
            if T::downcast_ref(&store[i]).is_some() {
                found = true;
            } else {
                i = i + 1;
            }
        }
        proof {
            lemma_put_then_first::<D, T>(store@, data, model);
            if found {
                lemma_put_held_replaces::<D, T>(store@, i as int, data);
            } else {
                lemma_put_held_appends::<D, T>(store@, data);
            }
        }
        if found {
            store[i] = data;
        } else {
            store.push(data);
        }
        self.models.insert(entity.0, store);
        assert(self.models@ =~= old(self).models@.insert(entity.0, self.models@[entity.0]));
        true
    }

    /// Builds a view below the current entity: adds a new entity with `view`
    /// as its view, then runs `content` with the cursor on the new entity,
    /// and puts the cursor back. Where the tree refuses the current entity as
    /// a parent, nothing changes and `content` does not run.
    pub fn build<F: FnOnce(&mut Context<D>)>(&mut self, view: D, content: F) -> (r: Result<
        Entity,
        TreeError,
    >)
        requires
            old(self).wf(),
            forall|c: &mut Context<D>| c.wf() ==> #[trigger] call_requires(content, (c, )),
        ensures
            r == if old(self).tree.nodes().len() >= crate::entity::INDEX_MASK {
                Err::<Entity, TreeError>(TreeError::OutOfIds)
            } else if old(self).current == Entity::spec_null() {
                Err(TreeError::NullEntity)
            } else if !is_live(old(self).tree.nodes(), old(self).current) {
                Err(TreeError::InvalidParent)
            } else {
                Ok(Entity(old(self).tree.nodes().len() as u64))
            },
            match r {
                Ok(child) => exists|c: &mut Context<D>|
                    c.current == child && c.at(old(self).current).grown_from(
                        *old(self),
                        old(self).current,
                        child,
                        view,
                    ) && c.wf() && (#[trigger] call_ensures(content, (c, ), ())) && *final(self)
                        == final(c).at(old(self).current),
                Err(_) => *final(self) == *old(self),
            },
    {
        let parent = self.current;
        match self.add_view(parent, view) {
            Ok(child) => {
                self.current = child;
                content(self);
                self.current = parent;
                Ok(child)
            },
            Err(e) => Err(e),
        }
    }

    /// Whether the walk from `from` up the tree comes by the entity with the
    /// id `id`, `from` itself included.
    pub open spec fn reaches(self, from: Entity, id: u64) -> bool
        decreases from.slot(),
    {
        from.0 == id || match parent_of(self.tree.nodes(), from) {
            Some(parent) => parent.slot() < from.slot() && self.reaches(parent, id),
            None => false,
        }
    }

    /// Sends `event` up the tree: every model that the current entity or one
    /// of its ancestors owns handles it, and nothing else changes.
    pub fn emit<E>(&mut self, event: &E) where D: Model<E>
        ensures
            *final(self) == (Context { models: final(self).models, ..*old(self) }),
            final(self).models@.dom() == old(self).models@.dom(),
            forall|id: u64| #[trigger]
                final(self).models@.dom().contains(id) ==> final(self).models@[id]@ == if old(
                    self,
                ).reaches(old(self).current, id) {
                    old(self).models@[id]@.map_values(|model: D| model.after(*event))
                } else {
                    old(self).models@[id]@
                },
            old(self).wf() ==> final(self).wf(),
    {
        broadcast use vstd::std_specs::hash::group_hash_axioms;

        let ghost before = *self;
        let ghost mut done: Set<u64> = Set::empty();
        let mut at = self.current;
        loop
            invariant
                before == *old(self),
                *self == (Context { models: self.models, ..before }),
                self.models@.dom() == before.models@.dom(),
                forall|id: u64|
                    #[trigger] before.reaches(before.current, id) <==> done.contains(id)
                        || before.reaches(at, id),
                forall|id: u64| #[trigger] done.contains(id) ==> Entity(id).slot() > at.slot(),
                forall|id: u64| #[trigger]
                    self.models@.dom().contains(id) ==> self.models@[id]@ == if done.contains(id) {
                        before.models@[id]@.map_values(|model: D| model.after(*event))
                    } else {
                        before.models@[id]@
                    },
            decreases at.slot(),
        {
            let ghost entered = *self;
            assert(!done.contains(at.0));
            match self.models.remove(&at.0) {
                Some(mut store) => {
                    let ghost unhandled = store@;
                    assert(unhandled == before.models@[at.0]@);
                    let mut i: usize = 0;
                    while i < store.len()
                        invariant
                            0 <= i <= store.len(),
                            store@.len() == unhandled.len(),
                            forall|j: int|
                                0 <= j < i ==> #[trigger] store@[j] == unhandled[j].after(*event),
                            forall|j: int| i <= j < store.len() ==> #[trigger] store@[j] == unhandled[j],
                        decreases store.len() - i,
                    {
                        store[i].event(event);
                        i = i + 1;
                    }
                    assert(store@ =~= unhandled.map_values(|model: D| model.after(*event)));
                    self.models.insert(at.0, store);
                    assert(self.models@.dom() =~= before.models@.dom());
                    assert(self.models@[at.0]@ == before.models@[at.0]@.map_values(
                        |model: D| model.after(*event),
                    ));
                    assert forall|id: u64| id != at.0 && #[trigger] self.models@.dom().contains(
                        id,
                    ) implies self.models@[id] == entered.models@[id] by {}
                },
                None => {
                    assert(self.models@ =~= entered.models@);
                },
            }
            let ghost visited = done.insert(at.0);
            proof {
                assert forall|id: u64| #[trigger]
                    self.models@.dom().contains(id) implies self.models@[id]@ == if visited.contains(
                    id,
                ) {
                    before.models@[id]@.map_values(|model: D| model.after(*event))
                } else {
                    before.models@[id]@
                } by {
                    if id != at.0 {
                        assert(entered.models@.dom().contains(id));
                        assert(self.models@[id] == entered.models@[id]);
                    }
                }
            }
            match self.tree.get_parent(at) {
                Some(parent) => {
                    if parent.index() < at.index() {
                        proof {
                            assert forall|id: u64| #[trigger]
                                before.reaches(before.current, id) <==> visited.contains(id)
                                    || before.reaches(parent, id) by {
                                assert(before.reaches(at, id) <==> at.0 == id || before.reaches(
                                    parent,
                                    id,
                                ));
                            }
                            assert forall|id: u64| #[trigger] visited.contains(id) implies Entity(
                                id,
                            ).slot() > parent.slot() by {}
                            done = visited;
                        }
                        at = parent;
                    } else {
                        proof {
                            assert forall|id: u64| #[trigger]
                                before.reaches(before.current, id) <==> visited.contains(id) by {
                                assert(before.reaches(at, id) <==> at.0 == id);
                            }
                        }
                        return ;
                    }
                },
                None => {
                    proof {
                        assert forall|id: u64| #[trigger]
                            before.reaches(before.current, id) <==> visited.contains(id) by {
                            assert(before.reaches(at, id) <==> at.0 == id);
                        }
                    }
                    return ;
                },
            }
        }
    }
}

} // verus!
