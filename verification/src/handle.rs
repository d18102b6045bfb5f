//! Handles: typed tokens for one entity, through which a callback changes or
//! queries the view that it is building.

use vstd::prelude::*;
use std::marker::PhantomData;
use crate::binding::{projected, Binding};
use crate::context::{BoundingBox, Context};
use crate::data::{Data, Lens, Stored};
use crate::entity::Entity;
use crate::tree::{
    descends_from, is_live, lemma_focus_lock_live, lemma_subtree_descends, parent_of,
    subtree_order, with_focus_lock, EntityTree,
};

verus! {

/// A handle to a view which has been built into the tree.
///
/// The handle owns nothing: it names an entity and the type `V` that the
/// entity's view is expected to have. Every operation looks the entity up in
/// the context that it is given, and an entity or a view type that is no
/// longer there makes the operation do nothing.
pub struct Handle<V> {
    pub entity: Entity,
    pub p: PhantomData<V>,
}

/// `order[i]` is the first entity of `order` that `navigable` accepts within
/// the whole tree: it rejects all those before it.
pub open spec fn first_navigable_at<P: Fn(&EntityTree, Entity, Entity) -> bool>(
    navigable: P,
    tree: EntityTree,
    order: Seq<Entity>,
    i: int,
) -> bool {
    &&& 0 <= i < order.len()
    &&& call_ensures(navigable, (&tree, order[i], Entity::spec_root()), true)
    &&& forall|j: int|
        0 <= j < i ==> #[trigger] call_ensures(
            navigable,
            (&tree, order[j], Entity::spec_root()),
            false,
        )
}

/// `navigable` rejects every entity of `order`.
pub open spec fn none_navigable<P: Fn(&EntityTree, Entity, Entity) -> bool>(
    navigable: P,
    tree: EntityTree,
    order: Seq<Entity>,
) -> bool {
    forall|j: int|
        0 <= j < order.len() ==> #[trigger] call_ensures(
            navigable,
            (&tree, order[j], Entity::spec_root()),
            false,
        )
}

impl<V> Handle<V> {
    /// A handle to the view of `entity`.
    pub fn new(entity: Entity) -> (r: Handle<V>)
        ensures
            r.entity == entity,
    {
        Handle { entity, p: PhantomData }
    }

    /// Returns the [`Entity`] id of the view.
    pub fn entity(&self) -> (r: Entity)
        ensures
            r == self.entity,
    {
        self.entity
    }

    /// Returns the parent of the view, or the root where the view has none.
    pub fn parent<D>(&self, cx: &Context<D>) -> (r: Entity)
        ensures
            r == match parent_of(cx.tree.nodes(), self.entity) {
                Some(parent) => parent,
                None => Entity::spec_root(),
            },
    {
        match cx.tree.get_parent(self.entity) {
            Some(parent) => parent,
            None => Entity::root(),
        }
    }

    /// Marks the view as being ignored. The tree keeps no such mark for a
    /// view, so the handle comes back as it was.
    pub fn ignore(self) -> (r: Self)
        ensures
            r == self,
    {
        self
    }

    /// Stops the user from tabbing out of the view's subtree, which is useful
    /// for modal dialogs.
    ///
    /// The subtree is marked as a focus trap and the focused entity is pushed
    /// onto the focus stack. If focus is outside the subtree, it moves to the
    /// first entity of the subtree, in depth-first order, that `navigable`
    /// accepts; if it accepts none, the pushed entity is popped again and
    /// keeps the focus. `navigable` is asked with the tree, the entity and the
    /// root as the boundary.
    pub fn lock_focus_to_within<D, P: Fn(&EntityTree, Entity, Entity) -> bool>(
        self,
        cx: &mut Context<D>,
        navigable: P,
    ) -> (r: Self)
        requires
            old(cx).wf(),
            forall|tree: &EntityTree, node: Entity, boundary: Entity|
                tree.wf() ==> #[trigger] call_requires(navigable, (tree, node, boundary)),
        ensures
            r == self,
            final(cx).wf(),
            final(cx).tree.nodes() == with_focus_lock(old(cx).tree.nodes(), self.entity, true),
            *final(cx) == (Context {
                tree: final(cx).tree,
                focused: final(cx).focused,
                focus_stack: final(cx).focus_stack,
                ..*old(cx)
            }),
            ({
                let order = subtree_order(final(cx).tree.nodes(), self.entity);
                let pushed = old(cx).focus_stack@.push(old(cx).focused);
                if descends_from(final(cx).tree.nodes(), old(cx).focused, self.entity) {
                    final(cx).focused == old(cx).focused && final(cx).focus_stack@ == pushed
                } else {
                    ||| none_navigable(navigable, final(cx).tree, order) && final(cx).focused
                        == old(cx).focused && final(cx).focus_stack@ == old(cx).focus_stack@
                    ||| final(cx).focus_stack@ == pushed && exists|i: int|
                        first_navigable_at(navigable, final(cx).tree, order, i) && final(cx).focused
                            == order[i]
                }
            }),
            is_live(old(cx).tree.nodes(), self.entity) ==> descends_from(
                final(cx).tree.nodes(),
                final(cx).focused,
                self.entity,
            ) || (final(cx).focused == old(cx).focused && final(cx).focus_stack@ == old(cx).focus_stack@),
    {
        cx.tree.set_lock_focus_within(self.entity, true);
        proof {
            lemma_focus_lock_live(old(cx).tree.nodes(), self.entity, true);
        }
        cx.focus_stack.push(cx.focused);
        if !cx.tree.is_descendant_of(cx.focused, self.entity) {
            let order = cx.tree.subtree(self.entity);
            let mut found: Option<Entity> = None;
            let mut i: usize = 0;
            while i < order.len() && found.is_none()
                invariant
                    0 <= i <= order.len(),
                    cx.tree.wf(),
                    forall|tree: &EntityTree, node: Entity, boundary: Entity|
                        tree.wf() ==> #[trigger] call_requires(navigable, (tree, node, boundary)),
                    forall|j: int|
                        0 <= j < i ==> #[trigger] call_ensures(
                            navigable,
                            (&cx.tree, order@[j], Entity::spec_root()),
                            false,
                        ),
                    match found {
                        Some(node) => i < order.len() && node == order@[i as int] && call_ensures(
                            navigable,
                            (&cx.tree, node, Entity::spec_root()),
                            true,
                        ),
                        None => true,
                    },
                decreases order.len() - i + if found is None { 1int } else { 0int },
            {
                let node = order[i];
                if navigable(&cx.tree, node, Entity::root()) {
                    found = Some(node);
                } else {
                    i = i + 1;
                }
            }
            let new_focus = match found {
                Some(node) => {
                    assert(first_navigable_at(navigable, cx.tree, order@, i as int));
                    proof {
                        if is_live(cx.tree.nodes(), self.entity) {
                            assert(order@.contains(node));
                            lemma_subtree_descends(cx.tree.nodes(), self.entity, node);
                        }
                    }
                    node
                },
                None => {
                    assert(none_navigable(navigable, cx.tree, order@));
                    let popped = cx.focus_stack.pop();
                    assert(cx.focus_stack@ =~= old(cx).focus_stack@);
                    popped.unwrap()
                },
            };
            let give_focus = |c: &mut Context<D>|
                ensures
                    *final(c) == (Context { focused: old(c).current, ..*old(c) }),
                { c.focus() };
            cx.with_current(new_focus, give_focus);
        }
        self
    }

    /// Changes the view behind the handle.
    ///
    /// `f` is run on the view if the entity has one and it is of type `V`.
    /// Otherwise nothing happens.
    pub fn modify<D, F: FnOnce(&mut V)>(self, cx: &mut Context<D>, f: F) -> (r: Self) where
        V: Stored<D>,

        requires
            forall|view: &mut V|
                old(cx).views@.dom().contains(self.entity.0) && V::held_in(
                    old(cx).views@[self.entity.0],
                ) == Some(*view) ==> #[trigger] call_requires(f, (view, )),
        ensures
            r == self,
            *final(cx) == (Context { views: final(cx).views, ..*old(cx) }),
            old(cx).wf() ==> final(cx).wf(),
            Self::holds_view(*old(cx), self.entity) ==> exists|view: &mut V|
                V::held_in(old(cx).views@[self.entity.0]) == Some(*view) && (#[trigger] call_ensures(
                    f,
                    (view, ),
                    (),
                )) && final(cx).views@ == old(cx).views@.insert(
                    self.entity.0,
                    V::erased(*final(view)),
                ) && V::held_in(final(cx).views@[self.entity.0]) == Some(*final(view)),
            !Self::holds_view(*old(cx), self.entity) ==> *final(cx) == *old(cx),
    {
        broadcast use vstd::std_specs::hash::group_hash_axioms;

        let matches = match cx.views.get(&self.entity.0) {
            Some(data) => V::downcast_ref(data).is_some(),
            None => false,
        };
        if matches {
            match cx.views.remove(&self.entity.0) {
                Some(data) => {
                    match V::downcast(data) {
                        Ok(mut view) => {
                            f(&mut view);
                            let stored = view.erase();
                            cx.views.insert(self.entity.0, stored);
                            assert(cx.views@ =~= old(cx).views@.insert(self.entity.0, stored));
                        },
                        Err(back) => {
                            cx.views.insert(self.entity.0, back);
                        },
                    }
                },
                None => {},
            }
        }
        self
    }

    /// Whether `entity` has a view in `cx` and that view is of type `V`.
    pub open spec fn holds_view<D>(cx: Context<D>, entity: Entity) -> bool where V: Stored<D> {
        cx.views@.dom().contains(entity.0) && V::held_in(cx.views@[entity.0]) is Some
    }

    /// Callback which is run when the view is built or rebuilt: `callback`
    /// runs at once, with the cursor of the context on this view; afterwards
    /// the cursor is back where it was.
    pub fn on_build<D, F: Fn(&mut Context<D>)>(self, cx: &mut Context<D>, callback: F) -> (r:
        Self)
        requires
            forall|c: &mut Context<D>|
                *c == old(cx).at(self.entity) ==> #[trigger] call_requires(callback, (c, )),
        ensures
            r == self,
            final(cx).current == old(cx).current,
            exists|c: &mut Context<D>|
                *c == old(cx).at(self.entity) && (#[trigger] call_ensures(callback, (c, ), ()))
                    && *final(cx) == final(c).at(old(cx).current),
    {
        cx.with_current(self.entity, callback);
        self
    }

    /// Binds the view to the value under `lens`: `closure` runs at once and
    /// then at every [`Binding::update`] that finds the value changed, each
    /// time with a new handle to this view and the value. The binding comes
    /// back with the handle, for the caller to keep and update.
    pub fn bind<D, L, F>(self, cx: &mut Context<D>, lens: L, closure: F) -> (r: (
        Self,
        Binding<V, L, F>,
    )) where
        L: Lens,
        L::Source: Stored<D>,
        L::Target: Data,
        F: Fn(&mut Context<D>, Handle<V>, &L::Target),

        requires
            forall|c: &mut Context<D>, handle: Handle<V>, value: &L::Target|
                *c == old(cx).at(self.entity) && handle.entity == self.entity && Some(*value)
                    == projected(*old(cx), lens, self.entity) ==> #[trigger] call_requires(
                    closure,
                    (c, handle, value),
                ),
        ensures
            r.0 == self,
            r.1.entity == self.entity,
            r.1.lens == lens,
            r.1.closure == closure,
            r.1.observed == projected(*old(cx), lens, self.entity),
            match r.1.observed {
                Some(value) => exists|c: &mut Context<D>, handle: Handle<V>|
                    *c == old(cx).at(self.entity) && handle.entity == self.entity && (
                    #[trigger] call_ensures(closure, (c, handle, &value), ())) && *final(cx)
                        == final(c).at(old(cx).current),
                None => *final(cx) == *old(cx),
            },
    {
        let entity = self.entity();
        let binding = Binding::new(cx, entity, lens, closure);
        (self, binding)
    }

    /// Marks the view as needing a relayout.
    pub fn needs_relayout<D>(&mut self, cx: &mut Context<D>)
        ensures
            *final(self) == *old(self),
            *final(cx) == (Context { relayout: true, ..*old(cx) }),
    {
        cx.needs_relayout();
    }

    /// Marks the view as needing a restyle.
    pub fn needs_restyle<D>(&mut self, cx: &mut Context<D>)
        ensures
            *final(self) == *old(self),
            *final(cx) == (Context { restyle: true, ..*old(cx) }),
    {
        cx.needs_restyle();
    }

    /// Marks the view as needing a redraw.
    pub fn needs_redraw<D>(&mut self, cx: &mut Context<D>)
        ensures
            *final(self) == *old(self),
            *final(cx) == (Context { redraw: true, ..*old(cx) }),
    {
        cx.needs_redraw();
    }

    /// Returns the bounding box of the view, the empty box where layout has
    /// recorded none.
    pub fn bounds<D>(&self, cx: &Context<D>) -> (r: BoundingBox)
        ensures
            r == cx.bounds_of(self.entity),
    {
        cx.get_bounds(self.entity)
    }

    /// Returns the scale factor of the device, as the bit pattern of a
    /// single-precision number.
    pub fn scale_factor<D>(&self, cx: &Context<D>) -> (r: u32)
        ensures
            r == cx.scale_factor,
    {
        cx.scale_factor()
    }
}

} // verus!
