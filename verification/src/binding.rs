//! Bindings: an observer that pairs a lens with a rebuild closure and runs
//! the closure again whenever the value under the lens has changed.

use vstd::prelude::*;
use std::marker::PhantomData;
use crate::context::Context;
use crate::data::{Data, Lens, Stored};
use crate::entity::Entity;
use crate::handle::Handle;

verus! {

/// A lens, the closure that rebuilds what depends on the value under the
/// lens, the entity that the closure rebuilds, and the value that the
/// closure has last been run with.
pub struct Binding<V, L: Lens, F> {
    /// The entity whose view the closure rebuilds.
    pub entity: Entity,
    /// The lens.
    pub lens: L,
    /// The rebuild closure.
    pub closure: F,
    /// The value that the closure has last been run with, `None` as long as
    /// no model for the lens has been found.
    pub observed: Option<L::Target>,
    pub p: PhantomData<V>,
}

/// The value under `lens` that is visible from `entity`, `None` where no
/// model of the lens's source type is.
pub open spec fn projected<D, L: Lens>(cx: Context<D>, lens: L, entity: Entity) -> Option<
    L::Target,
> where L::Source: Stored<D> {
    match cx.find_data::<L::Source>(entity) {
        Some(source) => Some(lens.project(source)),
        None => None,
    }
}

impl<V, L: Lens, F> Binding<V, L, F> {
    /// Binds `closure` to the value under `lens` that is visible from
    /// `entity`. Where there is such a value, the closure runs once with it,
    /// at once. Where there is none, the closure does not run before
    /// [`Binding::update`] finds one.
    pub fn new<D>(cx: &mut Context<D>, entity: Entity, lens: L, closure: F) -> (r: Self) where
        L::Source: Stored<D>,
        L::Target: Data,
        F: Fn(&mut Context<D>, Handle<V>, &L::Target),

        requires
            forall|c: &mut Context<D>, handle: Handle<V>, value: &L::Target|
                *c == old(cx).at(entity) && handle.entity == entity && Some(*value) == projected(
                    *old(cx),
                    lens,
                    entity,
                ) ==> #[trigger] call_requires(closure, (c, handle, value)),
        ensures
            r.entity == entity,
            r.lens == lens,
            r.closure == closure,
            r.observed == projected(*old(cx), lens, entity),
            match r.observed {
                Some(value) => exists|c: &mut Context<D>, handle: Handle<V>|
                    *c == old(cx).at(entity) && handle.entity == entity && (#[trigger] call_ensures(
                        closure,
                        (c, handle, &value),
                        (),
                    )) && *final(cx) == final(c).at(old(cx).current),
                None => *final(cx) == *old(cx),
            },
    {
        let value = match cx.data::<L::Source>(entity) {
            Some(source) => Some(lens.view(source)),
            None => None,
        };
        match &value {
            Some(fresh) => {
                let previous = cx.current;
                cx.current = entity;
                closure(cx, Handle::new(entity), fresh);
                cx.current = previous;
            },
            None => {},
        }
        Binding { entity, lens, closure, observed: value, p: PhantomData }
    }

    /// Looks at the value under the lens again. If it differs from the value
    /// that the closure has last been run with, the closure runs once with
    /// the new value and the result is `true`. If it is equal, or no model
    /// for the lens is visible any more, nothing happens and the result is
    /// `false`.
    pub fn update<D>(&mut self, cx: &mut Context<D>) -> (rebuilds: bool) where
        L::Source: Stored<D>,
        L::Target: Data,
        F: Fn(&mut Context<D>, Handle<V>, &L::Target),

        requires
            forall|c: &mut Context<D>, handle: Handle<V>, value: &L::Target|
                *c == old(cx).at(old(self).entity) && handle.entity == old(self).entity && Some(
                    *value,
                ) == projected(*old(cx), old(self).lens, old(self).entity) && Self::changed(
                    *old(self),
                    *old(cx),
                ) ==> #[trigger] call_requires(old(self).closure, (c, handle, value)),
        ensures
            final(self).entity == old(self).entity,
            final(self).lens == old(self).lens,
            final(self).closure == old(self).closure,
            rebuilds == Self::changed(*old(self), *old(cx)),
            !rebuilds ==> *final(cx) == *old(cx) && *final(self) == *old(self),
            rebuilds ==> final(self).observed == projected(
                *old(cx),
                old(self).lens,
                old(self).entity,
            ) && exists|c: &mut Context<D>, handle: Handle<V>|
                *c == old(cx).at(old(self).entity) && handle.entity == old(self).entity && (
                #[trigger] call_ensures(
                    old(self).closure,
                    (c, handle, &final(self).observed.unwrap()),
                    (),
                )) && *final(cx) == final(c).at(old(cx).current),
    {
        let value = match cx.data::<L::Source>(self.entity) {
            Some(source) => Some(self.lens.view(source)),
            None => None,
        };
        match value {
            Some(fresh) => {
                let unchanged = match &self.observed {
                    Some(seen) => seen.same(&fresh),
                    None => false,
                };
                if unchanged {
                    false
                } else {
                    let previous = cx.current;
                    cx.current = self.entity;
                    (self.closure)(cx, Handle::new(self.entity), &fresh);
                    cx.current = previous;
                    self.observed = Some(fresh);
                    true
                }
            },
            None => false,
        }
    }

    /// Whether the value under the lens of `binding` in `cx` is there and
    /// differs from the value that the closure has last been run with.
    pub open spec fn changed<D>(binding: Self, cx: Context<D>) -> bool where L::Source: Stored<D> {
        match projected(cx, binding.lens, binding.entity) {
            Some(value) => binding.observed != Some(value),
            None => false,
        }
    }
}

} // verus!
