//! How concrete views and models enter and leave the context's type-erased
//! storage, and how values are compared for change.

use vstd::prelude::*;

verus! {

/// A concrete view or model type that the erased storage type `D` can hold.
///
/// `D` is the one type under which the context stores every view and model
/// of an application, typically an enum with a variant per concrete type.
pub trait Stored<D>: Sized {
    /// The value of this type that `data` holds, `None` where it holds a
    /// value of another type.
    spec fn held_in(data: D) -> Option<Self>;

    /// The value as the storage holds it.
    spec fn erased(self) -> D;

    /// Wraps the value for storage.
    fn erase(self) -> (data: D)
        ensures
            data == self.erased(),
            Self::held_in(data) == Some(self),
    ;

    /// Takes the value out of storage, or hands the storage back where it
    /// holds another type.
    fn downcast(data: D) -> (r: Result<Self, D>)
        ensures
            r == match Self::held_in(data) {
                Some(value) => Ok::<Self, D>(value),
                None => Err(data),
            },
    ;

    /// Looks at the stored value without taking it out.
    fn downcast_ref(data: &D) -> (r: Option<&Self>)
        ensures
            r.is_some() == Self::held_in(*data).is_some(),
            r.is_some() ==> *r.unwrap() == Self::held_in(*data).unwrap(),
    ;
}

/// Storage of a single type holds that type and nothing else: a context
/// whose views are all of one type needs no wrapping.
impl<T> Stored<T> for T {
    open spec fn held_in(data: T) -> Option<T> {
        Some(data)
    }

    open spec fn erased(self) -> T {
        self
    }

    fn erase(self) -> (data: T) {
        self
    }

    fn downcast(data: T) -> (r: Result<T, T>) {
        Ok(data)
    }

    fn downcast_ref(data: &T) -> (r: Option<&T>) {
        Some(data)
    }
}

/// The first value of type `T` that a store of models holds, if it holds
/// one.
pub open spec fn first_held<D, T: Stored<D>>(store: Seq<D>) -> Option<T>
    decreases store.len(),
{
    if store.len() == 0 {
        None
    } else {
        match T::held_in(store[0]) {
            Some(value) => Some(value),
            None => first_held::<D, T>(store.drop_first()),
        }
    }
}

/// The store after `data` has taken the place of the first value of type `T`,
/// or has been added at the end where the store held no such value.
pub open spec fn put_held<D, T: Stored<D>>(store: Seq<D>, data: D) -> Seq<D>
    decreases store.len(),
{
    if store.len() == 0 {
        seq![data]
    } else if T::held_in(store[0]) is Some {
        store.update(0, data)
    } else {
        seq![store[0]] + put_held::<D, T>(store.drop_first(), data)
    }
}

/// A store whose first `n` values are not of type `T` holds what its rest
/// holds.
pub proof fn lemma_first_held_skip<D, T: Stored<D>>(store: Seq<D>, n: int)
    requires
        0 <= n <= store.len(),
        forall|j: int| 0 <= j < n ==> T::held_in(#[trigger] store[j]) is None,
    ensures
        first_held::<D, T>(store) == first_held::<D, T>(store.skip(n)),
    decreases n,
{
    if n == 0 {
        assert(store.skip(0) =~= store);
    } else {
        let rest = store.drop_first();
        assert forall|j: int| 0 <= j < n - 1 implies T::held_in(#[trigger] rest[j]) is None by {
            assert(rest[j] == store[j + 1]);
        }
        lemma_first_held_skip::<D, T>(rest, n - 1);
        assert(rest.skip(n - 1) =~= store.skip(n));
    }
}

/// Where the value at `n` is the first of type `T`, putting replaces it.
pub proof fn lemma_put_held_replaces<D, T: Stored<D>>(store: Seq<D>, n: int, data: D)
    requires
        0 <= n < store.len(),
        forall|j: int| 0 <= j < n ==> T::held_in(#[trigger] store[j]) is None,
        T::held_in(store[n]) is Some,
    ensures
        put_held::<D, T>(store, data) == store.update(n, data),
    decreases n,
{
    if n > 0 {
        let rest = store.drop_first();
        assert forall|j: int| 0 <= j < n - 1 implies T::held_in(#[trigger] rest[j]) is None by {
            assert(rest[j] == store[j + 1]);
        }
        assert(rest[n - 1] == store[n]);
        lemma_put_held_replaces::<D, T>(rest, n - 1, data);
        assert(seq![store[0]] + rest.update(n - 1, data) =~= store.update(n, data));
    }
}

/// Where no value is of type `T`, putting adds at the end.
pub proof fn lemma_put_held_appends<D, T: Stored<D>>(store: Seq<D>, data: D)
    requires
        forall|j: int| 0 <= j < store.len() ==> T::held_in(#[trigger] store[j]) is None,
    ensures
        put_held::<D, T>(store, data) == store.push(data),
    decreases store.len(),
{
    if store.len() == 0 {
        assert(seq![data] =~= store.push(data));
    } else {
        let rest = store.drop_first();
        assert forall|j: int| 0 <= j < rest.len() implies T::held_in(#[trigger] rest[j]) is None by {
            assert(rest[j] == store[j + 1]);
        }
        lemma_put_held_appends::<D, T>(rest, data);
        assert(seq![store[0]] + rest.push(data) =~= store.push(data));
    }
}

/// After a value of type `T` has been put into a store, it is the first of
/// its type there.
pub proof fn lemma_put_then_first<D, T: Stored<D>>(store: Seq<D>, data: D, value: T)
    requires
        T::held_in(data) == Some(value),
    ensures
        first_held::<D, T>(put_held::<D, T>(store, data)) == Some(value),
    decreases store.len(),
{
    if store.len() == 0 {
    } else if T::held_in(store[0]) is Some {
    } else {
        let rest = store.drop_first();
        lemma_put_then_first::<D, T>(rest, data, value);
        let after = seq![store[0]] + put_held::<D, T>(rest, data);
        assert(after[0] == store[0]);
        assert(after.drop_first() =~= put_held::<D, T>(rest, data));
    }
}

/// Looks for the first value of type `T` in a store of models.
pub fn first_in<D, T: Stored<D>>(store: &Vec<D>) -> (r: Option<&T>)
    ensures
        r.is_some() == first_held::<D, T>(store@).is_some(),
        r.is_some() ==> *r.unwrap() == first_held::<D, T>(store@).unwrap(),
{
    let mut i: usize = 0;
    while i < store.len()
        invariant
            0 <= i <= store.len(),
            forall|j: int| 0 <= j < i ==> T::held_in(#[trigger] store@[j]) is None,
        decreases store.len() - i,
    {
        match T::downcast_ref(&store[i]) {
            Some(value) => {
                proof {
                    lemma_first_held_skip::<D, T>(store@, i as int);
                }
                return Some(value);
            },
            None => {
                i = i + 1;
            },
        }
    }
    proof {
        lemma_first_held_skip::<D, T>(store@, store@.len() as int);
    }
    None
}

/// Values that can be compared for change.
pub trait Data: Sized {
    /// Whether the two values are equal.
    fn same(&self, other: &Self) -> (r: bool)
        ensures
            r == (*self == *other),
    ;
}

impl Data for bool {
    fn same(&self, other: &Self) -> (r: bool) {
        *self == *other
    }
}

impl Data for u8 {
    fn same(&self, other: &Self) -> (r: bool) {
        *self == *other
    }
}

impl Data for u16 {
    fn same(&self, other: &Self) -> (r: bool) {
        *self == *other
    }
}

impl Data for u32 {
    fn same(&self, other: &Self) -> (r: bool) {
        *self == *other
    }
}

impl Data for u64 {
    fn same(&self, other: &Self) -> (r: bool) {
        *self == *other
    }
}

impl Data for usize {
    fn same(&self, other: &Self) -> (r: bool) {
        *self == *other
    }
}

impl Data for i8 {
    fn same(&self, other: &Self) -> (r: bool) {
        *self == *other
    }
}

impl Data for i16 {
    fn same(&self, other: &Self) -> (r: bool) {
        *self == *other
    }
}

impl Data for i32 {
    fn same(&self, other: &Self) -> (r: bool) {
        *self == *other
    }
}

impl Data for i64 {
    fn same(&self, other: &Self) -> (r: bool) {
        *self == *other
    }
}

impl Data for isize {
    fn same(&self, other: &Self) -> (r: bool) {
        *self == *other
    }
}

/// Data that reacts to events of type `E`. The storage type of a context
/// implements it and hands the event to whatever model it holds.
pub trait Model<E>: Sized {
    /// The data after it has handled `event`.
    spec fn after(self, event: E) -> Self;

    /// Handles `event`.
    fn event(&mut self, event: &E)
        ensures
            *final(self) == old(self).after(*event),
    ;
}

/// A projection from a model to one of the values that it holds.
pub trait Lens: Sized {
    /// The model that the lens looks into.
    type Source;

    /// The value that the lens yields.
    type Target;

    /// The value that the lens yields for `source`.
    spec fn project(&self, source: Self::Source) -> Self::Target;

    /// Applies the lens.
    fn view(&self, source: &Self::Source) -> (r: Self::Target)
        ensures
            r == self.project(*source),
    ;
}

/// Two lenses one after the other: `second` looks into what `first` yields.
pub struct Then<A, B> {
    pub first: A,
    pub second: B,
}

impl<A, B> Then<A, B> {
    /// The composition of `first` and `second`.
    pub fn new(first: A, second: B) -> (r: Then<A, B>)
        ensures
            r.first == first,
            r.second == second,
    {
        Then { first, second }
    }
}

impl<A: Lens, B: Lens<Source = A::Target>> Lens for Then<A, B> {
    type Source = A::Source;

    type Target = B::Target;

    open spec fn project(&self, source: A::Source) -> B::Target {
        self.second.project(self.first.project(source))
    }

    fn view(&self, source: &A::Source) -> (r: B::Target) {
        let middle = self.first.view(source);
        self.second.view(&middle)
    }
}

/// Composing lenses is associative: however three lenses are grouped, they
/// yield the same value.
pub proof fn lemma_then_associative<A, B, C>(a: A, b: B, c: C, source: A::Source) where
    A: Lens,
    B: Lens<Source = A::Target>,
    C: Lens<Source = B::Target>,

    ensures
        (Then { first: Then { first: a, second: b }, second: c }).project(source) == (Then {
            first: a,
            second: Then { first: b, second: c },
        }).project(source),
{
}

} // verus!
