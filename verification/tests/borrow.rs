use vizia_core::borrow::{BorrowState, SharedContext};
use vizia_core::context::Context;
use vizia_core::entity::Entity;

fn cell() -> SharedContext<u32> {
    SharedContext::new(Context::<u32>::new())
}

#[test]
fn borrows_are_released_when_the_call_returns() {
    let mut shared = cell();
    let current = shared.with_borrow(|cx: &Context<u32>| cx.current());
    assert_eq!(current, Entity::root());
    assert_eq!(shared.state, BorrowState { readers: 0, writer: false });
    shared.with_borrow_mut(|cx: &mut Context<u32>| cx.set_current(Entity::new(3, 0)));
    assert_eq!(shared.state, BorrowState { readers: 0, writer: false });
    let current = shared.with_borrow(|cx: &Context<u32>| cx.current());
    assert_eq!(current, Entity::new(3, 0));
    let added = shared.with_borrow_mut(|cx: &mut Context<u32>| cx.add_view(Entity::root(), 1));
    assert_eq!(added, Ok(Entity::new(1, 0)));
    assert!(shared.state.try_borrow_mut());
}

#[test]
fn changes_are_seen_by_the_next_borrow() {
    let mut shared = cell();
    shared.with_borrow_mut(|cx: &mut Context<u32>| cx.needs_redraw());
    assert!(shared.with_borrow(|cx: &Context<u32>| cx.redraw));
}

#[test]
fn a_writer_excludes_every_other_borrow() {
    let mut state = BorrowState::new();
    assert!(state.try_borrow_mut());
    assert!(!state.try_borrow_mut());
    assert!(!state.try_borrow());
    assert_eq!(state, BorrowState { readers: 0, writer: true });
    state.release_mut();
    assert!(state.try_borrow());
    assert_eq!(state, BorrowState { readers: 1, writer: false });
}

#[test]
fn readers_share_and_exclude_the_writer() {
    let mut state = BorrowState::new();
    assert!(state.try_borrow());
    assert!(state.try_borrow());
    assert_eq!(state.readers, 2);
    assert!(!state.try_borrow_mut());
    state.release();
    assert!(!state.try_borrow_mut());
    state.release();
    assert!(state.try_borrow_mut());
}

#[test]
fn the_reader_count_does_not_wrap() {
    let mut state = BorrowState { readers: u64::MAX, writer: false };
    assert!(!state.try_borrow());
    assert_eq!(state.readers, u64::MAX);
}
