use vizia_core::context::{BoundingBox, Context, UNIT_SCALE};
use vizia_core::data::Stored;
use vizia_core::entity::Entity;
use vizia_core::handle::Handle;
use vizia_core::tree::{EntityTree, TreeError};

#[derive(Debug, Clone, PartialEq)]
struct Label {
    text: String,
}

#[derive(Debug, Clone, PartialEq)]
struct Button {
    presses: u32,
}

#[derive(Debug, Clone, PartialEq)]
enum Widget {
    Label(Label),
    Button(Button),
}

impl Stored<Widget> for Label {
    fn held_in(data: Widget) -> Option<Self> {
        match data {
            Widget::Label(label) => Some(label),
            _ => None,
        }
    }

    fn erased(self) -> Widget {
        Widget::Label(self)
    }

    fn erase(self) -> Widget {
        Widget::Label(self)
    }

    fn downcast(data: Widget) -> Result<Self, Widget> {
        match data {
            Widget::Label(label) => Ok(label),
            other => Err(other),
        }
    }

    fn downcast_ref(data: &Widget) -> Option<&Self> {
        match data {
            Widget::Label(label) => Some(label),
            _ => None,
        }
    }
}

impl Stored<Widget> for Button {
    fn held_in(data: Widget) -> Option<Self> {
        match data {
            Widget::Button(button) => Some(button),
            _ => None,
        }
    }

    fn erased(self) -> Widget {
        Widget::Button(self)
    }

    fn erase(self) -> Widget {
        Widget::Button(self)
    }

    fn downcast(data: Widget) -> Result<Self, Widget> {
        match data {
            Widget::Button(button) => Ok(button),
            other => Err(other),
        }
    }

    fn downcast_ref(data: &Widget) -> Option<&Self> {
        match data {
            Widget::Button(button) => Some(button),
            _ => None,
        }
    }
}

fn label(text: &str) -> Widget {
    Widget::Label(Label { text: text.to_string() })
}

fn button() -> Widget {
    Widget::Button(Button { presses: 0 })
}

#[test]
fn parent_of_grandchild_is_child() {
    let mut cx = Context::<Widget>::new();
    let a = cx.add_view(Entity::root(), label("a")).unwrap();
    let b = cx.add_view(a, label("b")).unwrap();
    assert_eq!(Handle::<Label>::new(b).parent(&cx), a);
    assert_eq!(Handle::<Label>::new(a).parent(&cx), Entity::root());
}

#[test]
fn parent_of_root_and_of_unknown_entity_is_root() {
    let cx = Context::<Widget>::new();
    assert_eq!(Handle::<Label>::new(Entity::root()).parent(&cx), Entity::root());
    assert_eq!(Handle::<Label>::new(Entity::new(40, 0)).parent(&cx), Entity::root());
    assert_eq!(Handle::<Label>::new(Entity::null()).parent(&cx), Entity::root());
}

#[test]
fn entity_returns_the_id() {
    let handle = Handle::<Label>::new(Entity::new(7, 0));
    assert_eq!(handle.entity(), Entity::new(7, 0));
    assert_eq!(handle.ignore().entity(), Entity::new(7, 0));
}

#[test]
fn add_view_hands_out_consecutive_ids() {
    let mut cx = Context::<Widget>::new();
    assert_eq!(cx.add_view(Entity::root(), label("a")), Ok(Entity::new(1, 0)));
    assert_eq!(cx.add_view(Entity::root(), label("b")), Ok(Entity::new(2, 0)));
    assert_eq!(cx.add_view(Entity::new(1, 0), label("c")), Ok(Entity::new(3, 0)));
    assert_eq!(cx.tree.len(), 4);
}

#[test]
fn add_view_refuses_bad_parents() {
    let mut cx = Context::<Widget>::new();
    assert_eq!(cx.add_view(Entity::null(), label("a")), Err(TreeError::NullEntity));
    assert_eq!(cx.add_view(Entity::new(5, 0), label("a")), Err(TreeError::InvalidParent));
    assert_eq!(cx.add_view(Entity::new(0, 1), label("a")), Err(TreeError::InvalidParent));
    assert_eq!(cx.tree.len(), 1);
    assert!(cx.views.is_empty());
}

#[test]
fn subtree_is_depth_first() {
    let mut tree = EntityTree::new();
    let r = Entity::root();
    let a = tree.add_child(r).unwrap();
    let b = tree.add_child(r).unwrap();
    let c = tree.add_child(a).unwrap();
    let d = tree.add_child(a).unwrap();
    let e = tree.add_child(b).unwrap();
    assert_eq!(tree.subtree(r), vec![r, a, c, d, b, e]);
    assert_eq!(tree.subtree(a), vec![a, c, d]);
    assert_eq!(tree.subtree(e), vec![e]);
    assert_eq!(tree.subtree(Entity::new(9, 0)), vec![Entity::new(9, 0)]);
    assert_eq!(tree.subtree(Entity::new(1, 3)), vec![Entity::new(1, 3)]);
    assert_eq!(tree.subtree(Entity::null()), vec![Entity::null()]);
}

#[test]
fn descendants_follow_parent_links() {
    let mut tree = EntityTree::new();
    let r = Entity::root();
    let a = tree.add_child(r).unwrap();
    let b = tree.add_child(r).unwrap();
    let c = tree.add_child(a).unwrap();
    assert!(tree.is_descendant_of(c, a));
    assert!(tree.is_descendant_of(c, r));
    assert!(tree.is_descendant_of(c, c));
    assert!(!tree.is_descendant_of(c, b));
    assert!(!tree.is_descendant_of(a, c));
    assert!(!tree.is_descendant_of(Entity::null(), Entity::null()));
    assert_eq!(tree.get_parent(c), Some(a));
    assert_eq!(tree.get_parent(r), None);
    assert_eq!(tree.get_parent(Entity::new(17, 0)), None);
}

#[test]
fn focus_lock_flag_is_set_per_entity() {
    let mut tree = EntityTree::new();
    let a = tree.add_child(Entity::root()).unwrap();
    assert!(tree.is_focus_locked(Entity::root()));
    assert!(!tree.is_focus_locked(a));
    tree.set_lock_focus_within(a, true);
    assert!(tree.is_focus_locked(a));
    tree.set_lock_focus_within(a, false);
    assert!(!tree.is_focus_locked(a));
    tree.set_lock_focus_within(Entity::new(30, 0), true);
    assert!(!tree.is_focus_locked(Entity::new(30, 0)));
}

#[test]
fn modify_changes_a_view_of_the_right_type() {
    let mut cx = Context::<Widget>::new();
    let a = cx.add_view(Entity::root(), label("before")).unwrap();
    let handle = Handle::<Label>::new(a).modify(&mut cx, |l: &mut Label| l.text = "after".to_string());
    assert_eq!(handle.entity(), a);
    assert_eq!(cx.views.get(&1), Some(&label("after")));
}

#[test]
fn modify_with_the_wrong_type_changes_nothing() {
    let mut cx = Context::<Widget>::new();
    let a = cx.add_view(Entity::root(), label("text")).unwrap();
    Handle::<Button>::new(a).modify(&mut cx, |b: &mut Button| b.presses = 99);
    assert_eq!(cx.views.get(&1), Some(&label("text")));
    assert_eq!(cx.views.len(), 1);
}

#[test]
fn modify_of_a_missing_entity_changes_nothing() {
    let mut cx = Context::<Widget>::new();
    cx.add_view(Entity::root(), button()).unwrap();
    Handle::<Button>::new(Entity::new(12, 0)).modify(&mut cx, |b: &mut Button| b.presses = 99);
    Handle::<Button>::new(Entity::null()).modify(&mut cx, |b: &mut Button| b.presses = 99);
    assert_eq!(cx.views.get(&1), Some(&button()));
    assert_eq!(cx.views.len(), 1);
}

#[test]
fn with_current_restores_the_cursor() {
    let mut cx = Context::<Widget>::new();
    let e1 = cx.add_view(Entity::root(), label("one")).unwrap();
    let e2 = cx.add_view(Entity::root(), label("two")).unwrap();
    cx.set_current(e1);
    let seen = cx.with_current(e2, |c: &mut Context<Widget>| {
        let seen = c.current();
        c.set_current(Entity::new(77, 0));
        seen
    });
    assert_eq!(seen, e2);
    assert_eq!(cx.current(), e1);
}

#[test]
fn on_build_runs_once_with_the_cursor_on_the_view() {
    let mut cx = Context::<Widget>::new();
    let a = cx.add_view(Entity::root(), button()).unwrap();
    Handle::<Button>::new(a).on_build(&mut cx, |c: &mut Context<Widget>| {
        let current = c.current();
        Handle::<Button>::new(current).modify(c, |b: &mut Button| b.presses += 1);
    });
    assert_eq!(cx.views.get(&1), Some(&Widget::Button(Button { presses: 1 })));
    assert_eq!(cx.current(), Entity::root());
}

#[test]
fn build_nests_below_the_current_entity() {
    let mut cx = Context::<Widget>::new();
    let outer = cx
        .build(label("outer"), |c: &mut Context<Widget>| {
            let inner = c.build(label("inner"), |_c: &mut Context<Widget>| {});
            assert_eq!(inner, Ok(Entity::new(2, 0)));
        })
        .unwrap();
    assert_eq!(outer, Entity::new(1, 0));
    assert_eq!(cx.tree.get_parent(Entity::new(2, 0)), Some(outer));
    assert_eq!(cx.current(), Entity::root());
}

#[test]
fn dirty_flags_are_set_and_stay_set() {
    let mut cx = Context::<Widget>::new();
    let mut handle = Handle::<Label>::new(Entity::root());
    assert!(!cx.relayout && !cx.restyle && !cx.redraw);
    handle.needs_relayout(&mut cx);
    assert!(cx.relayout && !cx.restyle && !cx.redraw);
    handle.needs_restyle(&mut cx);
    handle.needs_restyle(&mut cx);
    assert!(cx.relayout && cx.restyle && !cx.redraw);
    handle.needs_redraw(&mut cx);
    assert!(cx.relayout && cx.restyle && cx.redraw);
}

#[test]
fn bounds_default_to_the_empty_box() {
    let mut cx = Context::<Widget>::new();
    let a = cx.add_view(Entity::root(), label("a")).unwrap();
    let handle = Handle::<Label>::new(a);
    assert_eq!(handle.bounds(&cx), BoundingBox { x: 0, y: 0, w: 0, h: 0 });
    let recorded = BoundingBox {
        x: 1.5f32.to_bits(),
        y: 2.0f32.to_bits(),
        w: 30.0f32.to_bits(),
        h: 40.0f32.to_bits(),
    };
    cx.set_bounds(a, recorded);
    assert_eq!(handle.bounds(&cx), recorded);
    assert_eq!(f32::from_bits(handle.bounds(&cx).w), 30.0);
    assert_eq!(Handle::<Label>::new(Entity::root()).bounds(&cx), BoundingBox::default());
}

#[test]
fn scale_factor_starts_at_one() {
    let mut cx = Context::<Widget>::new();
    let handle = Handle::<Label>::new(Entity::root());
    assert_eq!(handle.scale_factor(&cx), UNIT_SCALE);
    assert_eq!(f32::from_bits(handle.scale_factor(&cx)), 1.0);
    cx.set_scale_factor(2.0f32.to_bits());
    assert_eq!(f32::from_bits(handle.scale_factor(&cx)), 2.0);
}

fn modal_scene() -> (Context<Widget>, Entity, Entity, Entity, Entity) {
    let mut cx = Context::<Widget>::new();
    let sibling = cx.add_view(Entity::root(), button()).unwrap();
    let modal = cx.add_view(Entity::root(), label("modal")).unwrap();
    let title = cx.add_view(modal, label("title")).unwrap();
    let ok = cx.add_view(modal, button()).unwrap();
    cx.set_current(sibling);
    cx.focus();
    cx.set_current(Entity::root());
    (cx, sibling, modal, title, ok)
}

#[test]
fn lock_focus_moves_focus_into_the_subtree() {
    let (mut cx, sibling, modal, _title, ok) = modal_scene();
    assert_eq!(cx.focused(), sibling);
    let buttons = vec![sibling, ok];
    Handle::<Label>::new(modal).lock_focus_to_within(
        &mut cx,
        |_tree: &EntityTree, node: Entity, _boundary: Entity| buttons.contains(&node),
    );
    assert_eq!(cx.focused(), ok);
    assert!(cx.tree.is_descendant_of(cx.focused(), modal));
    assert_eq!(cx.focus_stack().last(), Some(&sibling));
    assert_eq!(cx.focus_stack().len(), 1);
    assert!(cx.tree.is_focus_locked(modal));
    assert_eq!(cx.current(), Entity::root());
}

#[test]
fn lock_focus_takes_the_first_navigable_entity_in_depth_first_order() {
    let (mut cx, sibling, modal, title, _ok) = modal_scene();
    Handle::<Label>::new(modal).lock_focus_to_within(
        &mut cx,
        |tree: &EntityTree, node: Entity, boundary: Entity| {
            assert_eq!(boundary, Entity::root());
            node != modal && tree.is_descendant_of(node, modal)
        },
    );
    assert_eq!(cx.focused(), title);
    assert_eq!(cx.focus_stack().as_slice(), &[sibling]);
}

#[test]
fn lock_focus_without_navigable_entity_keeps_focus_and_stack() {
    let (mut cx, sibling, modal, _title, _ok) = modal_scene();
    Handle::<Label>::new(modal).lock_focus_to_within(
        &mut cx,
        |_tree: &EntityTree, _node: Entity, _boundary: Entity| false,
    );
    assert_eq!(cx.focused(), sibling);
    assert!(cx.focus_stack().is_empty());
    assert!(cx.tree.is_focus_locked(modal));
}

#[test]
fn lock_focus_with_focus_inside_only_pushes() {
    let (mut cx, _sibling, modal, title, _ok) = modal_scene();
    cx.set_current(title);
    cx.focus();
    Handle::<Label>::new(modal).lock_focus_to_within(
        &mut cx,
        |_tree: &EntityTree, _node: Entity, _boundary: Entity| true,
    );
    assert_eq!(cx.focused(), title);
    assert_eq!(cx.focus_stack().as_slice(), &[title]);
}

#[test]
fn nested_focus_traps_stack_up() {
    let (mut cx, sibling, modal, title, ok) = modal_scene();
    Handle::<Label>::new(modal).lock_focus_to_within(
        &mut cx,
        |_tree: &EntityTree, node: Entity, _boundary: Entity| node == title,
    );
    Handle::<Button>::new(ok).lock_focus_to_within(
        &mut cx,
        |_tree: &EntityTree, _node: Entity, _boundary: Entity| true,
    );
    assert_eq!(cx.focused(), ok);
    assert_eq!(cx.focus_stack().as_slice(), &[sibling, title]);
}

#[test]
fn unlock_focus_gives_focus_back() {
    let (mut cx, sibling, modal, _title, ok) = modal_scene();
    Handle::<Label>::new(modal).lock_focus_to_within(
        &mut cx,
        |_tree: &EntityTree, node: Entity, _boundary: Entity| node == ok,
    );
    assert_eq!(cx.focused(), ok);
    cx.unlock_focus(modal);
    assert_eq!(cx.focused(), sibling);
    assert!(cx.focus_stack().is_empty());
    assert!(!cx.tree.is_focus_locked(modal));
}

#[test]
fn lock_focus_on_an_entity_outside_the_tree_asks_about_it_alone() {
    let (mut cx, sibling, _modal, _title, _ok) = modal_scene();
    let ghost = Entity::new(40, 0);
    let asked = std::cell::RefCell::new(Vec::new());
    Handle::<Label>::new(ghost).lock_focus_to_within(
        &mut cx,
        |_tree: &EntityTree, node: Entity, _boundary: Entity| {
            asked.borrow_mut().push(node);
            false
        },
    );
    assert_eq!(*asked.borrow(), vec![ghost]);
    assert_eq!(cx.focused(), sibling);
    assert!(cx.focus_stack().is_empty());
}
