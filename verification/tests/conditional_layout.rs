use tiling::conditional::{replaced_part, Conditional};
use tiling::fibonacci::Fibonacci;
use tiling::geometry::Rect;
use tiling::layout::{zip_placements, Layout};
use tiling::message::Message;
use tiling::ratio::Ratio;
use tiling::stack::{Stack, Xid};
use tiling::tatami::Tatami;

fn ids(n: u32) -> Stack {
    Stack::try_new((1..=n).map(Xid).collect(), 0).unwrap()
}

fn more_than_two(s: &Stack, _r: Rect) -> bool {
    s.len() > 2
}

fn wide(_s: &Stack, r: Rect) -> bool {
    r.w >= r.h
}

#[test]
fn conditional_starts_with_the_left_part_active() {
    let c = Conditional::new("either".to_string(), Fibonacci::default(), Tatami::default(), wide);
    assert!(c.left_is_active);
    assert_eq!(c.name(), "either");
    assert_eq!(c.left, Fibonacci::default());
    assert_eq!(c.right, Tatami::default());
    let b = Conditional::boxed("either".to_string(), Fibonacci::default(), Tatami::default(), wide);
    assert_eq!((b.name.as_str(), b.left, b.right, b.left_is_active), ("either", c.left, c.right, true));
}

#[test]
fn conditional_uses_the_left_part_where_the_test_says_yes() {
    let mut c =
        Conditional::new("c".to_string(), Fibonacci::default(), Tatami::default(), more_than_two);
    let s = ids(3);
    let r = Rect::new(0, 0, 100, 100);
    let (replacement, placements) = c.layout(&s, r);
    assert!(replacement.is_none());
    assert!(c.left_is_active);
    assert_eq!(placements, Fibonacci::default().layout(&s, r).1);
    assert_eq!(
        placements,
        vec![
            (Xid(1), Rect::new(0, 0, 50, 100)),
            (Xid(2), Rect::new(50, 0, 50, 50)),
            (Xid(3), Rect::new(50, 50, 50, 50)),
        ]
    );
}

#[test]
fn conditional_uses_the_right_part_where_the_test_says_no() {
    let mut c =
        Conditional::new("c".to_string(), Fibonacci::default(), Tatami::default(), more_than_two);
    let s = ids(2);
    let r = Rect::new(0, 0, 100, 50);
    let (replacement, placements) = c.layout(&s, r);
    assert!(replacement.is_none());
    assert!(!c.left_is_active);
    assert_eq!(
        placements,
        vec![(Xid(1), Rect::new(0, 0, 60, 50)), (Xid(2), Rect::new(60, 0, 40, 50))]
    );
}

#[test]
fn conditional_asks_the_test_at_every_call() {
    let mut c = Conditional::new("c".to_string(), Fibonacci::default(), Tatami::default(), wide);
    let s = ids(2);
    let (_, first) = c.layout(&s, Rect::new(0, 0, 50, 100));
    assert!(!c.left_is_active);
    assert_eq!(first, vec![(Xid(1), Rect::new(0, 0, 30, 100)), (Xid(2), Rect::new(30, 0, 20, 100))]);
    let (_, second) = c.layout(&s, Rect::new(0, 0, 100, 50));
    assert!(c.left_is_active);
    assert_eq!(second, vec![(Xid(1), Rect::new(0, 0, 50, 50)), (Xid(2), Rect::new(50, 0, 50, 50))]);
}

#[test]
fn conditional_takes_a_closure_as_test() {
    let limit = 4usize;
    let mut c = Conditional::new(
        "c".to_string(),
        Tatami::default(),
        Fibonacci::default(),
        move |s: &Stack, _r: Rect| s.len() < limit,
    );
    let (_, few) = c.layout(&ids(1), Rect::new(0, 0, 10, 10));
    assert!(c.left_is_active);
    assert_eq!(few, vec![(Xid(1), Rect::new(0, 0, 10, 10))]);
    let (_, many) = c.layout(&ids(4), Rect::new(0, 0, 100, 100));
    assert!(!c.left_is_active);
    assert_eq!(many.len(), 3);
}

#[test]
fn conditional_hands_commands_to_both_parts() {
    let mut c = Conditional::new("c".to_string(), Fibonacci::default(), Tatami::default(), wide);
    assert!(c.handle_message(&Message::ExpandMain).is_none());
    assert_eq!(c.left.ratio, Ratio::from_millis(600));
    assert_eq!(c.right.ratio, Ratio::from_millis(700));
    assert!(c.handle_message(&Message::ShrinkMain).is_none());
    assert!(c.handle_message(&Message::ShrinkMain).is_none());
    assert_eq!(c.left.ratio, Ratio::from_millis(400));
    assert_eq!(c.right.ratio, Ratio::from_millis(500));
    assert!(c.left_is_active);
}

#[test]
fn conditional_ignores_commands_that_no_part_knows() {
    let mut c = Conditional::new("c".to_string(), Fibonacci::default(), Tatami::default(), wide);
    c.layout(&ids(2), Rect::new(0, 0, 10, 20));
    assert!(c.handle_message(&Message::Custom(9)).is_none());
    assert_eq!(c.left, Fibonacci::default());
    assert_eq!(c.right, Tatami::default());
    assert!(!c.left_is_active);
    assert_eq!(c.name, "c");
}

#[test]
fn conditional_clone_is_independent() {
    let mut c = Conditional::new("c".to_string(), Fibonacci::default(), Tatami::default(), wide);
    c.layout(&ids(2), Rect::new(0, 0, 10, 20));
    let copy = c.boxed_clone();
    c.handle_message(&Message::ExpandMain);
    assert_eq!(copy.left, Fibonacci::default());
    assert_eq!(copy.right, Tatami::default());
    assert_eq!(copy.name, "c");
    assert!(!copy.left_is_active);
    assert_eq!(c.left.ratio, Ratio::from_millis(600));
}

#[test]
fn conditional_can_be_nested() {
    let inner = Conditional::new("inner".to_string(), Fibonacci::default(), Tatami::default(), wide);
    let mut outer = Conditional::new("outer".to_string(), inner, Tatami::default(), more_than_two);
    let (replacement, placements) = outer.layout(&ids(3), Rect::new(0, 0, 50, 100));
    assert!(replacement.is_none());
    assert!(outer.left_is_active);
    assert!(!outer.left.left_is_active);
    assert_eq!(
        placements,
        vec![
            (Xid(1), Rect::new(0, 0, 30, 100)),
            (Xid(2), Rect::new(30, 0, 20, 50)),
            (Xid(3), Rect::new(30, 50, 20, 50)),
        ]
    );
    outer.handle_message(&Message::ExpandMain);
    assert_eq!(outer.left.left.ratio, Ratio::from_millis(600));
    assert_eq!(outer.left.right.ratio, Ratio::from_millis(700));
    assert_eq!(outer.right.ratio, Ratio::from_millis(700));
}

#[test]
fn replaced_part_prefers_the_replacement() {
    let old = Fibonacci::default();
    let new = Fibonacci::new(1, Ratio::from_millis(2), Ratio::from_millis(3));
    assert_eq!(replaced_part(&old, Some(new)), new);
    assert_eq!(replaced_part(&old, None), old);
}

#[test]
fn zip_placements_stops_at_the_shorter() {
    let ids = vec![Xid(1), Xid(2), Xid(3)];
    let rects = vec![Rect::new(0, 0, 1, 1), Rect::new(1, 0, 1, 1)];
    assert_eq!(
        zip_placements(&ids, &rects),
        vec![(Xid(1), Rect::new(0, 0, 1, 1)), (Xid(2), Rect::new(1, 0, 1, 1))]
    );
    assert_eq!(zip_placements(&vec![Xid(9)], &rects), vec![(Xid(9), Rect::new(0, 0, 1, 1))]);
    assert_eq!(zip_placements(&vec![], &rects), vec![]);
}
