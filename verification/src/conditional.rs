//! A layout made of two others and a test that says, call by call, which of
//! the two places the windows.

use vstd::prelude::*;
use crate::geometry::Rect;
use crate::layout::Layout;
use crate::message::Message;
use crate::stack::{Stack, Xid};

verus! {

/// Two layouts and the test that chooses between them.
pub struct Conditional<L, R, P> {
    /// The label of the combined layout.
    pub name: String,
    /// The layout used where the test says yes.
    pub left: L,
    /// The layout used where the test says no.
    pub right: R,
    /// The test, on the windows and the rectangle of a call.
    pub should_use_left: P,
    /// What the test said at the last call of `layout`; yes before the first.
    pub left_is_active: bool,
}

/// Whether `test` can be called on every stack and rectangle, and answers
/// the same whenever it is asked the same.
pub open spec fn decides<P: Fn(&Stack, Rect) -> bool>(test: P) -> bool {
    &&& forall|s: Stack, r: Rect| call_requires(test, (&s, r))
    &&& forall|s: Stack, r: Rect, a: bool, b: bool|
        call_ensures(test, (&s, r), a) && call_ensures(test, (&s, r), b) ==> a == b
}

/// The layout that takes the place of a combined one after a call in which a
/// part handed back a replacement: the replacement where there is one, else
/// the part itself.
pub fn replaced_part<T: Layout>(part: &T, replacement: Option<T>) -> (next: T)
    ensures
        next == (match replacement {
            Some(new_part) => new_part,
            None => *part,
        }),
{
    match replacement {
        Some(new_part) => new_part,
        None => *part.boxed_clone(),
    }
}

impl<L: Layout, R: Layout, P: Fn(&Stack, Rect) -> bool + Copy> Conditional<L, R, P> {
    /// What the test says of `s` and `r`.
    pub open spec fn chooses_left(&self, s: Stack, r: Rect) -> bool {
        choose|answer: bool| call_ensures(self.should_use_left, (&s, r), answer)
    }

    /// This layout with other parts and another record of the last answer.
    pub open spec fn with(&self, left: L, right: R, left_is_active: bool) -> Self {
        Conditional {
            name: self.name,
            left,
            right,
            should_use_left: self.should_use_left,
            left_is_active,
        }
    }

    /// The layout named `name` that uses `left` where `should_use_left` says
    /// yes, and `right` where it says no.
    pub fn new(name: String, left: L, right: R, should_use_left: P) -> (layout: Self)
        ensures
            layout == (Conditional { name, left, right, should_use_left, left_is_active: true }),
    {
        Conditional { name, left, right, should_use_left, left_is_active: true }
    }

    /// As `new`, but on the heap.
    pub fn boxed(name: String, left: L, right: R, should_use_left: P) -> (layout: Box<Self>)
        ensures
            *layout == (Conditional { name, left, right, should_use_left, left_is_active: true }),
    {
        Box::new(Conditional::new(name, left, right, should_use_left))
    }
}

impl<L: Layout, R: Layout, P: Fn(&Stack, Rect) -> bool + Copy> Layout for Conditional<L, R, P> {
    /// Both parts are in order, and the test decides.
    open spec fn inv(&self) -> bool {
        &&& self.left.inv()
        &&& self.right.inv()
        &&& decides(self.should_use_left)
    }

    open spec fn placements(&self, s: Stack, r: Rect) -> Seq<(Xid, Rect)> {
        if self.chooses_left(s, r) {
            self.left.placements(s, r)
        } else {
            self.right.placements(s, r)
        }
    }

    open spec fn layout_replaces(&self, s: Stack, r: Rect) -> bool {
        if self.chooses_left(s, r) {
            self.left.layout_replaces(s, r)
        } else {
            self.right.layout_replaces(s, r)
        }
    }

    open spec fn after_layout(&self, s: Stack, r: Rect) -> Self {
        if self.chooses_left(s, r) {
            self.with(self.left.after_layout(s, r), self.right, true)
        } else {
            self.with(self.left, self.right.after_layout(s, r), false)
        }
    }

    open spec fn recognizes(&self, m: Message) -> bool {
        self.left.recognizes(m) || self.right.recognizes(m)
    }

    open spec fn message_replaces(&self, m: Message) -> bool {
        self.left.message_replaces(m) || self.right.message_replaces(m)
    }

    open spec fn after_message(&self, m: Message) -> Self {
        self.with(self.left.after_message(m), self.right.after_message(m), self.left_is_active)
    }

    fn name(&self) -> (label: String)
        ensures
            label == self.name,
    {
        self.name.clone()
    }

    fn boxed_clone(&self) -> (copy: Box<Self>) {
        let left = self.left.boxed_clone();
        let right = self.right.boxed_clone();
        Box::new(
            Conditional {
                name: self.name.clone(),
                left: *left,
                right: *right,
                should_use_left: self.should_use_left,
                left_is_active: self.left_is_active,
            },
        )
    }

    /// Asks the test about `s` and `r`, and lets the part that it chooses
    /// place the windows; the other part is not touched. Where that part
    /// hands back a replacement, the replacement of the combined layout is
    /// the combined layout with the part replaced.
    fn layout(&mut self, s: &Stack, r: Rect) -> (res: (Option<Self>, Vec<(Xid, Rect)>))
        ensures
            call_ensures(old(self).should_use_left, (s, r), final(self).left_is_active),
            final(self).left_is_active == old(self).chooses_left(*s, r),
            final(self).left_is_active ==> final(self).right == old(self).right,
            !final(self).left_is_active ==> final(self).left == old(self).left,
    {
        let use_left: bool = (self.should_use_left)(s, r);
        self.left_is_active = use_left;
        if use_left {
            let (replacement, placements) = self.left.layout(s, r);
            match replacement {
                Some(left) => {
                    let next = Conditional {
                        name: self.name.clone(),
                        left,
                        right: *self.right.boxed_clone(),
                        should_use_left: self.should_use_left,
                        left_is_active: true,
                    };
                    (Some(next), placements)
                },
                None => (None, placements),
            }
        } else {
            let (replacement, placements) = self.right.layout(s, r);
            match replacement {
                Some(right) => {
                    let next = Conditional {
                        name: self.name.clone(),
                        left: *self.left.boxed_clone(),
                        right,
                        should_use_left: self.should_use_left,
                        left_is_active: false,
                    };
                    (Some(next), placements)
                },
                None => (None, placements),
            }
        }
    }

    /// Hands `m` to both parts, since either may place the windows at a
    /// later call. Where a part hands back a replacement, the replacement of
    /// the combined layout is the combined layout with that part replaced;
    /// where both do, with both replaced.
    fn handle_message(&mut self, m: &Message) -> (res: Option<Self>)
        ensures
            final(self).left_is_active == old(self).left_is_active,
    {
        let left_replacement = self.left.handle_message(m);
        let right_replacement = self.right.handle_message(m);
        if left_replacement.is_none() && right_replacement.is_none() {
            None
        } else {
            Some(
                Conditional {
                    name: self.name.clone(),
                    left: replaced_part(&self.left, left_replacement),
                    right: replaced_part(&self.right, right_replacement),
                    should_use_left: self.should_use_left,
                    left_is_active: self.left_is_active,
                },
            )
        }
    }
}

} // verus!
