//! The interface that every tiling strategy offers, and what it promises of
//! the placements that it hands out.

use vstd::prelude::*;
use crate::geometry::Rect;
use crate::message::Message;
use crate::stack::{Stack, Xid};

verus! {

/// The rectangles of `placements`, in order.
pub open spec fn rects_of(placements: Seq<(Xid, Rect)>) -> Seq<Rect> {
    Seq::new(placements.len(), |k: int| placements[k].1)
}

/// Pairs `ids` with `rects` in order, as far as the shorter of them goes.
pub open spec fn pair_up(ids: Seq<Xid>, rects: Seq<Rect>) -> Seq<(Xid, Rect)> {
    Seq::new(
        if ids.len() <= rects.len() {
            ids.len()
        } else {
            rects.len()
        },
        |k: int| (ids[k], rects[k]),
    )
}

/// Pairs `ids` with `rects` in order, as far as the shorter of them goes.
pub fn zip_placements(ids: &Vec<Xid>, rects: &Vec<Rect>) -> (placements: Vec<(Xid, Rect)>)
    ensures
        placements@ == pair_up(ids@, rects@),
{
    let n: usize = if ids.len() <= rects.len() {
        ids.len()
    } else {
        rects.len()
    };
    let mut placements: Vec<(Xid, Rect)> = Vec::with_capacity(n);
    let mut k: usize = 0;
    while k < n
        invariant
            n <= ids@.len(),
            n <= rects@.len(),
            k <= n,
            placements@.len() == k,
            forall|j: int| 0 <= j < k ==> #[trigger] placements@[j] == (ids@[j], rects@[j]),
        decreases n - k,
    {
        placements.push((ids[k], rects[k]));
        k += 1;
    }
    assert(placements@ =~= pair_up(ids@, rects@));
    placements
}

/// What holds of the placements of any layout for the windows `ids` in the
/// rectangle `r`: each placed window is one of `ids`, none is placed twice,
/// and each rectangle lies inside `r`.
pub open spec fn valid_placements(placements: Seq<(Xid, Rect)>, ids: Seq<Xid>, r: Rect) -> bool {
    &&& forall|k: int| 0 <= k < placements.len() ==> ids.contains((#[trigger] placements[k]).0)
    &&& forall|j: int, k: int|
        0 <= j < k < placements.len() ==> (#[trigger] placements[j]).0 != (
        #[trigger] placements[k]).0
    &&& forall|k: int|
        0 <= k < placements.len() ==> (#[trigger] placements[k]).1.within(r) && placements[k].1.wf()
}

/// The layout to use after the commands `msgs` were handled one by one.
pub open spec fn after_messages<L: Layout>(layout: L, msgs: Seq<Message>) -> L
    decreases msgs.len(),
{
    if msgs.len() == 0 {
        layout
    } else {
        after_messages(layout, msgs.drop_last()).after_message(msgs.last())
    }
}

/// A tiling strategy. It places windows in a rectangle, takes commands that
/// change its settings, has a name, and can be copied.
///
/// `layout` and `handle_message` may hand back a replacement: the caller
/// then uses the replacement in place of this layout from then on.
pub trait Layout: Sized {
    /// Whether the settings of the layout are in order.
    spec fn inv(&self) -> bool;

    /// Where `layout` places the windows of `s` in `r`.
    spec fn placements(&self, s: Stack, r: Rect) -> Seq<(Xid, Rect)>;

    /// The layout to use after `layout` was called: the replacement where
    /// there is one, else the layout as the call left it.
    spec fn after_layout(&self, s: Stack, r: Rect) -> Self;

    /// Whether `layout` hands back a replacement.
    spec fn layout_replaces(&self, s: Stack, r: Rect) -> bool;

    /// Whether the layout knows the kind of `m`.
    spec fn recognizes(&self, m: Message) -> bool;

    /// Whether `handle_message` hands back a replacement for `m`.
    spec fn message_replaces(&self, m: Message) -> bool;

    /// The layout to use after `m` was handled: the replacement where there
    /// is one, else the layout as the call left it.
    spec fn after_message(&self, m: Message) -> Self;

    /// A short label to show. Two layouts may have the same.
    fn name(&self) -> String;

    /// A copy with the same settings, which shares nothing with this one.
    fn boxed_clone(&self) -> (copy: Box<Self>)
        ensures
            *copy == *self,
    ;

    /// Places the windows of `s` in `r`. A window of `s` may be left out,
    /// which hides it.
    fn layout(&mut self, s: &Stack, r: Rect) -> (res: (Option<Self>, Vec<(Xid, Rect)>))
        requires
            old(self).inv(),
            r.wf(),
        ensures
            final(self).inv(),
            res.0 matches Some(next) ==> next.inv(),
            res.0 is Some <==> old(self).layout_replaces(*s, r),
            (match res.0 {
                Some(next) => next,
                None => *final(self),
            }) == old(self).after_layout(*s, r),
            res.1@ == old(self).placements(*s, r),
            valid_placements(res.1@, s@, r),
    ;

    /// Handles the command `m`. A command of a kind that the layout does not
    /// know changes nothing and brings no replacement.
    fn handle_message(&mut self, m: &Message) -> (res: Option<Self>)
        requires
            old(self).inv(),
        ensures
            final(self).inv(),
            res matches Some(next) ==> next.inv(),
            res is Some <==> old(self).message_replaces(*m),
            (match res {
                Some(next) => next,
                None => *final(self),
            }) == old(self).after_message(*m),
            !old(self).recognizes(*m) ==> res is None && *final(self) == *old(self),
    ;
}

} // verus!
