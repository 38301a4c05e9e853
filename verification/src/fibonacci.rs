//! A layout that cuts the rectangle in two again and again, turning by a
//! quarter each time, so that the windows wind inwards like a snail shell.

use vstd::prelude::*;
use crate::geometry::{Rect, lemma_split_at_height, lemma_split_at_width, lemma_tiles_prepend, lemma_tiles_single, tiles};
use crate::layout::{Layout, after_messages, pair_up, rects_of, valid_placements};
use crate::message::Message;
use crate::ratio::{Ratio, lemma_adjusted_stays_in_unit, lemma_scaled_bounds};
use crate::stack::{Stack, Xid};

verus! {

/// The settings of the layout.
///
/// ```text
/// ....................................
/// .                  .               .
/// .                  .               .
/// .                  .               .
/// .                  .................
/// .                  .       .       .
/// .                  .       .........
/// .                  .       .   .   .
/// ....................................
/// ```
#[derive(Debug, Clone, Copy, PartialEq, Eq, Structural)]
pub struct Fibonacci {
    /// A region this narrow or this low, or less, is not cut up further.
    pub cutoff: u32,
    /// The share of each cut that goes to the window placed next.
    pub ratio: Ratio,
    /// By how much a command changes `ratio`.
    pub ratio_step: Ratio,
}

/// Whether `r2` lies against `r1` on the side on which step `i` cuts: to the
/// right of it at an even step, below it at an odd one.
pub open spec fn side_by_side(i: nat, r1: Rect, r2: Rect) -> bool {
    &&& r1.wf()
    &&& r2.wf()
    &&& if i % 2 == 0 {
        r2.x == r1.x + r1.w && r2.y == r1.y && r2.h == r1.h
    } else {
        r2.y == r1.y + r1.h && r2.x == r1.x && r2.w == r1.w
    }
}

/// `r1` grown over `r2`: wider at an even step, higher at an odd one.
pub open spec fn merged(i: nat, r1: Rect, r2: Rect) -> Rect {
    if i % 2 == 0 {
        Rect { x: r1.x, y: r1.y, w: (r1.w + r2.w) as u32, h: r1.h }
    } else {
        Rect { x: r1.x, y: r1.y, w: r1.w, h: (r1.h + r2.h) as u32 }
    }
}

/// Whether the window at step `i` of `n` is the last to be placed: it is the
/// last window, or its region has reached the cutoff.
pub open spec fn is_terminal(cutoff: u32, n: nat, i: nat, r1: Rect) -> bool {
    i + 1 == n || r1.w <= cutoff || r1.h <= cutoff
}

/// The cut of the remainder `r2` after step `i`: by height after an even
/// step, by width after an odd one.
pub open spec fn next_pair(ratio: Ratio, i: nat, r2: Rect) -> (Rect, Rect) {
    if i % 2 == 0 {
        r2.spec_split_at_height(ratio.scaled(r2.h as int))
    } else {
        r2.spec_split_at_width(ratio.scaled(r2.w as int))
    }
}

/// The rectangles of the windows from step `i` on, of `n` windows, where
/// `r1` is the region of window `i` and `r2` what is left beside it.
pub open spec fn fibonacci_rects(cutoff: u32, ratio: Ratio, n: nat, i: nat, r1: Rect, r2: Rect) -> Seq<
    Rect,
>
    decreases n - i,
{
    if i >= n {
        Seq::empty()
    } else if is_terminal(cutoff, n, i, r1) {
        seq![merged(i, r1, r2)]
    } else {
        let next = next_pair(ratio, i, r2);
        seq![r1] + fibonacci_rects(cutoff, ratio, n, i + 1, next.0, next.1)
    }
}

/// The placements of the windows `ids` in `r`.
pub open spec fn fibonacci_placements(cutoff: u32, ratio: Ratio, ids: Seq<Xid>, r: Rect) -> Seq<
    (Xid, Rect),
> {
    let first = r.spec_split_at_width(ratio.scaled(r.w as int));
    pair_up(ids, fibonacci_rects(cutoff, ratio, ids.len(), 0, first.0, first.1))
}

/// From step `i` on at least one window is placed and at most all that are
/// left, and their rectangles cut up the two regions of step `i` taken
/// together.
pub proof fn lemma_fibonacci_rects_tile(cutoff: u32, ratio: Ratio, n: nat, i: nat, r1: Rect, r2: Rect)
    requires
        ratio.in_unit(),
        i < n,
        side_by_side(i, r1, r2),
    ensures
        1 <= fibonacci_rects(cutoff, ratio, n, i, r1, r2).len() <= n - i,
        tiles(fibonacci_rects(cutoff, ratio, n, i, r1, r2), merged(i, r1, r2)),
        merged(i, r1, r2).wf(),
        merged(i, r1, r2).is_split_into(r1, r2),
    decreases n - i,
{
    let whole = merged(i, r1, r2);
    assert(whole.is_split_into(r1, r2));
    if is_terminal(cutoff, n, i, r1) {
        lemma_tiles_single(whole);
    } else {
        let next = next_pair(ratio, i, r2);
        if i % 2 == 0 {
            lemma_scaled_bounds(ratio, r2.h as int);
            lemma_split_at_height(r2, ratio.scaled(r2.h as int));
        } else {
            lemma_scaled_bounds(ratio, r2.w as int);
            lemma_split_at_width(r2, ratio.scaled(r2.w as int));
        }
        assert(side_by_side(i + 1, next.0, next.1));
        assert(merged(i + 1, next.0, next.1) == r2);
        lemma_fibonacci_rects_tile(cutoff, ratio, n, i + 1, next.0, next.1);
        lemma_tiles_prepend(
            r1,
            fibonacci_rects(cutoff, ratio, n, i + 1, next.0, next.1),
            r2,
            whole,
        );
    }
}

/// For at least one window the rectangles of the placements cut `r` up: they
/// lie inside it, do not overlap, and leave no pixel of it out. No more
/// windows are placed than there are.
pub proof fn lemma_fibonacci_covers(cutoff: u32, ratio: Ratio, ids: Seq<Xid>, r: Rect)
    requires
        ratio.in_unit(),
        r.wf(),
        ids.len() > 0,
    ensures
        tiles(rects_of(fibonacci_placements(cutoff, ratio, ids, r)), r),
        1 <= fibonacci_placements(cutoff, ratio, ids, r).len() <= ids.len(),
{
    lemma_scaled_bounds(ratio, r.w as int);
    lemma_split_at_width(r, ratio.scaled(r.w as int));
    let first = r.spec_split_at_width(ratio.scaled(r.w as int));
    lemma_fibonacci_rects_tile(cutoff, ratio, ids.len(), 0, first.0, first.1);
    assert(merged(0, first.0, first.1) == r);
    let rects = fibonacci_rects(cutoff, ratio, ids.len(), 0, first.0, first.1);
    assert(rects_of(pair_up(ids, rects)) =~= rects);
}

/// The windows placed are the first of `ids` in their order, so that with
/// no identifier twice in `ids` none is placed twice.
pub proof fn lemma_fibonacci_valid(cutoff: u32, ratio: Ratio, ids: Seq<Xid>, r: Rect)
    requires
        ratio.in_unit(),
        r.wf(),
        ids.no_duplicates(),
    ensures
        valid_placements(fibonacci_placements(cutoff, ratio, ids, r), ids, r),
        fibonacci_placements(cutoff, ratio, ids, r).len() <= ids.len(),
        forall|k: int|
            0 <= k < fibonacci_placements(cutoff, ratio, ids, r).len() ==> (
            #[trigger] fibonacci_placements(cutoff, ratio, ids, r)[k]).0 == ids[k],
{
    let placements = fibonacci_placements(cutoff, ratio, ids, r);
    if ids.len() > 0 {
        lemma_fibonacci_covers(cutoff, ratio, ids, r);
        assert forall|k: int| 0 <= k < placements.len() implies (#[trigger] placements[k]).1.within(
            r,
        ) && placements[k].1.wf() by {
            assert(rects_of(placements)[k].within(r));
        }
    }
}

impl Default for Fibonacci {
    /// A cutoff of 40 pixels, a ratio of one half, steps of one tenth.
    fn default() -> (layout: Self)
        ensures
            layout == (Fibonacci {
                cutoff: 40,
                ratio: Ratio { millis: 500 },
                ratio_step: Ratio { millis: 100 },
            }),
            layout.inv(),
    {
        Fibonacci { cutoff: 40, ratio: Ratio { millis: 500 }, ratio_step: Ratio { millis: 100 } }
    }
}

impl Fibonacci {
    /// A layout with the given cutoff for the smallest region to cut up, the
    /// given ratio and the given step.
    pub fn new(cutoff: u32, ratio: Ratio, ratio_step: Ratio) -> (layout: Self)
        ensures
            layout == (Fibonacci { cutoff, ratio, ratio_step }),
    {
        Fibonacci { cutoff, ratio, ratio_step }
    }

    /// Whether the settings are in order: the ratio is a fraction between
    /// zero and one, and the step is not negative.
    pub fn is_valid(&self) -> (b: bool)
        ensures
            b == self.inv(),
    {
        self.ratio.is_in_unit() && self.ratio_step.millis() >= 0
    }

    /// As `new`, but on the heap.
    pub fn boxed(cutoff: u32, ratio: Ratio, ratio_step: Ratio) -> (layout: Box<Self>)
        ensures
            *layout == (Fibonacci { cutoff, ratio, ratio_step }),
    {
        Box::new(Fibonacci::new(cutoff, ratio, ratio_step))
    }

    /// As `default`, but on the heap.
    pub fn boxed_default() -> (layout: Box<Self>)
        ensures
            *layout == (Fibonacci {
                cutoff: 40,
                ratio: Ratio { millis: 500 },
                ratio_step: Ratio { millis: 100 },
            }),
            layout.inv(),
    {
        Box::new(Fibonacci::default())
    }
}

impl Layout for Fibonacci {
    /// The ratio is a fraction between zero and one, and the step is not
    /// negative.
    open spec fn inv(&self) -> bool {
        &&& self.ratio.in_unit()
        &&& self.ratio_step.millis >= 0
    }

    open spec fn placements(&self, s: Stack, r: Rect) -> Seq<(Xid, Rect)> {
        fibonacci_placements(self.cutoff, self.ratio, s@, r)
    }

    open spec fn after_layout(&self, s: Stack, r: Rect) -> Self {
        *self
    }

    open spec fn layout_replaces(&self, s: Stack, r: Rect) -> bool {
        false
    }

    open spec fn recognizes(&self, m: Message) -> bool {
        m.resizes_main()
    }

    open spec fn message_replaces(&self, m: Message) -> bool {
        false
    }

    open spec fn after_message(&self, m: Message) -> Self {
        match m {
            Message::ExpandMain => Fibonacci {
                cutoff: self.cutoff,
                ratio: self.ratio.spec_raised_by(self.ratio_step),
                ratio_step: self.ratio_step,
            },
            Message::ShrinkMain => Fibonacci {
                cutoff: self.cutoff,
                ratio: self.ratio.spec_lowered_by(self.ratio_step),
                ratio_step: self.ratio_step,
            },
            Message::Custom(_) => *self,
        }
    }

    fn name(&self) -> (label: String)
        ensures
            label@ == "Fibo"@,
    {
        "Fibo".to_owned()
    }

    fn boxed_clone(&self) -> (copy: Box<Self>) {
        Box::new(*self)
    }

    /// Places the windows one after the other. Each but the last takes the
    /// share `ratio` of what is left; the last one placed takes all that is
    /// left. Where a region has reached the cutoff, its window is the last
    /// one placed and the windows after it are left out.
    fn layout(&mut self, s: &Stack, r: Rect) -> (res: (Option<Self>, Vec<(Xid, Rect)>))
        ensures
            res.0 is None,
            *final(self) == *old(self),
            res.1@.len() <= s@.len(),
            forall|k: int| 0 <= k < res.1@.len() ==> (#[trigger] res.1@[k]).0 == s@[k],
            s@.len() > 0 ==> res.1@.len() >= 1 && tiles(rects_of(res.1@), r),
    {
        let ids = s.ids();
        let n: usize = ids.len();
        let cutoff: u32 = self.cutoff;
        let ratio: Ratio = self.ratio;
        let mut positions: Vec<(Xid, Rect)> = Vec::with_capacity(n);
        proof {
            lemma_scaled_bounds(ratio, r.w as int);
        }
        let first = r.split_at_width_perc(ratio).unwrap();
        let mut r1: Rect = first.0;
        let mut r2: Rect = first.1;
        let ghost total = fibonacci_rects(cutoff, ratio, n as nat, 0, first.0, first.1);
        let mut i: usize = 0;
        while i < n
            invariant_except_break
                i <= n,
                positions@.len() == i,
                side_by_side(i as nat, r1, r2),
                rects_of(positions@) + fibonacci_rects(cutoff, ratio, n as nat, i as nat, r1, r2)
                    == total,
            invariant
                ratio.in_unit(),
                n == ids@.len(),
                positions@.len() <= n,
                forall|k: int| 0 <= k < positions@.len() ==> (#[trigger] positions@[k]).0 == ids@[k],
            ensures
                rects_of(positions@) == total,
            decreases n - i,
        {
            let ghost before = positions@;
            let id: Xid = ids[i];
            let at_cutoff: bool = i == n - 1 || r1.w <= cutoff || r1.h <= cutoff;
            if at_cutoff {
                if i % 2 == 0 {
                    r1.w = r1.w + r2.w;
                } else {
                    r1.h = r1.h + r2.h;
                }
            }
            positions.push((id, r1));
            assert(rects_of(positions@) =~= rects_of(before).push(r1));
            if at_cutoff {
                assert(rects_of(before).push(r1) =~= rects_of(before) + seq![r1]);
                break ;
            }
            proof {
                lemma_scaled_bounds(ratio, r2.h as int);
                lemma_scaled_bounds(ratio, r2.w as int);
                let next = next_pair(ratio, i as nat, r2);
                assert(rects_of(before).push(r1) + fibonacci_rects(
                    cutoff,
                    ratio,
                    n as nat,
                    (i + 1) as nat,
                    next.0,
                    next.1,
                ) =~= rects_of(before) + (seq![r1] + fibonacci_rects(
                    cutoff,
                    ratio,
                    n as nat,
                    (i + 1) as nat,
                    next.0,
                    next.1,
                )));
            }
            let parts = if i % 2 == 0 {
                r2.split_at_height_perc(ratio).unwrap()
            } else {
                r2.split_at_width_perc(ratio).unwrap()
            };
            r1 = parts.0;
            r2 = parts.1;
            i += 1;
        }
        proof {
            assert(rects_of(positions@) =~= rects_of(positions@) + Seq::<Rect>::empty());
            assert(positions@ =~= pair_up(s@, total)) by {
                assert(positions@.len() == rects_of(positions@).len());
                assert forall|k: int| 0 <= k < positions@.len() implies positions@[k] == pair_up(
                    s@,
                    total,
                )[k] by {
                    assert(rects_of(positions@)[k] == positions@[k].1);
                }
            }
            lemma_fibonacci_valid(cutoff, ratio, s@, r);
            if s@.len() > 0 {
                lemma_fibonacci_covers(cutoff, ratio, s@, r);
            }
        }
        (None, positions)
    }

    /// `ExpandMain` raises the ratio by the step, up to one; `ShrinkMain`
    /// lowers it by the step, down to zero; any other command changes
    /// nothing. There is never a replacement.
    fn handle_message(&mut self, m: &Message) -> (res: Option<Self>)
        ensures
            res is None,
    {
        proof {
            lemma_adjusted_stays_in_unit(self.ratio, self.ratio_step);
        }
        match m {
            Message::ExpandMain => {
                self.ratio = self.ratio.raised_by(self.ratio_step);
            },
            Message::ShrinkMain => {
                self.ratio = self.ratio.lowered_by(self.ratio_step);
            },
            Message::Custom(_) => {},
        }
        None
    }
}

/// Whatever commands a layout with a ratio between zero and one and a step
/// that is not negative handles, one after the other, its ratio stays
/// between zero and one, and cutoff and step stay as they were.
pub proof fn lemma_fibonacci_ratio_bounded(layout: Fibonacci, msgs: Seq<Message>)
    requires
        layout.inv(),
    ensures
        after_messages(layout, msgs).inv(),
        after_messages(layout, msgs).ratio.in_unit(),
        after_messages(layout, msgs).cutoff == layout.cutoff,
        after_messages(layout, msgs).ratio_step == layout.ratio_step,
    decreases msgs.len(),
{
    if msgs.len() > 0 {
        lemma_fibonacci_ratio_bounded(layout, msgs.drop_last());
        let before = after_messages(layout, msgs.drop_last());
        lemma_adjusted_stays_in_unit(before.ratio, before.ratio_step);
    }
}

} // verus!
