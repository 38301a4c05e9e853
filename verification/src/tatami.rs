//! A layout with one fixed pattern for each number of windows from one to
//! six, after the mats of a Japanese room. Windows beyond the sixth are left
//! out.

use vstd::prelude::*;
use crate::geometry::{
    Rect,
    covers,
    lemma_packed_concat,
    lemma_split_at_height,
    lemma_split_at_width,
    lemma_tiles_concat,
    lemma_tiles_pair,
    lemma_tiles_single,
    packed,
    tiles,
};
use crate::layout::{Layout, after_messages, pair_up, rects_of, valid_placements, zip_placements};
use crate::message::Message;
use crate::ratio::{Ratio, lemma_adjusted_stays_in_unit, lemma_scaled_bounds};
use crate::stack::{Stack, Xid};

verus! {

/// How many windows the layout places at most.
pub const TATAMI_CAPACITY: usize = 6;

/// The settings of the layout.
///
/// ```text
/// one window       two windows      three windows
/// ..............   ..............   ..............
/// .            .   .       .    .   .       .    .
/// .            .   .       .    .   .       . 2  .
/// .     1      .   .   1   . 2  .   .   1   ......
/// .            .   .       .    .   .       . 3  .
/// .            .   .       .    .   .       .    .
/// ..............   ..............   ..............
///
/// four windows     five windows     six windows
/// ..............   ..............   ..............
/// .       .    .   .       . 2  .   .       . .3 .
/// .       . 2  .   .       ......   .       . ....
/// .   1   ......   .   1   .3.4 .   .   1   .2.4..
/// .       .3.4 .   .       ......   .       ....5.
/// .       . .  .   .       . 5  .   .       .6 . .
/// ..............   ..............   ..............
/// ```
#[derive(Debug, Clone, Copy, PartialEq, Eq, Structural)]
pub struct Tatami {
    /// The share of the width that goes to the main window.
    pub ratio: Ratio,
    /// By how much a command changes `ratio`.
    pub ratio_step: Ratio,
}

/// How many of `len` windows are placed.
pub open spec fn tatami_count(len: nat) -> nat {
    if len <= TATAMI_CAPACITY {
        len
    } else {
        TATAMI_CAPACITY as nat
    }
}

/// The pattern for six windows beside the main one: three columns of a
/// third of the width of `side`, moved against each other by a quarter of
/// its height.
pub open spec fn six_mats(side: Rect) -> Seq<Rect> {
    let third = side.w as int / 3;
    let quarter = side.h as int / 4;
    seq![
        Rect { x: side.x, y: side.y, w: third as u32, h: (side.h - quarter) as u32 },
        Rect { x: (side.x + third) as u32, y: side.y, w: (2 * third) as u32, h: quarter as u32 },
        Rect {
            x: (side.x + third) as u32,
            y: (side.y + quarter) as u32,
            w: third as u32,
            h: (side.h - 2 * quarter) as u32,
        },
        Rect {
            x: (side.x + 2 * third) as u32,
            y: (side.y + quarter) as u32,
            w: third as u32,
            h: (side.h - quarter) as u32,
        },
        Rect {
            x: side.x,
            y: (side.y + side.h - quarter) as u32,
            w: (2 * third) as u32,
            h: quarter as u32,
        },
    ]
}

/// The rectangles of the windows beside the main one, for `n` windows in
/// all, in the region `side`.
pub open spec fn side_mats(n: nat, side: Rect) -> Seq<Rect> {
    if n == 2 {
        seq![side]
    } else if n == 3 {
        let rows = side.spec_split_at_height(side.h as int / 2);
        seq![rows.0, rows.1]
    } else if n == 4 {
        let rows = side.spec_split_at_height(side.h as int / 2);
        let columns = rows.1.spec_split_at_width(rows.1.w as int / 2);
        seq![rows.0, columns.0, columns.1]
    } else if n == 5 {
        let middle = middle_rows(side);
        let columns = middle.spec_split_at_width(middle.w as int / 2);
        seq![side.spec_row(4, 0), columns.0, columns.1, side.spec_row(4, 3)]
    } else {
        six_mats(side)
    }
}

/// The second and the third of four rows of `side`, as one rectangle.
pub open spec fn middle_rows(side: Rect) -> Rect {
    Rect {
        x: side.x,
        y: side.spec_row(4, 1).y,
        w: side.w,
        h: (side.spec_row(4, 1).h + side.spec_row(4, 2).h) as u32,
    }
}

/// The rectangles of `n` windows in `r`, for `n` up to six: none for no
/// window, all of `r` for one, else the main window in the share `ratio` of
/// the width and the others in the pattern for `n` beside it.
pub open spec fn tatami_rects(ratio: Ratio, n: nat, r: Rect) -> Seq<Rect> {
    if n == 0 {
        Seq::empty()
    } else if n == 1 {
        seq![r]
    } else {
        let split = r.spec_split_at_width(ratio.scaled(r.w as int));
        seq![split.0] + side_mats(n, split.1)
    }
}

/// The placements of the windows `ids` in `r`.
pub open spec fn tatami_placements(ratio: Ratio, ids: Seq<Xid>, r: Rect) -> Seq<(Xid, Rect)> {
    pair_up(ids, tatami_rects(ratio, tatami_count(ids.len()), r))
}

/// Whether the pattern for `n` windows leaves no pixel of a side region of
/// width `side_width` out: every pattern but the one for six windows does,
/// and that one where the width is a multiple of three.
pub open spec fn pattern_fills(n: nat, side_width: int) -> bool {
    n <= 5 || side_width % 3 == 0
}

/// The pattern for six windows lies inside the side region without overlap,
/// and fills it where its width is a multiple of three.
pub proof fn lemma_six_mats(side: Rect)
    requires
        side.wf(),
    ensures
        six_mats(side).len() == 5,
        packed(six_mats(side), side),
        side.w % 3 == 0 ==> covers(six_mats(side), side),
        forall|k: int| 0 <= k < 5 ==> (#[trigger] six_mats(side)[k]).wf(),
{
    let mats = six_mats(side);
    assert forall|i: int, j: int| 0 <= i < j < mats.len() implies (#[trigger] mats[i]).disjoint(
        #[trigger] mats[j],
    ) by {
        assert forall|px: int, py: int|
            !(#[trigger] mats[i].contains(px, py) && mats[j].contains(px, py)) by {}
    }
    if side.w % 3 == 0 {
        assert forall|px: int, py: int| #[trigger] side.contains(px, py) implies exists|i: int|
            0 <= i < mats.len() && #[trigger] mats[i].contains(px, py) by {
            assert(mats[0].contains(px, py) || mats[1].contains(px, py) || mats[2].contains(px, py)
                || mats[3].contains(px, py) || mats[4].contains(px, py));
        }
    }
}

/// The pattern for `n` windows lies inside the side region without overlap
/// and, but for six windows on a width that is no multiple of three, fills
/// it.
pub proof fn lemma_side_mats(n: nat, side: Rect)
    requires
        2 <= n <= 6,
        side.wf(),
    ensures
        side_mats(n, side).len() == n - 1,
        packed(side_mats(n, side), side),
        pattern_fills(n, side.w as int) ==> covers(side_mats(n, side), side),
        forall|k: int| 0 <= k < n - 1 ==> (#[trigger] side_mats(n, side)[k]).wf(),
{
    if n == 2 {
        lemma_tiles_single(side);
    } else if n == 3 {
        lemma_split_at_height(side, side.h as int / 2);
        let rows = side.spec_split_at_height(side.h as int / 2);
        lemma_tiles_pair(side, rows.0, rows.1);
    } else if n == 4 {
        lemma_split_at_height(side, side.h as int / 2);
        let rows = side.spec_split_at_height(side.h as int / 2);
        lemma_split_at_width(rows.1, rows.1.w as int / 2);
        let columns = rows.1.spec_split_at_width(rows.1.w as int / 2);
        lemma_tiles_pair(rows.1, columns.0, columns.1);
        lemma_tiles_single(rows.0);
        lemma_tiles_concat(seq![rows.0], rows.0, seq![columns.0, columns.1], rows.1, side);
        assert(seq![rows.0] + seq![columns.0, columns.1] =~= side_mats(n, side));
    } else if n == 5 {
        let top = side.spec_row(4, 0);
        let bottom = side.spec_row(4, 3);
        let middle = middle_rows(side);
        let upper = Rect { x: side.x, y: side.y, w: side.w, h: (top.h + middle.h) as u32 };
        assert(side.is_split_into(upper, bottom));
        assert(upper.is_split_into(top, middle));
        lemma_split_at_width(middle, middle.w as int / 2);
        let columns = middle.spec_split_at_width(middle.w as int / 2);
        lemma_tiles_pair(middle, columns.0, columns.1);
        lemma_tiles_single(top);
        lemma_tiles_single(bottom);
        lemma_tiles_concat(seq![top], top, seq![columns.0, columns.1], middle, upper);
        lemma_tiles_concat(
            seq![top] + seq![columns.0, columns.1],
            upper,
            seq![bottom],
            bottom,
            side,
        );
        assert((seq![top] + seq![columns.0, columns.1]) + seq![bottom] =~= side_mats(n, side));
    } else {
        lemma_six_mats(side);
    }
}

/// The rectangles of `n` windows, for `n` up to six, lie inside `r` without
/// overlap. They leave no pixel of `r` out, but for six windows where the
/// width beside the main window is no multiple of three.
pub proof fn lemma_tatami_rects(ratio: Ratio, n: nat, r: Rect)
    requires
        ratio.in_unit(),
        r.wf(),
        n <= 6,
    ensures
        tatami_rects(ratio, n, r).len() == n,
        packed(tatami_rects(ratio, n, r), r),
        n >= 1 && pattern_fills(n, r.w - ratio.scaled(r.w as int)) ==> tiles(
            tatami_rects(ratio, n, r),
            r,
        ),
        forall|k: int| 0 <= k < n ==> (#[trigger] tatami_rects(ratio, n, r)[k]).wf(),
{
    if n == 1 {
        lemma_tiles_single(r);
    } else if n >= 2 {
        lemma_scaled_bounds(ratio, r.w as int);
        lemma_split_at_width(r, ratio.scaled(r.w as int));
        let split = r.spec_split_at_width(ratio.scaled(r.w as int));
        lemma_side_mats(n, split.1);
        lemma_tiles_single(split.0);
        lemma_packed_concat(seq![split.0], split.0, side_mats(n, split.1), split.1, r);
        if pattern_fills(n, r.w - ratio.scaled(r.w as int)) {
            lemma_tiles_concat(seq![split.0], split.0, side_mats(n, split.1), split.1, r);
        }
        let rects = tatami_rects(ratio, n, r);
        assert forall|k: int| 0 <= k < n implies (#[trigger] rects[k]).wf() by {
            if k > 0 {
                assert(rects[k] == side_mats(n, split.1)[k - 1]);
            }
        }
    }
}

/// The windows placed are the first six of `ids`, or all where there are
/// fewer, in their order; with no identifier twice in `ids` none is placed
/// twice.
pub proof fn lemma_tatami_valid(ratio: Ratio, ids: Seq<Xid>, r: Rect)
    requires
        ratio.in_unit(),
        r.wf(),
        ids.no_duplicates(),
    ensures
        valid_placements(tatami_placements(ratio, ids, r), ids, r),
        tatami_placements(ratio, ids, r).len() == tatami_count(ids.len()),
        forall|k: int|
            0 <= k < tatami_placements(ratio, ids, r).len() ==> (#[trigger] tatami_placements(
                ratio,
                ids,
                r,
            )[k]).0 == ids[k],
        rects_of(tatami_placements(ratio, ids, r)) == tatami_rects(
            ratio,
            tatami_count(ids.len()),
            r,
        ),
{
    let n = tatami_count(ids.len());
    lemma_tatami_rects(ratio, n, r);
    let placements = tatami_placements(ratio, ids, r);
    let rects = tatami_rects(ratio, n, r);
    assert(rects_of(placements) =~= rects);
    assert forall|k: int| 0 <= k < placements.len() implies (#[trigger] placements[k]).1.within(r)
        && placements[k].1.wf() by {
        assert(rects[k].within(r));
    }
}

impl Default for Tatami {
    /// A ratio of six tenths, steps of one tenth.
    fn default() -> (layout: Self)
        ensures
            layout == (Tatami { ratio: Ratio { millis: 600 }, ratio_step: Ratio { millis: 100 } }),
            layout.inv(),
    {
        Tatami { ratio: Ratio { millis: 600 }, ratio_step: Ratio { millis: 100 } }
    }
}

impl Tatami {
    /// A layout with the given share of the width for the main window and
    /// the given step.
    pub fn new(ratio: Ratio, ratio_step: Ratio) -> (layout: Self)
        ensures
            layout == (Tatami { ratio, ratio_step }),
    {
        Tatami { ratio, ratio_step }
    }

    /// Whether the settings are in order: the ratio is a fraction between
    /// zero and one, and the step is not negative.
    pub fn is_valid(&self) -> (b: bool)
        ensures
            b == self.inv(),
    {
        self.ratio.is_in_unit() && self.ratio_step.millis() >= 0
    }

    /// As `new`, but on the heap.
    pub fn boxed(ratio: Ratio, ratio_step: Ratio) -> (layout: Box<Self>)
        ensures
            *layout == (Tatami { ratio, ratio_step }),
    {
        Box::new(Tatami { ratio, ratio_step })
    }

    /// The rectangles for `n` windows in `r`, for `n` from two to six.
    fn mats(&self, n: usize, r: Rect) -> (rects: Vec<Rect>)
        requires
            self.inv(),
            r.wf(),
            2 <= n <= 6,
        ensures
            rects@ == tatami_rects(self.ratio, n as nat, r),
    {
        proof {
            lemma_scaled_bounds(self.ratio, r.w as int);
        }
        let split = r.split_at_width(self.ratio.of(r.w)).unwrap();
        let main: Rect = split.0;
        let side: Rect = split.1;
        let rects = if n == 2 {
            vec![main, side]
        } else if n == 3 {
            let rows = side.split_at_mid_height();
            vec![main, rows.0, rows.1]
        } else if n == 4 {
            let rows = side.split_at_mid_height();
            let columns = rows.1.split_at_mid_width();
            vec![main, rows.0, columns.0, columns.1]
        } else if n == 5 {
            let rows = side.as_rows(4);
            let mut middle: Rect = rows[1];
            middle.h = middle.h + rows[2].h;
            let columns = middle.split_at_mid_width();
            vec![main, rows[0], columns.0, columns.1, rows[3]]
        } else {
            let third: u32 = side.w / 3;
            let quarter: u32 = main.h / 4;
            let r2 = Rect::new(side.x, side.y, third, side.h - quarter);
            let r3 = Rect::new(r2.x + r2.w, r2.y, r2.w * 2, quarter);
            let r4 = Rect::new(side.x + third, side.y + quarter, third, side.h - 2 * quarter);
            let r5 = Rect::new(side.x + 2 * third, side.y + quarter, third, side.h - quarter);
            let r6 = Rect::new(r2.x, r2.y + r2.h, r2.w * 2, quarter);
            vec![main, r2, r3, r4, r5, r6]
        };
        assert(rects@ =~= tatami_rects(self.ratio, n as nat, r));
        rects
    }
}

impl Layout for Tatami {
    /// The ratio is a fraction between zero and one, and the step is not
    /// negative.
    open spec fn inv(&self) -> bool {
        &&& self.ratio.in_unit()
        &&& self.ratio_step.millis >= 0
    }

    open spec fn placements(&self, s: Stack, r: Rect) -> Seq<(Xid, Rect)> {
        tatami_placements(self.ratio, s@, r)
    }

    open spec fn after_layout(&self, s: Stack, r: Rect) -> Self {
        *self
    }

    open spec fn layout_replaces(&self, s: Stack, r: Rect) -> bool {
        false
    }

    open spec fn recognizes(&self, m: Message) -> bool {
        m.resizes_main()
    }

    open spec fn message_replaces(&self, m: Message) -> bool {
        false
    }

    open spec fn after_message(&self, m: Message) -> Self {
        match m {
            Message::ExpandMain => Tatami {
                ratio: self.ratio.spec_raised_by(self.ratio_step),
                ratio_step: self.ratio_step,
            },
            Message::ShrinkMain => Tatami {
                ratio: self.ratio.spec_lowered_by(self.ratio_step),
                ratio_step: self.ratio_step,
            },
            Message::Custom(_) => *self,
        }
    }

    fn name(&self) -> (label: String)
        ensures
            label@ == "|+|"@,
    {
        "|+|".to_owned()
    }

    fn boxed_clone(&self) -> (copy: Box<Self>) {
        Box::new(*self)
    }

    /// Places the first six windows, or all where there are fewer, in the
    /// pattern for their number. The windows after the sixth are left out.
    fn layout(&mut self, s: &Stack, r: Rect) -> (res: (Option<Self>, Vec<(Xid, Rect)>))
        ensures
            res.0 is None,
            *final(self) == *old(self),
            res.1@.len() == tatami_count(s@.len()),
            forall|k: int| 0 <= k < res.1@.len() ==> (#[trigger] res.1@[k]).0 == s@[k],
            packed(rects_of(res.1@), r),
            s@.len() >= 1 && pattern_fills(
                tatami_count(s@.len()),
                r.w - old(self).ratio.scaled(r.w as int),
            ) ==> tiles(rects_of(res.1@), r),
    {
        let ids = s.ids();
        let n: usize = if ids.len() <= TATAMI_CAPACITY {
            ids.len()
        } else {
            TATAMI_CAPACITY
        };
        let rects: Vec<Rect> = if n == 0 {
            Vec::new()
        } else if n == 1 {
            vec![r]
        } else {
            self.mats(n, r)
        };
        assert(rects@ =~= tatami_rects(self.ratio, n as nat, r));
        proof {
            lemma_tatami_rects(self.ratio, n as nat, r);
            lemma_tatami_valid(self.ratio, s@, r);
        }
        (None, zip_placements(ids, &rects))
    }

    /// `ExpandMain` raises the ratio by the step, up to one; `ShrinkMain`
    /// lowers it by the step, down to zero; any other command changes
    /// nothing. There is never a replacement.
    fn handle_message(&mut self, m: &Message) -> (res: Option<Self>)
        ensures
            res is None,
    {
        proof {
            lemma_adjusted_stays_in_unit(self.ratio, self.ratio_step);
        }
        match m {
            Message::ExpandMain => {
                self.ratio = self.ratio.raised_by(self.ratio_step);
            },
            Message::ShrinkMain => {
                self.ratio = self.ratio.lowered_by(self.ratio_step);
            },
            Message::Custom(_) => {},
        }
        None
    }
}

/// Whatever commands a layout with a ratio between zero and one and a step
/// that is not negative handles, one after the other, its ratio stays
/// between zero and one, and the step stays as it was.
pub proof fn lemma_tatami_ratio_bounded(layout: Tatami, msgs: Seq<Message>)
    requires
        layout.inv(),
    ensures
        after_messages(layout, msgs).inv(),
        after_messages(layout, msgs).ratio.in_unit(),
        after_messages(layout, msgs).ratio_step == layout.ratio_step,
    decreases msgs.len(),
{
    if msgs.len() > 0 {
        lemma_tatami_ratio_bounded(layout, msgs.drop_last());
        let before = after_messages(layout, msgs.drop_last());
        lemma_adjusted_stays_in_unit(before.ratio, before.ratio_step);
    }
}

} // verus!
