//! Axis-aligned pixel rectangles and the ways to cut them up.

use vstd::prelude::*;
use crate::ratio::Ratio;

verus! {

/// Why a rectangle could not be split.
#[derive(Debug, Clone, Copy, PartialEq, Eq, Hash, Structural)]
pub enum SplitError {
    /// The fraction to split at is not between zero and one.
    InvalidRatio,
    /// The length to split at is larger than the rectangle.
    InvalidSplit,
}

/// A rectangle of pixels: its top left corner, its width and its height.
#[derive(Debug, Clone, Copy, PartialEq, Eq, Hash, Structural)]
pub struct Rect {
    pub x: u32,
    pub y: u32,
    pub w: u32,
    pub h: u32,
}

/// Where segment `i` begins when a length is cut into `n` segments.
pub open spec fn segment_start(len: int, n: int, i: int) -> int {
    i * (len / n)
}

/// How long segment `i` is when a length is cut into `n` segments: `len / n`,
/// and for the last segment whatever is left.
pub open spec fn segment_len(len: int, n: int, i: int) -> int {
    if i == n - 1 {
        len - (n - 1) * (len / n)
    } else {
        len / n
    }
}

/// Whether every one of `parts` lies inside `whole`.
pub open spec fn all_within(parts: Seq<Rect>, whole: Rect) -> bool {
    forall|i: int| 0 <= i < parts.len() ==> (#[trigger] parts[i]).within(whole)
}

/// Whether no two of `parts` share a pixel.
pub open spec fn pairwise_disjoint(parts: Seq<Rect>) -> bool {
    forall|i: int, j: int|
        0 <= i < j < parts.len() ==> (#[trigger] parts[i]).disjoint(#[trigger] parts[j])
}

/// Whether every pixel of `whole` lies in one of `parts`.
pub open spec fn covers(parts: Seq<Rect>, whole: Rect) -> bool {
    forall|px: int, py: int| #[trigger]
        whole.contains(px, py) ==> exists|i: int|
            0 <= i < parts.len() && #[trigger] parts[i].contains(px, py)
}

/// Whether `parts` lie side by side in `whole`: each lies inside it and no
/// two overlap.
pub open spec fn packed(parts: Seq<Rect>, whole: Rect) -> bool {
    &&& all_within(parts, whole)
    &&& pairwise_disjoint(parts)
}

/// Whether `parts` cut `whole` up: each lies inside it, no two overlap, and
/// no pixel of it is left out. The union of the parts is then `whole`.
pub open spec fn tiles(parts: Seq<Rect>, whole: Rect) -> bool {
    &&& packed(parts, whole)
    &&& covers(parts, whole)
}

impl Rect {
    /// The far edges are coordinates too: they fit in a `u32`.
    pub open spec fn wf(self) -> bool {
        &&& self.x + self.w <= u32::MAX
        &&& self.y + self.h <= u32::MAX
    }

    /// Whether the pixel at (`px`, `py`) belongs to the rectangle.
    pub open spec fn contains(self, px: int, py: int) -> bool {
        &&& self.x <= px < self.x + self.w
        &&& self.y <= py < self.y + self.h
    }

    /// The pixels of the rectangle.
    pub open spec fn pixels(self) -> Set<(int, int)> {
        Set::new(|p: (int, int)| self.contains(p.0, p.1))
    }

    /// Whether the rectangle lies inside `outer`, edges included.
    pub open spec fn within(self, outer: Rect) -> bool {
        &&& outer.x <= self.x
        &&& self.x + self.w <= outer.x + outer.w
        &&& outer.y <= self.y
        &&& self.y + self.h <= outer.y + outer.h
    }

    /// Whether the two rectangles share no pixel.
    pub open spec fn disjoint(self, other: Rect) -> bool {
        forall|px: int, py: int| !(#[trigger] self.contains(px, py) && other.contains(px, py))
    }

    /// Whether `first` and `second` together are exactly this rectangle:
    /// every pixel of it lies in one of them, and none lies in both or outside.
    pub open spec fn is_split_into(self, first: Rect, second: Rect) -> bool {
        &&& first.within(self)
        &&& second.within(self)
        &&& first.disjoint(second)
        &&& forall|px: int, py: int| #[trigger]
            self.contains(px, py) ==> first.contains(px, py) || second.contains(px, py)
    }

    /// The left part of width `at` and what is right of it.
    pub open spec fn spec_split_at_width(self, at: int) -> (Rect, Rect) {
        (
            Rect { x: self.x, y: self.y, w: at as u32, h: self.h },
            Rect { x: (self.x + at) as u32, y: self.y, w: (self.w - at) as u32, h: self.h },
        )
    }

    /// The top part of height `at` and what is below it.
    pub open spec fn spec_split_at_height(self, at: int) -> (Rect, Rect) {
        (
            Rect { x: self.x, y: self.y, w: self.w, h: at as u32 },
            Rect { x: self.x, y: (self.y + at) as u32, w: self.w, h: (self.h - at) as u32 },
        )
    }

    /// Row `i` of `n`: each row is `h / n` high, the last one takes the
    /// pixels that are left over.
    pub open spec fn spec_row(self, n: int, i: int) -> Rect {
        Rect {
            x: self.x,
            y: (self.y + segment_start(self.h as int, n, i)) as u32,
            w: self.w,
            h: segment_len(self.h as int, n, i) as u32,
        }
    }

    /// Column `i` of `n`: each column is `w / n` wide, the last one takes the
    /// pixels that are left over.
    pub open spec fn spec_column(self, n: int, i: int) -> Rect {
        Rect {
            x: (self.x + segment_start(self.w as int, n, i)) as u32,
            y: self.y,
            w: segment_len(self.w as int, n, i) as u32,
            h: self.h,
        }
    }

    /// The `n` rows from top to bottom.
    pub open spec fn spec_rows(self, n: int) -> Seq<Rect> {
        Seq::new(n as nat, |i: int| self.spec_row(n, i))
    }

    /// The `n` columns from left to right.
    pub open spec fn spec_columns(self, n: int) -> Seq<Rect> {
        Seq::new(n as nat, |i: int| self.spec_column(n, i))
    }

    /// The rectangle with the given corner and size.
    pub fn new(x: u32, y: u32, w: u32, h: u32) -> (r: Rect)
        ensures
            r == (Rect { x, y, w, h }),
    {
        Rect { x, y, w, h }
    }

    /// Whether the far edges of the rectangle are coordinates: whether
    /// `x + w` and `y + h` fit in a `u32`.
    pub fn is_wf(&self) -> (b: bool)
        ensures
            b == self.wf(),
    {
        self.w <= u32::MAX - self.x && self.h <= u32::MAX - self.y
    }

    /// Splits at `new_width` pixels from the left edge. The first part keeps
    /// the corner. Fails if the rectangle is narrower than `new_width`.
    pub fn split_at_width(&self, new_width: u32) -> (res: Result<(Rect, Rect), SplitError>)
        requires
            self.wf(),
        ensures
            new_width <= self.w ==> res == Ok::<(Rect, Rect), SplitError>(
                self.spec_split_at_width(new_width as int),
            ),
            new_width > self.w ==> res == Err::<(Rect, Rect), SplitError>(SplitError::InvalidSplit),
            res matches Ok(parts) ==> self.is_split_into(parts.0, parts.1) && parts.0.wf()
                && parts.1.wf(),
    {
        if new_width > self.w {
            Err(SplitError::InvalidSplit)
        } else {
            proof {
                lemma_split_at_width(*self, new_width as int);
            }
            Ok(
                (
                    Rect { x: self.x, y: self.y, w: new_width, h: self.h },
                    Rect {
                        x: self.x + new_width,
                        y: self.y,
                        w: self.w - new_width,
                        h: self.h,
                    },
                ),
            )
        }
    }

    /// Splits at `new_height` pixels from the top edge. The first part keeps
    /// the corner. Fails if the rectangle is lower than `new_height`.
    pub fn split_at_height(&self, new_height: u32) -> (res: Result<(Rect, Rect), SplitError>)
        requires
            self.wf(),
        ensures
            new_height <= self.h ==> res == Ok::<(Rect, Rect), SplitError>(
                self.spec_split_at_height(new_height as int),
            ),
            new_height > self.h ==> res == Err::<(Rect, Rect), SplitError>(
                SplitError::InvalidSplit,
            ),
            res matches Ok(parts) ==> self.is_split_into(parts.0, parts.1) && parts.0.wf()
                && parts.1.wf(),
    {
        if new_height > self.h {
            Err(SplitError::InvalidSplit)
        } else {
            proof {
                lemma_split_at_height(*self, new_height as int);
            }
            Ok(
                (
                    Rect { x: self.x, y: self.y, w: self.w, h: new_height },
                    Rect {
                        x: self.x,
                        y: self.y + new_height,
                        w: self.w,
                        h: self.h - new_height,
                    },
                ),
            )
        }
    }

    /// Splits at the fraction `p` of the width, rounded down. Fails if `p` is
    /// not between zero and one.
    pub fn split_at_width_perc(&self, p: Ratio) -> (res: Result<(Rect, Rect), SplitError>)
        requires
            self.wf(),
        ensures
            p.in_unit() ==> res == Ok::<(Rect, Rect), SplitError>(
                self.spec_split_at_width(p.scaled(self.w as int)),
            ),
            !p.in_unit() ==> res == Err::<(Rect, Rect), SplitError>(SplitError::InvalidRatio),
            res matches Ok(parts) ==> self.is_split_into(parts.0, parts.1) && parts.0.wf()
                && parts.1.wf(),
    {
        if !p.is_in_unit() {
            Err(SplitError::InvalidRatio)
        } else {
            self.split_at_width(p.of(self.w))
        }
    }

    /// Splits at the fraction `p` of the height, rounded down. Fails if `p`
    /// is not between zero and one.
    pub fn split_at_height_perc(&self, p: Ratio) -> (res: Result<(Rect, Rect), SplitError>)
        requires
            self.wf(),
        ensures
            p.in_unit() ==> res == Ok::<(Rect, Rect), SplitError>(
                self.spec_split_at_height(p.scaled(self.h as int)),
            ),
            !p.in_unit() ==> res == Err::<(Rect, Rect), SplitError>(SplitError::InvalidRatio),
            res matches Ok(parts) ==> self.is_split_into(parts.0, parts.1) && parts.0.wf()
                && parts.1.wf(),
    {
        if !p.is_in_unit() {
            Err(SplitError::InvalidRatio)
        } else {
            self.split_at_height(p.of(self.h))
        }
    }

    /// Splits into a left and a right half; the right one is the wider where
    /// the width is odd.
    pub fn split_at_mid_width(&self) -> (parts: (Rect, Rect))
        requires
            self.wf(),
        ensures
            parts == self.spec_split_at_width(self.w as int / 2),
            self.is_split_into(parts.0, parts.1),
            parts.0.wf(),
            parts.1.wf(),
    {
        let half: u32 = self.w / 2;
        proof {
            lemma_split_at_width(*self, half as int);
        }
        (
            Rect { x: self.x, y: self.y, w: half, h: self.h },
            Rect { x: self.x + half, y: self.y, w: self.w - half, h: self.h },
        )
    }

    /// Splits into an upper and a lower half; the lower one is the higher
    /// where the height is odd.
    pub fn split_at_mid_height(&self) -> (parts: (Rect, Rect))
        requires
            self.wf(),
        ensures
            parts == self.spec_split_at_height(self.h as int / 2),
            self.is_split_into(parts.0, parts.1),
            parts.0.wf(),
            parts.1.wf(),
    {
        let half: u32 = self.h / 2;
        proof {
            lemma_split_at_height(*self, half as int);
        }
        (
            Rect { x: self.x, y: self.y, w: self.w, h: half },
            Rect { x: self.x, y: self.y + half, w: self.w, h: self.h - half },
        )
    }

    /// Cuts the rectangle into `n_rows` rows of equal height, from top to
    /// bottom. Where the height is no multiple of `n_rows`, the last row
    /// takes the pixels that are left over.
    pub fn as_rows(&self, n_rows: u32) -> (rows: Vec<Rect>)
        requires
            self.wf(),
            n_rows >= 1,
        ensures
            rows@ == self.spec_rows(n_rows as int),
            tiles(rows@, *self),
            forall|i: int| 0 <= i < rows@.len() ==> (#[trigger] rows@[i]).wf(),
    {
        let each: u32 = self.h / n_rows;
        let mut rows: Vec<Rect> = Vec::new();
        let mut i: u32 = 0;
        while i < n_rows
            invariant
                self.wf(),
                n_rows >= 1,
                each == self.h / n_rows,
                i <= n_rows,
                rows@.len() == i,
                forall|k: int| 0 <= k < i ==> #[trigger] rows@[k] == self.spec_row(n_rows as int, k),
            decreases n_rows - i,
        {
            proof {
                lemma_segment_inside(self.h as int, n_rows as int, i as int);
            }
            let offset: u32 = i * each;
            let height: u32 = if i == n_rows - 1 {
                self.h - offset
            } else {
                each
            };
            rows.push(Rect { x: self.x, y: self.y + offset, w: self.w, h: height });
            i += 1;
        }
        proof {
            assert(rows@ =~= self.spec_rows(n_rows as int));
            lemma_rows_tile(*self, n_rows as int);
        }
        rows
    }

    /// Cuts the rectangle into `n_columns` columns of equal width, from left
    /// to right. Where the width is no multiple of `n_columns`, the last
    /// column takes the pixels that are left over.
    pub fn as_columns(&self, n_columns: u32) -> (columns: Vec<Rect>)
        requires
            self.wf(),
            n_columns >= 1,
        ensures
            columns@ == self.spec_columns(n_columns as int),
            tiles(columns@, *self),
            forall|i: int| 0 <= i < columns@.len() ==> (#[trigger] columns@[i]).wf(),
    {
        let each: u32 = self.w / n_columns;
        let mut columns: Vec<Rect> = Vec::new();
        let mut i: u32 = 0;
        while i < n_columns
            invariant
                self.wf(),
                n_columns >= 1,
                each == self.w / n_columns,
                i <= n_columns,
                columns@.len() == i,
                forall|k: int|
                    0 <= k < i ==> #[trigger] columns@[k] == self.spec_column(n_columns as int, k),
            decreases n_columns - i,
        {
            proof {
                lemma_segment_inside(self.w as int, n_columns as int, i as int);
            }
            let offset: u32 = i * each;
            let width: u32 = if i == n_columns - 1 {
                self.w - offset
            } else {
                each
            };
            columns.push(Rect { x: self.x + offset, y: self.y, w: width, h: self.h });
            i += 1;
        }
        proof {
            assert(columns@ =~= self.spec_columns(n_columns as int));
            lemma_columns_tile(*self, n_columns as int);
        }
        columns
    }
}

/// Cutting a rectangle at a width that it has gives two rectangles that
/// together are the rectangle, and share nothing.
pub proof fn lemma_split_at_width(r: Rect, at: int)
    requires
        r.wf(),
        0 <= at <= r.w,
    ensures
        r.is_split_into(r.spec_split_at_width(at).0, r.spec_split_at_width(at).1),
        r.spec_split_at_width(at).0.wf(),
        r.spec_split_at_width(at).1.wf(),
        r.spec_split_at_width(at).0.pixels().union(r.spec_split_at_width(at).1.pixels())
            == r.pixels(),
        r.spec_split_at_width(at).0.pixels().disjoint(r.spec_split_at_width(at).1.pixels()),
{
    let (a, b) = r.spec_split_at_width(at);
    assert(a.pixels().union(b.pixels()) =~= r.pixels());
}

/// Cutting a rectangle at a height that it has gives two rectangles that
/// together are the rectangle, and share nothing.
pub proof fn lemma_split_at_height(r: Rect, at: int)
    requires
        r.wf(),
        0 <= at <= r.h,
    ensures
        r.is_split_into(r.spec_split_at_height(at).0, r.spec_split_at_height(at).1),
        r.spec_split_at_height(at).0.wf(),
        r.spec_split_at_height(at).1.wf(),
        r.spec_split_at_height(at).0.pixels().union(r.spec_split_at_height(at).1.pixels())
            == r.pixels(),
        r.spec_split_at_height(at).0.pixels().disjoint(r.spec_split_at_height(at).1.pixels()),
{
    let (a, b) = r.spec_split_at_height(at);
    assert(a.pixels().union(b.pixels()) =~= r.pixels());
}

/// A single rectangle cuts itself up.
pub proof fn lemma_tiles_single(r: Rect)
    ensures
        tiles(seq![r], r),
{
    assert forall|px: int, py: int| #[trigger] r.contains(px, py) implies exists|i: int|
        0 <= i < seq![r].len() && #[trigger] seq![r][i].contains(px, py) by {
        assert(seq![r][0].contains(px, py));
    }
}

/// Where `whole` is split into `left` and `right`, parts packed in `left`
/// followed by parts packed in `right` are packed in `whole`.
pub proof fn lemma_packed_concat(
    first: Seq<Rect>,
    left: Rect,
    second: Seq<Rect>,
    right: Rect,
    whole: Rect,
)
    requires
        whole.is_split_into(left, right),
        packed(first, left),
        packed(second, right),
    ensures
        packed(first + second, whole),
{
    let parts = first + second;
    let n = first.len() as int;
    assert forall|i: int| 0 <= i < parts.len() implies (#[trigger] parts[i]).within(whole) by {
        if i < n {
            assert(parts[i] == first[i]);
            assert(first[i].within(left));
        } else {
            assert(parts[i] == second[i - n]);
            assert(second[i - n].within(right));
        }
    }
    assert forall|i: int, j: int| 0 <= i < j < parts.len() implies (#[trigger] parts[i]).disjoint(
        #[trigger] parts[j],
    ) by {
        if j < n {
            assert(parts[i] == first[i] && parts[j] == first[j]);
            assert(first[i].disjoint(first[j]));
        } else if i >= n {
            assert(parts[i] == second[i - n] && parts[j] == second[j - n]);
            assert(second[i - n].disjoint(second[j - n]));
        } else {
            assert(parts[i] == first[i] && parts[j] == second[j - n]);
            assert(first[i].within(left));
            assert(second[j - n].within(right));
            assert forall|px: int, py: int|
                !(#[trigger] parts[i].contains(px, py) && parts[j].contains(px, py)) by {
                if parts[i].contains(px, py) && parts[j].contains(px, py) {
                    assert(left.contains(px, py));
                    assert(right.contains(px, py));
                }
            }
        }
    }
}

/// Where `whole` is split into `left` and `right`, parts that cut `left` up
/// followed by parts that cut `right` up cut `whole` up.
pub proof fn lemma_tiles_concat(
    first: Seq<Rect>,
    left: Rect,
    second: Seq<Rect>,
    right: Rect,
    whole: Rect,
)
    requires
        whole.is_split_into(left, right),
        tiles(first, left),
        tiles(second, right),
    ensures
        tiles(first + second, whole),
{
    lemma_packed_concat(first, left, second, right, whole);
    let parts = first + second;
    let n = first.len() as int;
    assert forall|px: int, py: int| #[trigger] whole.contains(px, py) implies exists|i: int|
        0 <= i < parts.len() && #[trigger] parts[i].contains(px, py) by {
        if left.contains(px, py) {
            let k = choose|k: int| 0 <= k < first.len() && #[trigger] first[k].contains(px, py);
            assert(parts[k] == first[k]);
            assert(parts[k].contains(px, py));
        } else {
            assert(right.contains(px, py));
            let k = choose|k: int| 0 <= k < second.len() && #[trigger] second[k].contains(px, py);
            assert(parts[k + n] == second[k]);
            assert(parts[k + n].contains(px, py));
        }
    }
}

/// A rectangle split in two is cut up by the two parts.
pub proof fn lemma_tiles_pair(whole: Rect, first: Rect, second: Rect)
    requires
        whole.is_split_into(first, second),
    ensures
        tiles(seq![first, second], whole),
{
    lemma_tiles_single(first);
    lemma_tiles_single(second);
    lemma_tiles_concat(seq![first], first, seq![second], second, whole);
    assert(seq![first] + seq![second] =~= seq![first, second]);
}

/// Where `whole` is split into `first` and `rest_whole`, and `rest` cut
/// `rest_whole` up, `first` followed by `rest` cut `whole` up.
pub proof fn lemma_tiles_prepend(first: Rect, rest: Seq<Rect>, rest_whole: Rect, whole: Rect)
    requires
        whole.is_split_into(first, rest_whole),
        tiles(rest, rest_whole),
    ensures
        tiles(seq![first] + rest, whole),
{
    lemma_tiles_single(first);
    lemma_tiles_concat(seq![first], first, rest, rest_whole, whole);
}

/// Segment `i` of `n` lies inside the length that was cut.
pub proof fn lemma_segment_inside(len: int, n: int, i: int)
    requires
        0 <= len,
        1 <= n,
        0 <= i < n,
    ensures
        0 <= segment_start(len, n, i),
        0 <= segment_len(len, n, i),
        segment_start(len, n, i) + segment_len(len, n, i) <= len,
        i == n - 1 ==> segment_start(len, n, i) + segment_len(len, n, i) == len,
{
    let each = len / n;
    assert(0 <= each && n * each <= len) by (nonlinear_arith)
        requires
            0 <= len,
            1 <= n,
            each == len / n,
    ;
    assert(0 <= i * each && (i + 1) * each <= n * each && (i + 1) * each == i * each + each)
        by (nonlinear_arith)
        requires
            0 <= each,
            0 <= i < n,
    ;
}

/// An earlier segment ends where a later one begins, or before.
pub proof fn lemma_segment_order(len: int, n: int, i: int, j: int)
    requires
        0 <= len,
        1 <= n,
        0 <= i < j < n,
    ensures
        segment_start(len, n, i) + segment_len(len, n, i) <= segment_start(len, n, j),
{
    let each = len / n;
    assert(0 <= each) by (nonlinear_arith)
        requires
            0 <= len,
            1 <= n,
            each == len / n,
    ;
    assert(i * each + each <= j * each) by (nonlinear_arith)
        requires
            0 <= each,
            i + 1 <= j,
    ;
}

/// Every point of the length lies in one of the segments.
pub proof fn lemma_segment_find(len: int, n: int, d: int) -> (i: int)
    requires
        1 <= n,
        0 <= d < len,
    ensures
        0 <= i < n,
        segment_start(len, n, i) <= d < segment_start(len, n, i) + segment_len(len, n, i),
{
    let each = len / n;
    assert(0 <= each) by (nonlinear_arith)
        requires
            0 <= len,
            1 <= n,
            each == len / n,
    ;
    if each == 0 {
        lemma_segment_inside(len, n, n - 1);
        assert((n - 1) * each == 0) by (nonlinear_arith)
            requires
                each == 0,
        ;
        n - 1
    } else {
        let k = d / each;
        assert(0 <= k && k * each <= d < k * each + each) by (nonlinear_arith)
            requires
                0 < each,
                0 <= d,
                k == d / each,
        ;
        if k >= n - 1 {
            lemma_segment_inside(len, n, n - 1);
            assert((n - 1) * each <= k * each) by (nonlinear_arith)
                requires
                    0 < each,
                    n - 1 <= k,
            ;
            n - 1
        } else {
            k
        }
    }
}

/// The rows of a rectangle cut it up.
pub proof fn lemma_rows_tile(r: Rect, n: int)
    requires
        r.wf(),
        1 <= n,
    ensures
        tiles(r.spec_rows(n), r),
        forall|i: int| 0 <= i < n ==> (#[trigger] r.spec_rows(n)[i]).wf(),
{
    let rows = r.spec_rows(n);
    assert forall|i: int| 0 <= i < rows.len() implies (#[trigger] rows[i]).within(r)
        && rows[i].wf() by {
        lemma_segment_inside(r.h as int, n, i);
    }
    assert forall|i: int, j: int| 0 <= i < j < rows.len() implies (#[trigger] rows[i]).disjoint(
        #[trigger] rows[j],
    ) by {
        lemma_segment_inside(r.h as int, n, i);
        lemma_segment_inside(r.h as int, n, j);
        lemma_segment_order(r.h as int, n, i, j);
    }
    assert forall|px: int, py: int| #[trigger] r.contains(px, py) implies exists|i: int|
        0 <= i < rows.len() && #[trigger] rows[i].contains(px, py) by {
        let i = lemma_segment_find(r.h as int, n, py - r.y);
        lemma_segment_inside(r.h as int, n, i);
        assert(rows[i].contains(px, py));
    }
}

/// The columns of a rectangle cut it up.
pub proof fn lemma_columns_tile(r: Rect, n: int)
    requires
        r.wf(),
        1 <= n,
    ensures
        tiles(r.spec_columns(n), r),
        forall|i: int| 0 <= i < n ==> (#[trigger] r.spec_columns(n)[i]).wf(),
{
    let columns = r.spec_columns(n);
    assert forall|i: int| 0 <= i < columns.len() implies (#[trigger] columns[i]).within(r)
        && columns[i].wf() by {
        lemma_segment_inside(r.w as int, n, i);
    }
    assert forall|i: int, j: int| 0 <= i < j < columns.len() implies (
    #[trigger] columns[i]).disjoint(#[trigger] columns[j]) by {
        lemma_segment_inside(r.w as int, n, i);
        lemma_segment_inside(r.w as int, n, j);
        lemma_segment_order(r.w as int, n, i, j);
    }
    assert forall|px: int, py: int| #[trigger] r.contains(px, py) implies exists|i: int|
        0 <= i < columns.len() && #[trigger] columns[i].contains(px, py) by {
        let i = lemma_segment_find(r.w as int, n, px - r.x);
        lemma_segment_inside(r.w as int, n, i);
        assert(columns[i].contains(px, py));
    }
}

} // verus!
