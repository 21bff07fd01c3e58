//! Grayscale pictures: rectangles of them, and counts over their pixels.
use crate::geometry::BBox;
use vstd::arithmetic::div_mod::{lemma_fundamental_div_mod_converse, lemma_fundamental_div_mod};
use vstd::prelude::*;

verus! {

/// A rectangle of whole pixels: columns `x1` up to `x2`, rows `y1` up to `y2`, the upper ends
/// not included.
#[derive(Debug, Clone, Copy, PartialEq, Eq, Structural)]
pub struct Region {
    pub x1: u32,
    pub y1: u32,
    pub x2: u32,
    pub y2: u32,
}

pub open spec fn min_of(a: int, b: int) -> int {
    if a < b {
        a
    } else {
        b
    }
}

/// `a - b`, or nothing where `b` is more than `a`.
pub open spec fn monus(a: int, b: int) -> nat {
    if a > b {
        (a - b) as nat
    } else {
        0
    }
}

impl Region {
    /// Columns of the region.
    pub open spec fn width(self) -> nat {
        monus(self.x2 as int, self.x1 as int)
    }

    /// Rows of the region.
    pub open spec fn height(self) -> nat {
        monus(self.y2 as int, self.y1 as int)
    }

    /// Whether the region lies in a picture of the given width and number of rows.
    pub open spec fn fits(self, width: int, rows: int) -> bool {
        &&& self.x2 <= width || self.x2 <= self.x1
        &&& self.y2 <= rows || self.y2 <= self.y1
    }

    /// The part of a picture that a face's rectangle covers, its corners rounded towards zero.
    /// The first column and row lie in the picture even where the rectangle does not.
    pub open spec fn spec_of_face(bbox: BBox, width: u32, height: u32) -> Region {
        Region {
            x1: min_of(bbox.x1.spec_truncate(), monus(width as int, 1) as int) as u32,
            y1: min_of(bbox.y1.spec_truncate(), monus(height as int, 1) as int) as u32,
            x2: min_of(bbox.x2.spec_truncate(), width as int) as u32,
            y2: min_of(bbox.y2.spec_truncate(), height as int) as u32,
        }
    }

    /// The part of a picture that a face's rectangle covers.
    pub fn of_face(bbox: &BBox, width: u32, height: u32) -> (r: Region)
        ensures
            r == Region::spec_of_face(*bbox, width, height),
            r.fits(width as int, height as int),
    {
        let last_col: u32 = if width > 0 {
            width - 1
        } else {
            0
        };
        let last_row: u32 = if height > 0 {
            height - 1
        } else {
            0
        };
        let x1: u32 = bbox.x1.truncate();
        let y1: u32 = bbox.y1.truncate();
        let x2: u32 = bbox.x2.truncate();
        let y2: u32 = bbox.y2.truncate();
        Region {
            x1: if x1 < last_col {
                x1
            } else {
                last_col
            },
            y1: if y1 < last_row {
                y1
            } else {
                last_row
            },
            x2: if x2 < width {
                x2
            } else {
                width
            },
            y2: if y2 < height {
                y2
            } else {
                height
            },
        }
    }
}

/// The pixel in the given row and column of a picture.
pub open spec fn pixel<T>(data: Seq<T>, width: int, row: int, col: int) -> T {
    data[row * width + col]
}

/// The pixels of a region, row by row.
pub open spec fn region_pixels(data: Seq<u8>, width: int, r: Region) -> Seq<u8> {
    Seq::new(
        r.width() * r.height(),
        |k: int| pixel(data, width, r.y1 + k / (r.width() as int), r.x1 + k % (r.width() as int)),
    )
}

/// How often `v` occurs.
pub open spec fn occurrences(s: Seq<u8>, v: u8) -> nat
    decreases s.len(),
{
    if s.len() == 0 {
        0
    } else {
        occurrences(s.drop_last(), v) + if s.last() == v {
            1nat
        } else {
            0nat
        }
    }
}

/// How many entries exceed the bound.
pub open spec fn above(s: Seq<u8>, bound: u8) -> nat
    decreases s.len(),
{
    if s.len() == 0 {
        0
    } else {
        above(s.drop_last(), bound) + if s.last() > bound {
            1nat
        } else {
            0nat
        }
    }
}

/// The sum of the numbers.
pub open spec fn total(s: Seq<u32>) -> nat
    decreases s.len(),
{
    if s.len() == 0 {
        0
    } else {
        total(s.drop_last()) + s.last() as nat
    }
}

/// Whether `h` counts, for each of the 256 values, how often it occurs in `s`.
pub open spec fn is_histogram(h: Seq<u32>, s: Seq<u8>) -> bool {
    h.len() == 256 && forall|v: int| 0 <= v < 256 ==> #[trigger] h[v] == occurrences(s, v as u8)
}

/// A place in a rectangle, counted row by row, gives back its row and column.
pub proof fn lemma_place(row: int, col: int, width: int)
    requires
        0 <= col < width,
        0 <= row,
    ensures
        (row * width + col) / width == row,
        (row * width + col) % width == col,
{
    assert(row * width == width * row) by (nonlinear_arith);
    lemma_fundamental_div_mod_converse(row * width + col, width, row, col);
}

/// The row and column of a place in a rectangle lie in the rectangle.
pub proof fn lemma_in_rectangle(k: int, width: int, height: int)
    requires
        0 <= k < width * height,
        0 < width,
    ensures
        0 <= k / width < height,
        0 <= k % width < width,
        k == (k / width) * width + k % width,
{
    lemma_fundamental_div_mod(k, width);
    assert(k == (k / width) * width + k % width && 0 <= k / width < height) by (nonlinear_arith)
        requires
            0 <= k < width * height,
            0 < width,
            k == width * (k / width) + k % width,
            0 <= k % width < width,
    ;
}

/// A pixel of a picture lies in its data.
pub proof fn lemma_index_bound(row: int, col: int, width: int, height: int, len: int)
    requires
        0 <= row < height,
        0 <= col < width,
        width * height <= len,
    ensures
        0 <= row * width + col < len,
{
    assert(0 <= row * width && row * width + width <= width * height) by (nonlinear_arith)
        requires
            0 <= row < height,
            0 <= width,
    ;
}

/// Copies the pixels of a region, row by row.
pub fn extract(data: &Vec<u8>, width: u32, rows: u32, r: &Region) -> (out: Vec<u8>)
    requires
        width * rows <= data@.len(),
        width * rows <= u32::MAX,
        r.fits(width as int, rows as int),
    ensures
        out@ == region_pixels(data@, width as int, *r),
        out@.len() <= width * rows,
{
    let mut out: Vec<u8> = Vec::new();
    let ghost w = r.width() as int;
    let ghost want = region_pixels(data@, width as int, *r);
    proof {
        lemma_region_small(*r, width as int, rows as int);
    }
    if r.x2 <= r.x1 || r.y2 <= r.y1 {
        assert(w * r.height() == 0) by (nonlinear_arith)
            requires
                w == 0 || r.height() == 0,
        ;
        assert(out@ == want);
        return out;
    }
    let mut row: u32 = r.y1;
    while row < r.y2
        invariant
            r.x1 < r.x2 <= width,
            r.y1 <= row <= r.y2 <= rows,
            width * rows <= data@.len(),
            width * rows <= u32::MAX,
            w == r.x2 - r.x1,
            want == region_pixels(data@, width as int, *r),
            want.len() == w * (r.y2 - r.y1),
            out@.len() == w * (row - r.y1),
            forall|k: int| 0 <= k < out@.len() ==> out@[k] == want[k],
        decreases r.y2 - row,
    {
        let mut col: u32 = r.x1;
        assert(w * (row - r.y1) + w == w * (row + 1 - r.y1)) by (nonlinear_arith);
        assert(w * (row + 1 - r.y1) <= w * (r.y2 - r.y1)) by (nonlinear_arith)
            requires
                row + 1 <= r.y2,
                0 <= w,
        ;
        while col < r.x2
            invariant
                r.x1 <= col <= r.x2 <= width,
                r.y1 <= row < r.y2 <= rows,
                width * rows <= data@.len(),
                width * rows <= u32::MAX,
                w == r.x2 - r.x1,
                w > 0,
                want == region_pixels(data@, width as int, *r),
                want.len() == w * (r.y2 - r.y1),
                w * (row - r.y1) + w <= want.len(),
                out@.len() == w * (row - r.y1) + (col - r.x1),
                forall|k: int| 0 <= k < out@.len() ==> out@[k] == want[k],
            decreases r.x2 - col,
        {
            proof {
                lemma_index_bound(row as int, col as int, width as int, rows as int, data@.len() as int);
                lemma_index_bound(row as int, col as int, width as int, rows as int, width * rows);
                lemma_place(row - r.y1, col - r.x1, w);
                assert(w * (row - r.y1) == (row - r.y1) * w) by (nonlinear_arith);
            }
            let at: usize = (row * width + col) as usize;
            out.push(data[at]);
            col += 1;
        }
        row += 1;
    }
    assert(out@ =~= want);
    out
}

/// A region that fits holds no more pixels than the picture.
pub proof fn lemma_region_small(r: Region, width: int, rows: int)
    requires
        r.fits(width, rows),
        0 <= width,
        0 <= rows,
    ensures
        r.width() * r.height() <= width * rows,
{
    let w = r.width() as int;
    let h = r.height() as int;
    if w > 0 && h > 0 {
        assert(w * h <= width * rows) by (nonlinear_arith)
            requires
                0 < w <= width,
                0 < h <= rows,
        ;
    } else {
        assert(w * h == 0) by (nonlinear_arith)
            requires
                w == 0 || h == 0,
        ;
        assert(0 <= width * rows) by (nonlinear_arith)
            requires
                0 <= width,
                0 <= rows,
        ;
    }
}

/// How many entries exceed the bound.
pub fn count_above(s: &Vec<u8>, bound: u8) -> (n: usize)
    ensures
        n == above(s@, bound),
        n <= s@.len(),
{
    let mut n: usize = 0;
    let mut i: usize = 0;
    assert(s@.take(0) == Seq::<u8>::empty());
    while i < s.len()
        invariant
            i <= s.len(),
            n == above(s@.take(i as int), bound),
            n <= i,
        decreases s.len() - i,
    {
        proof {
            let now = s@.take(i + 1);
            assert(now.drop_last() == s@.take(i as int));
            assert(now.last() == s@[i as int]);
        }
        if s[i] > bound {
            n += 1;
        }
        i += 1;
    }
    assert(s@.take(s@.len() as int) == s@);
    n
}

/// Counts each of the 256 values.
pub fn histogram(s: &Vec<u8>) -> (h: Vec<u32>)
    requires
        s@.len() <= u32::MAX,
    ensures
        is_histogram(h@, s@),
{
    let mut h: Vec<u32> = Vec::new();
    let mut k: usize = 0;
    while k < 256
        invariant
            k <= 256,
            h@.len() == k,
            forall|v: int| 0 <= v < k ==> #[trigger] h@[v] == 0,
        decreases 256 - k,
    {
        h.push(0);
        k += 1;
    }
    let mut i: usize = 0;
    assert(s@.take(0) == Seq::<u8>::empty());
    while i < s.len()
        invariant
            i <= s.len(),
            s@.len() <= u32::MAX,
            is_histogram(h@, s@.take(i as int)),
        decreases s.len() - i,
    {
        let ghost seen = s@.take(i as int);
        let v: usize = s[i] as usize;
        proof {
            let now = s@.take(i + 1);
            assert(now.drop_last() == seen);
            assert(now.last() == s@[i as int]);
            lemma_occurrences_bound(seen, v as u8);
        }
        let n: u32 = h[v];
        h.set(v, n + 1);
        i += 1;
    }
    assert(s@.take(s@.len() as int) == s@);
    h
}

/// Nothing occurs more often than there are entries.
pub proof fn lemma_occurrences_bound(s: Seq<u8>, v: u8)
    ensures
        occurrences(s, v) <= s.len(),
    decreases s.len(),
{
    if s.len() > 0 {
        lemma_occurrences_bound(s.drop_last(), v);
    }
}

/// Adding to one entry adds to the sum.
pub proof fn lemma_total_update(h: Seq<u32>, v: int, x: u32)
    requires
        0 <= v < h.len(),
    ensures
        total(h.update(v, x)) == total(h) - h[v] + x,
    decreases h.len(),
{
    let g = h.update(v, x);
    if v == h.len() - 1 {
        assert(g.drop_last() == h.drop_last());
    } else {
        lemma_total_update(h.drop_last(), v, x);
        assert(g.drop_last() == h.drop_last().update(v, x));
    }
}

/// The counts of a histogram add up to the number of entries.
pub proof fn histogram_accounts_for_every_entry(h: Seq<u32>, s: Seq<u8>)
    requires
        is_histogram(h, s),
        s.len() <= u32::MAX,
    ensures
        total(h) == s.len(),
    decreases s.len(),
{
    if s.len() == 0 {
        lemma_total_zero(h);
    } else {
        let prior = s.drop_last();
        let v = s.last() as int;
        lemma_occurrences_bound(prior, v as u8);
        let g = h.update(v, (h[v] - 1) as u32);
        assert forall|k: int| 0 <= k < 256 implies #[trigger] g[k] == occurrences(prior, k as u8) by {
            assert(h[k] == occurrences(s, k as u8));
        }
        histogram_accounts_for_every_entry(g, prior);
        lemma_total_update(h, v, g[v]);
    }
}

proof fn lemma_total_zero(h: Seq<u32>)
    requires
        forall|k: int| 0 <= k < h.len() ==> #[trigger] h[k] == 0,
    ensures
        total(h) == 0,
    decreases h.len(),
{
    if h.len() > 0 {
        lemma_total_zero(h.drop_last());
    }
}

/// The places of the entries that exceed the bound.
pub open spec fn places_above(s: Seq<u8>, bound: u8) -> Set<int> {
    Set::new(|i: int| 0 <= i < s.len() && s[i] > bound)
}

/// The places of the entries that have a value.
pub open spec fn places_of(s: Seq<u8>, v: u8) -> Set<int> {
    Set::new(|i: int| 0 <= i < s.len() && s[i] == v)
}

/// Every entry that exceeds the bound is counted once, and no other.
pub proof fn each_bright_entry_counts_once(s: Seq<u8>, bound: u8)
    ensures
        places_above(s, bound).finite(),
        above(s, bound) == places_above(s, bound).len(),
    decreases s.len(),
{
    if s.len() == 0 {
        assert(places_above(s, bound) =~= Set::<int>::empty());
    } else {
        let prior = s.drop_last();
        each_bright_entry_counts_once(prior, bound);
        assert(!places_above(prior, bound).contains(s.len() - 1));
        if s.last() > bound {
            assert(places_above(s, bound) =~= places_above(prior, bound).insert(s.len() - 1));
        } else {
            assert(places_above(s, bound) =~= places_above(prior, bound));
        }
    }
}

/// Every entry counts once, for the value that it has.
pub proof fn each_entry_counts_once(s: Seq<u8>, v: u8)
    ensures
        places_of(s, v).finite(),
        occurrences(s, v) == places_of(s, v).len(),
    decreases s.len(),
{
    if s.len() == 0 {
        assert(places_of(s, v) =~= Set::<int>::empty());
    } else {
        let prior = s.drop_last();
        each_entry_counts_once(prior, v);
        assert(!places_of(prior, v).contains(s.len() - 1));
        if s.last() == v {
            assert(places_of(s, v) =~= places_of(prior, v).insert(s.len() - 1));
        } else {
            assert(places_of(s, v) =~= places_of(prior, v));
        }
    }
}

/// A sum grows by each number that is added, and starts at zero.
pub proof fn sums_add_up(s: Seq<u32>, t: Seq<u32>, x: u32)
    ensures
        total(Seq::empty()) == 0,
        total(s.push(x)) == total(s) + x,
        total(s + t) == total(s) + total(t),
    decreases t.len(),
{
    assert(s.push(x).drop_last() =~= s);
    if t.len() == 0 {
        assert(s + t =~= s);
    } else {
        sums_add_up(s, t.drop_last(), x);
        assert((s + t).drop_last() =~= s + t.drop_last());
        assert((s + t).last() == t.last());
    }
}

/// A region holds the pixels of its rows and columns and no others, row by row.
pub proof fn region_holds_its_pixels(data: Seq<u8>, width: int, r: Region, row: int, col: int)
    requires
        r.y1 <= row < r.y2,
        r.x1 <= col < r.x2,
    ensures
        ({
            let k = (row - r.y1) * (r.x2 - r.x1) + (col - r.x1);
            &&& 0 <= k < region_pixels(data, width, r).len()
            &&& region_pixels(data, width, r)[k] == data[row * width + col]
        }),
        region_pixels(data, width, r).len() == (r.x2 - r.x1) * (r.y2 - r.y1),
{
    let w = r.x2 - r.x1;
    let h = r.y2 - r.y1;
    lemma_place(row - r.y1, col - r.x1, w);
    lemma_index_bound(row - r.y1, col - r.x1, w, h, w * h);
}

/// The region of a face is its rectangle, the corners rounded towards zero, as far as it lies in the
/// picture.
pub proof fn face_region_is_its_rectangle(bbox: BBox, width: u32, height: u32, row: int, col: int)
    requires
        bbox.x1.spec_truncate() < width,
        bbox.y1.spec_truncate() < height,
        0 <= bbox.x1.spec_truncate(),
        0 <= bbox.y1.spec_truncate(),
        0 <= bbox.x2.spec_truncate(),
        0 <= bbox.y2.spec_truncate(),
    ensures
        ({
            let r = Region::spec_of_face(bbox, width, height);
            &&& r.x1 <= col < r.x2 <==> bbox.x1.spec_truncate() <= col < bbox.x2.spec_truncate() && col
                < width
            &&& r.y1 <= row < r.y2 <==> bbox.y1.spec_truncate() <= row < bbox.y2.spec_truncate() && row
                < height
        }),
{
}

/// A corner beyond the picture is moved to its edge: the first corner to the last column and row that
/// there are, the second behind them.
pub proof fn corners_beyond_are_moved_in(bbox: BBox, width: u32, height: u32)
    requires
        0 < width,
        0 < height,
        0 <= bbox.x1.spec_truncate() <= u32::MAX,
        0 <= bbox.y1.spec_truncate() <= u32::MAX,
        0 <= bbox.x2.spec_truncate() <= u32::MAX,
        0 <= bbox.y2.spec_truncate() <= u32::MAX,
    ensures
        ({
            let r = Region::spec_of_face(bbox, width, height);
            &&& bbox.x1.spec_truncate() >= width ==> r.x1 + 1 == width
            &&& bbox.y1.spec_truncate() >= height ==> r.y1 + 1 == height
            &&& bbox.x2.spec_truncate() >= width ==> r.x2 == width
            &&& bbox.y2.spec_truncate() >= height ==> r.y2 == height
            &&& bbox.x1.spec_truncate() < width ==> r.x1 == bbox.x1.spec_truncate()
            &&& bbox.y1.spec_truncate() < height ==> r.y1 == bbox.y1.spec_truncate()
            &&& bbox.x2.spec_truncate() < width ==> r.x2 == bbox.x2.spec_truncate()
            &&& bbox.y2.spec_truncate() < height ==> r.y2 == bbox.y2.spec_truncate()
        }),
{
}

} // verus!
