//! Recognising a face: the counting part of the contrast equalisation, and the errors.
//!
//! The equalisation (CLAHE) counts the brightnesses of each tile of the picture, limits and
//! redistributes the counts, and sums them up to a curve. A pixel's new value is read off the
//! curves of the four tiles whose centres surround it. Scaling the curves to bytes and mixing
//! the four values is left to the caller.
use crate::raster::{
    extract, histogram, histogram_accounts_for_every_entry, is_histogram, region_pixels, total, Region,
};
use vstd::prelude::*;

verus! {

/// Why a face could not be recognised.
#[derive(Debug)]
pub enum RecognitionError {
    ModelNotFound(String),
    Ort(String),
    Inference(String),
}

impl RecognitionError {
    /// The error in words.
    pub fn message(&self) -> (r: String)
        ensures
            r@ == match self {
                RecognitionError::ModelNotFound(p) => "model file not found: "@ + p@,
                RecognitionError::Ort(e) => "ort error: "@ + e@,
                RecognitionError::Inference(e) => "inference error: "@ + e@,
            },
    {
        let (mut r, e) = match self {
            RecognitionError::ModelNotFound(p) => ("model file not found: ".to_owned(), p),
            RecognitionError::Ort(e) => ("ort error: ".to_owned(), e),
            RecognitionError::Inference(e) => ("inference error: ".to_owned(), e),
        };
        r.append(e.as_str());
        r
    }
}

/// The number of components of an embedding.
pub const EMBEDDING_DIM: usize = 512;

/// Checks that the model gave as many numbers as an embedding has.
pub fn check_embedding(len: usize) -> (r: Result<(), RecognitionError>)
    ensures
        match r {
            Ok(()) => len == EMBEDDING_DIM,
            Err(e) => len != EMBEDDING_DIM && (e matches RecognitionError::Inference(t) && t@
                == "expected 512-dim embedding, got "@ + crate::text::decimal(len as nat)),
        },
{
    if len == EMBEDDING_DIM {
        Ok(())
    } else {
        let mut t: String = "expected 512-dim embedding, got ".to_owned();
        let digits = crate::text::decimal_of(len as u64);
        t.append(digits.as_str());
        Err(RecognitionError::Inference(t))
    }
}

/// How many tiles cover `length` pixels.
pub open spec fn spec_tiles(length: int, tile: int) -> int {
    (length + tile - 1) / tile
}

/// How many tiles cover `length` pixels.
pub fn tiles(length: usize, tile: usize) -> (r: usize)
    requires
        tile > 0,
        length + tile <= usize::MAX,
    ensures
        r == spec_tiles(length as int, tile as int),
        r * tile >= length,
        length > 0 ==> r > 0 && (r - 1) * tile < length,
{
    let r: usize = (length + tile - 1) / tile;
    proof {
        let n = length + tile - 1;
        vstd::arithmetic::div_mod::lemma_fundamental_div_mod(n, tile as int);
        let q = n / (tile as int);
        let m = n % (tile as int);
        assert(q * tile == tile * q) by (nonlinear_arith);
        assert((q - 1) * tile == q * tile - tile) by (nonlinear_arith);
        if length > 0 {
            assert(q > 0) by (nonlinear_arith)
                requires
                    n == tile * q + m,
                    n >= tile,
                    0 <= m < tile,
            ;
        }
    }
    r
}

/// The part of a picture that a tile covers. The last tiles may be cut short.
pub open spec fn spec_tile_region(width: int, height: int, tile: int, ty: int, tx: int) -> Region {
    Region {
        x1: (tx * tile) as u32,
        y1: (ty * tile) as u32,
        x2: crate::raster::min_of(tx * tile + tile, width) as u32,
        y2: crate::raster::min_of(ty * tile + tile, height) as u32,
    }
}

/// Counts the brightnesses of a tile.
pub fn tile_histogram(data: &Vec<u8>, width: u32, height: u32, tile: u32, ty: u32, tx: u32) -> (r:
    Vec<u32>)
    requires
        width * height <= data@.len(),
        width * height <= u32::MAX,
        0 < tile,
        tx * tile < width,
        ty * tile < height,
        tx * tile + tile <= u32::MAX,
        ty * tile + tile <= u32::MAX,
    ensures
        ({
            let region = spec_tile_region(
                width as int,
                height as int,
                tile as int,
                ty as int,
                tx as int,
            );
            let pixels = region_pixels(data@, width as int, region);
            &&& is_histogram(r@, pixels)
            &&& total(r@) == pixels.len()
        }),
{
    let x1: u32 = tx * tile;
    let y1: u32 = ty * tile;
    let region = Region {
        x1,
        y1,
        x2: if x1 + tile < width {
            x1 + tile
        } else {
            width
        },
        y2: if y1 + tile < height {
            y1 + tile
        } else {
            height
        },
    };
    let pixels = extract(data, width, height, &region);
    let h = histogram(&pixels);
    proof {
        histogram_accounts_for_every_entry(h@, pixels@);
    }
    h
}

/// What the counts exceed the limit by, all together.
pub open spec fn excess(h: Seq<u32>, clip: u32) -> nat
    decreases h.len(),
{
    if h.len() == 0 {
        0
    } else {
        excess(h.drop_last(), clip) + crate::raster::monus(h.last() as int, clip as int)
    }
}

/// A count after limiting and redistribution: what is above the limit is spread evenly over all
/// 256 brightnesses, and what is left of it goes to the first ones, one each.
pub open spec fn redistributed(h: Seq<u32>, clip: u32, i: int) -> int {
    let e = excess(h, clip) as int;
    crate::raster::min_of(h[i] as int, clip as int) + e / 256 + if i < e % 256 {
        1int
    } else {
        0int
    }
}

/// The counts after limiting and redistribution.
pub open spec fn limited(h: Seq<u32>, clip: u32) -> Seq<u32> {
    Seq::new(256, |i: int| redistributed(h, clip, i) as u32)
}

proof fn lemma_excess_bound(h: Seq<u32>, clip: u32)
    ensures
        excess(h, clip) <= total(h),
    decreases h.len(),
{
    if h.len() > 0 {
        lemma_excess_bound(h.drop_last(), clip);
    }
}

/// The part of the sum that the first `n` counts make after redistribution.
proof fn lemma_partial_total(h: Seq<u32>, g: Seq<u32>, clip: u32, n: int)
    requires
        h.len() == 256,
        0 <= n <= 256,
        g.len() == n,
        forall|i: int| 0 <= i < n ==> #[trigger] g[i] == redistributed(h, clip, i),
    ensures
        ({
            let e = excess(h, clip) as int;
            total(g) == total(h.take(n)) - excess(h.take(n), clip) + n * (e / 256)
                + crate::raster::min_of(n, e % 256)
        }),
    decreases n,
{
    let e = excess(h, clip) as int;
    if n > 0 {
        lemma_partial_total(h, g.drop_last(), clip, n - 1);
        assert(h.take(n).drop_last() == h.take(n - 1));
        assert(h.take(n).last() == h[n - 1]);
        assert(g.last() == redistributed(h, clip, n - 1));
        assert(n * (e / 256) == (n - 1) * (e / 256) + e / 256) by (nonlinear_arith);
    } else {
        assert(0 * (e / 256) == 0);
    }
}

/// Limiting and redistributing keeps the number of pixels that the counts stand for.
pub proof fn redistribution_keeps_the_total(h: Seq<u32>, clip: u32)
    requires
        h.len() == 256,
        total(h) <= u32::MAX,
    ensures
        total(limited(h, clip)) == total(h),
{
    let g = limited(h, clip);
    assert forall|i: int| 0 <= i < 256 implies #[trigger] g[i] == redistributed(h, clip, i) by {
        lemma_share(h, clip, i);
    }
    lemma_partial_total(h, g, clip, 256);
    assert(h.take(256) == h);
}

/// Limits the counts to `clip` and redistributes what is above.
pub fn redistribute(hist: &Vec<u32>, clip: u32) -> (r: Vec<u32>)
    requires
        hist@.len() == 256,
        total(hist@) <= u32::MAX,
    ensures
        r@ == limited(hist@, clip),
        total(r@) == total(hist@),
{
    let mut e: u32 = 0;
    let mut i: usize = 0;
    proof {
        lemma_excess_bound(hist@, clip);
        assert(hist@.take(0) == Seq::<u32>::empty());
    }
    while i < 256
        invariant
            i <= 256,
            hist@.len() == 256,
            total(hist@) <= u32::MAX,
            e == excess(hist@.take(i as int), clip),
        decreases 256 - i,
    {
        proof {
            let now = hist@.take(i + 1);
            assert(now.drop_last() == hist@.take(i as int));
            assert(now.last() == hist@[i as int]);
            lemma_excess_bound(now, clip);
            lemma_prefix_total(hist@, i + 1);
        }
        if hist[i] > clip {
            e = e + (hist[i] - clip);
        }
        i += 1;
    }
    assert(hist@.take(256) == hist@);
    let bonus: u32 = e / 256;
    let remainder: usize = (e % 256) as usize;
    let mut r: Vec<u32> = Vec::new();
    let mut k: usize = 0;
    while k < 256
        invariant
            k <= 256,
            hist@.len() == 256,
            total(hist@) <= u32::MAX,
            e == excess(hist@, clip),
            bonus == e / 256,
            remainder == e % 256,
            r@.len() == k,
            forall|j: int| 0 <= j < k ==> #[trigger] r@[j] == redistributed(hist@, clip, j),
        decreases 256 - k,
    {
        let low: u32 = if hist[k] > clip {
            clip
        } else {
            hist[k]
        };
        let extra: u32 = if k < remainder {
            1
        } else {
            0
        };
        proof {
            lemma_share(hist@, clip, k as int);
        }
        r.push(low + bonus + extra);
        k += 1;
    }
    proof {
        assert(r@ =~= limited(hist@, clip));
        redistribution_keeps_the_total(hist@, clip);
    }
    r
}

proof fn lemma_prefix_total(h: Seq<u32>, n: int)
    requires
        0 <= n <= h.len(),
    ensures
        total(h.take(n)) <= total(h),
    decreases h.len(),
{
    if n < h.len() {
        lemma_prefix_total(h.drop_last(), n);
        assert(h.drop_last().take(n) == h.take(n));
    } else {
        assert(h.take(n) == h);
    }
}

/// A limited count and all that was above the limit come to no more than the number of pixels.
proof fn lemma_share(h: Seq<u32>, clip: u32, i: int)
    requires
        0 <= i < h.len(),
    ensures
        crate::raster::min_of(h[i] as int, clip as int) + excess(h, clip) <= total(h),
    decreases h.len(),
{
    lemma_excess_bound(h.drop_last(), clip);
    if i < h.len() - 1 {
        lemma_share(h.drop_last(), clip, i);
        assert(h.drop_last()[i] == h[i]);
    }
}

/// Sums the counts up: the `i`th entry is the sum of the counts up to and with the `i`th.
pub fn cumulative(hist: &Vec<u32>) -> (r: Vec<u32>)
    requires
        total(hist@) <= u32::MAX,
    ensures
        r@.len() == hist@.len(),
        forall|i: int| 0 <= i < r@.len() ==> #[trigger] r@[i] == total(hist@.take(i + 1)),
{
    let mut r: Vec<u32> = Vec::new();
    let mut sum: u32 = 0;
    let mut i: usize = 0;
    assert(hist@.take(0) == Seq::<u32>::empty());
    while i < hist.len()
        invariant
            i <= hist.len(),
            total(hist@) <= u32::MAX,
            r@.len() == i,
            sum == total(hist@.take(i as int)),
            forall|j: int| 0 <= j < i ==> #[trigger] r@[j] == total(hist@.take(j + 1)),
        decreases hist.len() - i,
    {
        proof {
            let now = hist@.take(i + 1);
            assert(now.drop_last() == hist@.take(i as int));
            assert(now.last() == hist@[i as int]);
            lemma_prefix_total(hist@, i + 1);
        }
        sum = sum + hist[i];
        r.push(sum);
        i += 1;
    }
    r
}

/// The first entry of the curve that is not zero, or zero.
pub fn curve_start(cdf: &Vec<u32>) -> (r: u32)
    ensures
        match r {
            0 => forall|i: int| 0 <= i < cdf@.len() ==> #[trigger] cdf@[i] == 0,
            _ => exists|i: int|
                {
                    &&& 0 <= i < cdf@.len()
                    &&& #[trigger] cdf@[i] == r
                    &&& forall|k: int| 0 <= k < i ==> #[trigger] cdf@[k] == 0
                },
        },
{
    let mut i: usize = 0;
    while i < cdf.len()
        invariant
            i <= cdf.len(),
            forall|k: int| 0 <= k < i ==> #[trigger] cdf@[k] == 0,
        decreases cdf.len() - i,
    {
        if cdf[i] > 0 {
            return cdf[i];
        }
        i += 1;
    }
    0
}

/// The curve of a tile: its counts, limited to `clip`, redistributed and summed up.
pub fn tile_curve(hist: &Vec<u32>, clip: u32) -> (r: Vec<u32>)
    requires
        hist@.len() == 256,
        total(hist@) <= u32::MAX,
    ensures
        r@.len() == 256,
        forall|i: int|
            0 <= i < 256 ==> #[trigger] r@[i] == total(limited(hist@, clip).take(i + 1)),
        r@[255] == total(hist@),
{
    let g = redistribute(hist, clip);
    let r = cumulative(&g);
    assert(g@.take(256) == g@);
    r
}

/// The tiles whose centres surround a pixel, along one side of the picture: the one whose centre
/// is the last not beyond the pixel, and the next. At the edges both are the outermost tile.
pub open spec fn spec_neighbours(pos: int, tile: int, tiles: int) -> (int, int) {
    let before = (2 * pos - tile) / (2 * tile);
    let first = if before < 0 {
        0
    } else {
        crate::raster::min_of(before, tiles - 1)
    };
    (first, crate::raster::min_of(first + 1, tiles - 1))
}

/// The tiles whose centres surround a pixel, along one side of the picture.
pub fn neighbours(pos: u32, tile: u32, tiles: u32) -> (r: (u32, u32))
    requires
        tile > 0,
        tiles > 0,
    ensures
        (r.0 as int, r.1 as int) == spec_neighbours(pos as int, tile as int, tiles as int),
        r.0 < tiles,
        r.1 < tiles,
{
    let twice: u64 = 2 * pos as u64;
    let first: u32 = if twice < tile as u64 {
        proof {
            vstd::arithmetic::div_mod::lemma_fundamental_div_mod(2 * pos - tile, 2 * tile);
            let q = (2 * pos - tile) / (2 * tile);
            let m = (2 * pos - tile) % (2 * tile);
            assert(q < 0) by (nonlinear_arith)
                requires
                    2 * pos - tile == 2 * tile * q + m,
                    2 * pos < tile,
                    m >= 0,
                    tile > 0,
            ;
        }
        0
    } else {
        let q: u64 = (twice - tile as u64) / (2 * tile as u64);
        if q < tiles as u64 {
            q as u32
        } else {
            tiles - 1
        }
    };
    let second: u32 = if first + 1 < tiles {
        first + 1
    } else {
        tiles - 1
    };
    (first, second)
}

/// Between its two tile centres a pixel lies indeed: not before the first centre, unless the
/// first is the outermost tile, and before the second, unless there is none. The two tiles lie side
/// by side, unless both are the last.
pub proof fn neighbours_surround_the_pixel(pos: int, tile: int, tiles: int)
    requires
        0 <= pos < tile * tiles,
        tile > 0,
        tiles > 0,
    ensures
        ({
            let (a, b) = spec_neighbours(pos, tile, tiles);
            &&& 0 <= a <= b < tiles
            &&& a > 0 ==> (2 * a + 1) * tile <= 2 * pos
            &&& a < b ==> b == a + 1 && 2 * pos < (2 * b + 1) * tile
            &&& a == b ==> a == tiles - 1
        }),
{
    let (a, b) = spec_neighbours(pos, tile, tiles);
    let x = 2 * pos - tile;
    let d = 2 * tile;
    let q = x / d;
    vstd::arithmetic::div_mod::lemma_fundamental_div_mod(x, d);
    if a > 0 {
        assert(a <= q);
        assert((2 * a + 1) * tile <= 2 * pos) by (nonlinear_arith)
            requires
                a <= q,
                x == d * q + x % d,
                0 <= x % d,
                d == 2 * tile,
                x == 2 * pos - tile,
                tile > 0,
        ;
        if a < b {
            assert(a == q);
            assert(2 * pos < (2 * b + 1) * tile) by (nonlinear_arith)
                requires
                    b == q + 1,
                    x == d * q + x % d,
                    x % d < d,
                    d == 2 * tile,
                    x == 2 * pos - tile,
            ;
        }
    } else if a < b {
        assert(q <= 0);
        assert(2 * pos < 3 * tile) by (nonlinear_arith)
            requires
                q <= 0,
                x == d * q + x % d,
                x % d < d,
                d == 2 * tile,
                x == 2 * pos - tile,
                tile > 0,
        ;
    }
}

/// What is cut off is spread evenly over all brightnesses: each count keeps what is within the limit,
/// and of any two the earlier gains as much as the later, or one more.
pub proof fn redistribution_is_even(h: Seq<u32>, clip: u32, i: int, j: int)
    requires
        h.len() == 256,
        total(h) <= u32::MAX,
        0 <= i < j < 256,
    ensures
        ({
            let g = limited(h, clip);
            let a = g[i] - (if h[i] < clip {
                h[i]
            } else {
                clip
            });
            let b = g[j] - (if h[j] < clip {
                h[j]
            } else {
                clip
            });
            0 <= b <= a <= b + 1
        }),
{
    lemma_share(h, clip, i);
    lemma_share(h, clip, j);
}

/// A histogram within the limit stays as it is.
pub proof fn low_counts_stay(h: Seq<u32>, clip: u32)
    requires
        h.len() == 256,
        forall|i: int| 0 <= i < h.len() ==> #[trigger] h[i] <= clip,
    ensures
        limited(h, clip) == h,
{
    lemma_no_excess(h, clip);
    assert(limited(h, clip) =~= h);
}

proof fn lemma_no_excess(h: Seq<u32>, clip: u32)
    requires
        forall|i: int| 0 <= i < h.len() ==> #[trigger] h[i] <= clip,
    ensures
        excess(h, clip) == 0,
    decreases h.len(),
{
    if h.len() > 0 {
        let rest = h.drop_last();
        assert forall|i: int| 0 <= i < rest.len() implies #[trigger] rest[i] <= clip by {
            assert(rest[i] == h[i]);
        }
        lemma_no_excess(rest, clip);
        assert(h[h.len() - 1] <= clip);
    }
}

/// The tiles cover the picture without overlap: a pixel lies in one of them alone.
pub proof fn each_pixel_has_one_tile(
    width: int,
    height: int,
    tile: int,
    ty: int,
    tx: int,
    row: int,
    col: int,
)
    requires
        0 < tile,
        0 <= row < height <= u32::MAX,
        0 <= col < width <= u32::MAX,
        0 <= ty,
        0 <= tx,
        ty * tile + tile <= u32::MAX,
        tx * tile + tile <= u32::MAX,
    ensures
        ({
            let r = spec_tile_region(width, height, tile, ty, tx);
            r.x1 <= col < r.x2 && r.y1 <= row < r.y2 <==> ty == row / tile && tx == col / tile
        }),
        row / tile < spec_tiles(height, tile),
        col / tile < spec_tiles(width, tile),
{
    lemma_own_tile(row, height, tile, ty);
    lemma_own_tile(col, width, tile, tx);
    assert(0 <= ty * tile && 0 <= tx * tile) by (nonlinear_arith)
        requires
            0 <= ty,
            0 <= tx,
            0 < tile,
    ;
}

proof fn lemma_own_tile(pos: int, length: int, tile: int, t: int)
    requires
        0 < tile,
        0 <= pos < length,
        0 <= t,
    ensures
        t * tile <= pos < t * tile + tile <==> t == pos / tile,
        pos / tile < spec_tiles(length, tile),
{
    let q = pos / tile;
    vstd::arithmetic::div_mod::lemma_fundamental_div_mod(pos, tile);
    assert(q * tile <= pos < q * tile + tile) by (nonlinear_arith)
        requires
            pos == tile * q + pos % tile,
            0 <= pos % tile < tile,
    ;
    assert(t * tile <= pos < t * tile + tile ==> t == q) by (nonlinear_arith)
        requires
            q * tile <= pos < q * tile + tile,
            0 < tile,
    ;
    let n = length + tile - 1;
    let k = n / tile;
    vstd::arithmetic::div_mod::lemma_fundamental_div_mod(n, tile);
    assert(q < k) by (nonlinear_arith)
        requires
            q * tile <= pos,
            pos < length,
            n == length + tile - 1,
            n == tile * k + n % tile,
            0 <= n % tile < tile,
            0 < tile,
    ;
}

/// A curve rises by the count of each brightness, from nothing to the number of pixels.
pub proof fn curve_rises_by_the_counts(hist: Vec<u32>, r: Vec<u32>, i: int)
    requires
        call_ensures(cumulative, (&hist,), r),
        0 <= i < hist@.len(),
    ensures
        r@.len() == hist@.len(),
        r@[0] == hist@[0],
        i > 0 ==> r@[i] == r@[i - 1] + hist@[i],
        r@[hist@.len() - 1] == total(hist@),
{
    assert(r@[i] == total(hist@.take(i + 1)));
    assert(hist@.take(i + 1).drop_last() =~= hist@.take(i));
    if i > 0 {
        assert(r@[i - 1] == total(hist@.take(i - 1 + 1)));
    }
    assert(r@[0] == total(hist@.take(0int + 1)));
    assert(hist@.take(1).drop_last() =~= Seq::<u32>::empty());
    reveal_with_fuel(total, 2);
    let n = hist@.len() as int;
    assert(r@[n - 1] == total(hist@.take(n - 1 + 1)));
    assert(hist@.take(n) =~= hist@);
}

} // verus!
