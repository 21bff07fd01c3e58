//! Detecting faces: which anchors count, and which of the faces found are kept.
use crate::geometry::{BBox, Landmarks};
use crate::scalar::Scalar;
use vstd::prelude::*;

verus! {

/// Why no faces could be looked for.
#[derive(Debug)]
pub enum DetectionError {
    ModelNotFound(String),
    Ort(String),
    Inference(String),
}

impl DetectionError {
    /// The error in words.
    pub fn message(&self) -> (r: String)
        ensures
            r@ == match self {
                DetectionError::ModelNotFound(p) => "model file not found: "@ + p@,
                DetectionError::Ort(e) => "ort error: "@ + e@,
                DetectionError::Inference(e) => "inference error: "@ + e@,
            },
    {
        let (mut r, e) = match self {
            DetectionError::ModelNotFound(p) => ("model file not found: ".to_owned(), p),
            DetectionError::Ort(e) => ("ort error: ".to_owned(), e),
            DetectionError::Inference(e) => ("inference error: ".to_owned(), e),
        };
        r.append(e.as_str());
        r
    }
}

/// A face that was found.
#[derive(Debug, Clone, Copy, PartialEq, Eq, Structural)]
pub struct Detection {
    pub bbox: BBox,
    pub landmarks: Landmarks,
    pub confidence: Scalar,
}

/// Anchors of the detector in each cell of its grids.
pub const ANCHORS_PER_CELL: usize = 2;

/// Width and height of the detector's input.
pub const MODEL_INPUT_SIZE: usize = 640;

/// Number of tensors that the detector gives: scores, rectangles and points for three strides.
pub const OUTPUTS: usize = 9;

/// Bit pattern of the confidence from which a face counts, 0.5.
pub const CONF_THRESHOLD: u32 = 0x3f00_0000;

/// Bit pattern of the overlap above which two faces are one, 0.4.
pub const NMS_THRESHOLD: u32 = 0x3ecc_cccd;

/// Bit pattern of the least width and height of a face, one pixel.
pub const MIN_SIZE: u32 = 0x3f80_0000;

/// Checks that the detector gave as many tensors as it should.
pub fn check_outputs(len: usize) -> (r: Result<(), DetectionError>)
    ensures
        match r {
            Ok(()) => len == OUTPUTS,
            Err(e) => len != OUTPUTS && (e matches DetectionError::Inference(t) && t@
                == "expected 9 outputs, got "@ + crate::text::decimal(len as nat)),
        },
{
    if len == OUTPUTS {
        Ok(())
    } else {
        let mut t: String = "expected 9 outputs, got ".to_owned();
        let digits = crate::text::decimal_of(len as u64);
        t.append(digits.as_str());
        Err(DetectionError::Inference(t))
    }
}

/// An anchor whose score counts, and the cell of the grid that it belongs to.
#[derive(Debug, Clone, Copy, PartialEq, Eq, Structural)]
pub struct Anchor {
    pub index: usize,
    pub row: usize,
    pub col: usize,
}

/// The anchor with the given index in a grid of the given width.
pub open spec fn anchor_at(index: int, grid: int) -> Anchor {
    let cell = index / 2;
    Anchor { index: index as usize, row: (cell / grid) as usize, col: (cell % grid) as usize }
}

/// The anchors among the first `n` whose score is not below the threshold.
pub open spec fn good_anchors(scores: Seq<Scalar>, grid: int, n: int) -> Seq<Anchor>
    decreases n,
{
    if n <= 0 {
        Seq::empty()
    } else {
        let prior = good_anchors(scores, grid, n - 1);
        if scores[n - 1].below(Scalar { bits: CONF_THRESHOLD }) {
            prior
        } else {
            prior.push(anchor_at(n - 1, grid))
        }
    }
}

/// Picks the anchors that count, of the scores for one stride. Scores beyond the grid's anchors
/// are not looked at.
pub fn candidate_anchors(scores: &Vec<Scalar>, stride: usize) -> (r: Vec<Anchor>)
    requires
        0 < stride <= MODEL_INPUT_SIZE,
    ensures
        ({
            let grid = MODEL_INPUT_SIZE as int / stride as int;
            let anchors = grid * grid * ANCHORS_PER_CELL;
            r@ == good_anchors(
                scores@,
                grid,
                crate::raster::min_of(scores@.len() as int, anchors),
            )
        }),
        ({
            let grid = 640int / stride as int;
            forall|k: int|
                0 <= k < r@.len() ==> {
                    let a = #[trigger] r@[k];
                    &&& a.row < grid
                    &&& a.col < grid
                    &&& (a.row * grid + a.col) * 2 <= a.index < (a.row * grid + a.col) * 2 + 2
                    &&& a.index < scores@.len()
                    &&& !scores@[a.index as int].below(Scalar { bits: 0x3f00_0000 })
                }
        }),
        forall|k: int, m: int|
            0 <= k < m < r@.len() ==> (#[trigger] r@[k]).index < (#[trigger] r@[m]).index,
        ({
            let grid = 640int / stride as int;
            forall|i: int|
                0 <= i < scores@.len() && i < 2 * (grid * grid) && !(#[trigger] scores@[i]).below(
                    Scalar { bits: 0x3f00_0000 },
                ) ==> exists|k: int| 0 <= k < r@.len() && (#[trigger] r@[k]).index == i
        }),
{
    let grid: usize = MODEL_INPUT_SIZE / stride;
    proof {
        assert(1 <= grid <= 640) by (nonlinear_arith)
            requires
                0 < stride <= 640,
                grid == 640int / stride as int,
        ;
        assert(grid * grid <= 640 * 640) by (nonlinear_arith)
            requires
                1 <= grid <= 640,
        ;
    }
    let anchors: usize = grid * grid * ANCHORS_PER_CELL;
    let n: usize = if scores.len() < anchors {
        scores.len()
    } else {
        anchors
    };
    let mut r: Vec<Anchor> = Vec::new();
    let mut i: usize = 0;
    while i < n
        invariant
            i <= n <= scores.len(),
            grid > 0,
            r@ == good_anchors(scores@, grid as int, i as int),
        decreases n - i,
    {
        if !scores[i].lt(Scalar { bits: CONF_THRESHOLD }) {
            let cell: usize = i / ANCHORS_PER_CELL;
            r.push(Anchor { index: i, row: cell / grid, col: cell % grid });
        }
        i += 1;
    }
    proof {
        assert(2 * grid * grid == grid * grid * 2) by (nonlinear_arith);
        assert(2 * grid * grid == 2 * (grid * grid)) by (nonlinear_arith);
        lemma_good_anchors(scores@, grid as int, n as int);
    }
    r
}

/// Whether a face of this width and height is large enough to count.
pub fn large_enough(width: Scalar, height: Scalar) -> (r: bool)
    ensures
        r == (!width.below(Scalar { bits: MIN_SIZE }) && !height.below(Scalar { bits: MIN_SIZE })),
{
    !width.lt(Scalar { bits: MIN_SIZE }) && !height.lt(Scalar { bits: MIN_SIZE })
}

/// Whether the face `a` comes before `b`: it is surer, or as sure and found earlier.
pub open spec fn comes_before(dets: Seq<Detection>, a: usize, b: usize) -> bool {
    let x = dets[a as int].confidence.rank();
    let y = dets[b as int].confidence.rank();
    x > y || (x == y && a < b)
}

/// Whether `order` lists each face once, by falling confidence, those of equal confidence in the
/// order in which they were found.
pub open spec fn is_ranking(order: Seq<usize>, dets: Seq<Detection>) -> bool {
    &&& order.len() == dets.len()
    &&& forall|i: int| 0 <= i < order.len() ==> #[trigger] order[i] < dets.len()
    &&& forall|i: int, j: int|
        0 <= i < j < order.len() ==> comes_before(dets, #[trigger] order[i], #[trigger] order[j])
}

/// Ranks the faces by confidence.
pub fn rank_by_confidence(dets: &Vec<Detection>) -> (order: Vec<usize>)
    requires
        forall|i: int| 0 <= i < dets@.len() ==> !(#[trigger] dets@[i]).confidence.nan(),
    ensures
        is_ranking(order@, dets@),
{
    let mut order: Vec<usize> = Vec::new();
    let mut n: usize = 0;
    while n < dets.len()
        invariant
            n <= dets.len(),
            order@.len() == n,
            forall|i: int| 0 <= i < dets@.len() ==> !(#[trigger] dets@[i]).confidence.nan(),
            forall|i: int| 0 <= i < n ==> #[trigger] order@[i] < n,
            forall|i: int, j: int|
                0 <= i < j < n ==> comes_before(
                    dets@,
                    #[trigger] order@[i],
                    #[trigger] order@[j],
                ),
        decreases dets.len() - n,
    {
        // The place of the new face: behind all that are at least as sure.
        let mut p: usize = 0;
        let confidence = dets[n].confidence;
        while p < order.len() && dets[order[p]].confidence.ge(confidence)
            invariant
                p <= order@.len() == n,
                n < dets@.len(),
                confidence == dets@[n as int].confidence,
                forall|i: int| 0 <= i < dets@.len() ==> !(#[trigger] dets@[i]).confidence.nan(),
                forall|i: int| 0 <= i < n ==> #[trigger] order@[i] < n,
                forall|i: int|
                    0 <= i < p ==> comes_before(dets@, #[trigger] order@[i], n),
            decreases order@.len() - p,
        {
            p += 1;
        }
        let ghost prior = order@;
        proof {
            assert forall|i: int| p <= i < n implies comes_before(dets@, n, #[trigger] prior[i]) by {
                if i > p {
                    assert(comes_before(dets@, prior[p as int], prior[i]));
                }
            }
        }
        order.insert(p, n);
        proof {
            assert(order@ == prior.insert(p as int, n));
            assert forall|i: int| 0 <= i < n + 1 implies #[trigger] order@[i] < n + 1 by {
                if i < p {
                    assert(order@[i] == prior[i]);
                } else if i > p {
                    assert(order@[i] == prior[i - 1]);
                }
            }
            assert forall|i: int, j: int| 0 <= i < j < n + 1 implies comes_before(
                dets@,
                #[trigger] order@[i],
                #[trigger] order@[j],
            ) by {
                let x = if i < p {
                    prior[i]
                } else if i == p {
                    n
                } else {
                    prior[i - 1]
                };
                let y = if j < p {
                    prior[j]
                } else if j == p {
                    n
                } else {
                    prior[j - 1]
                };
                assert(order@[i] == x);
                assert(order@[j] == y);
                if i == p {
                    assert(comes_before(dets@, n, prior[j - 1]));
                } else if j == p {
                    assert(comes_before(dets@, prior[i], n));
                }
            }
        }
        n += 1;
    }
    order
}

/// Which of the faces at the first `n` ranks are kept: those that overlap no kept face before
/// them.
pub open spec fn kept(overlap: spec_fn(int, int) -> bool, n: nat) -> Seq<bool>
    decreases n,
{
    if n == 0 {
        Seq::empty()
    } else {
        let prior = kept(overlap, (n - 1) as nat);
        prior.push(!exists|i: int| 0 <= i < prior.len() && #[trigger] prior[i] && overlap(i, n - 1))
    }
}

/// How many faces are ranked does not matter to those before.
pub proof fn lemma_kept(overlap: spec_fn(int, int) -> bool, n: nat, j: int)
    requires
        0 <= j < n,
    ensures
        kept(overlap, n).len() == n,
        kept(overlap, n)[j] == !exists|i: int|
            0 <= i < j && #[trigger] kept(overlap, n)[i] && overlap(i, j),
        forall|i: int| 0 <= i <= j ==> kept(overlap, n)[i] == kept(overlap, (j + 1) as nat)[i],
    decreases n,
{
    let prior = kept(overlap, (n - 1) as nat);
    lemma_kept_len(overlap, (n - 1) as nat);
    if j < n - 1 {
        lemma_kept(overlap, (n - 1) as nat, j);
        let k = kept(overlap, n);
        assert forall|i: int| 0 <= i < n - 1 implies k[i] == prior[i] by {}
        if exists|i: int| 0 <= i < j && #[trigger] k[i] && overlap(i, j) {
            let i = choose|i: int| 0 <= i < j && #[trigger] k[i] && overlap(i, j);
            assert(prior[i]);
        }
        if exists|i: int| 0 <= i < j && #[trigger] prior[i] && overlap(i, j) {
            let i = choose|i: int| 0 <= i < j && #[trigger] prior[i] && overlap(i, j);
            assert(k[i]);
        }
    } else {
        let k = kept(overlap, n);
        if exists|i: int| 0 <= i < prior.len() && #[trigger] prior[i] && overlap(i, n - 1) {
            let i = choose|i: int| 0 <= i < prior.len() && #[trigger] prior[i] && overlap(i, n - 1);
            assert(k[i]);
        }
        if exists|i: int| 0 <= i < j && #[trigger] k[i] && overlap(i, j) {
            let i = choose|i: int| 0 <= i < j && #[trigger] k[i] && overlap(i, j);
            assert(prior[i]);
        }
    }
}

proof fn lemma_kept_len(overlap: spec_fn(int, int) -> bool, n: nat)
    ensures
        kept(overlap, n).len() == n,
    decreases n,
{
    if n > 0 {
        lemma_kept_len(overlap, (n - 1) as nat);
    }
}

/// The overlaps that a table gives.
pub open spec fn table(overlaps: Seq<Vec<bool>>) -> spec_fn(int, int) -> bool {
    |i: int, j: int| overlaps[i]@[j]
}

/// Of faces that are one, keeps the surest. `overlaps[i][j]` says whether the faces at ranks `i`
/// and `j` overlap by more than the threshold.
pub fn suppress(overlaps: &Vec<Vec<bool>>) -> (keep: Vec<bool>)
    requires
        forall|i: int|
            0 <= i < overlaps@.len() ==> (#[trigger] overlaps@[i])@.len() == overlaps@.len(),
    ensures
        keep@ == kept(table(overlaps@), overlaps@.len()),
        keep@.len() == overlaps@.len(),
{
    let n: usize = overlaps.len();
    let ghost t = table(overlaps@);
    let mut keep: Vec<bool> = Vec::new();
    let mut j: usize = 0;
    while j < n
        invariant
            j <= n == overlaps@.len(),
            t == table(overlaps@),
            forall|i: int|
                0 <= i < overlaps@.len() ==> (#[trigger] overlaps@[i])@.len() == overlaps@.len(),
            keep@.len() == j,
            keep@ == kept(t, j as nat),
        decreases n - j,
    {
        let mut free = true;
        let mut i: usize = 0;
        while i < j
            invariant
                i <= j < n == overlaps@.len(),
                t == table(overlaps@),
                forall|i: int|
                    0 <= i < overlaps@.len() ==> (#[trigger] overlaps@[i])@.len()
                        == overlaps@.len(),
                keep@.len() == j,
                free == !exists|k: int| 0 <= k < i && #[trigger] keep@[k] && t(k, j as int),
            decreases j - i,
        {
            let hit = keep[i] && overlaps[i][j];
            assert(hit == (keep@[i as int] && t(i as int, j as int)));
            if hit {
                free = false;
            }
            i += 1;
        }
        keep.push(free);
        j += 1;
    }
    keep
}

/// The faces that are kept, among the first `n` ranks.
pub open spec fn survivors(
    dets: Seq<Detection>,
    order: Seq<usize>,
    keep: Seq<bool>,
    n: int,
) -> Seq<Detection>
    decreases n,
{
    if n <= 0 {
        Seq::empty()
    } else {
        let prior = survivors(dets, order, keep, n - 1);
        if keep[n - 1] {
            prior.push(dets[order[n - 1] as int])
        } else {
            prior
        }
    }
}

/// The faces that are kept, the surest first. `order` ranks them, and `overlaps` tells of any
/// two ranks whether their faces overlap by more than the threshold.
pub fn nms(dets: &Vec<Detection>, order: &Vec<usize>, overlaps: &Vec<Vec<bool>>) -> (r: Vec<
    Detection,
>)
    requires
        is_ranking(order@, dets@),
        overlaps@.len() == dets@.len(),
        forall|i: int|
            0 <= i < overlaps@.len() ==> (#[trigger] overlaps@[i])@.len() == overlaps@.len(),
    ensures
        r@ == survivors(
            dets@,
            order@,
            kept(table(overlaps@), dets@.len()),
            dets@.len() as int,
        ),
{
    let keep = suppress(overlaps);
    let mut r: Vec<Detection> = Vec::new();
    let mut i: usize = 0;
    while i < dets.len()
        invariant
            i <= dets@.len(),
            is_ranking(order@, dets@),
            keep@.len() == dets@.len(),
            r@ == survivors(dets@, order@, keep@, i as int),
        decreases dets.len() - i,
    {
        if keep[i] {
            r.push(dets[order[i]]);
        }
        i += 1;
    }
    r
}

/// The surest face is kept.
pub proof fn surest_face_is_kept(overlap: spec_fn(int, int) -> bool, n: nat)
    requires
        n > 0,
    ensures
        kept(overlap, n)[0],
{
    lemma_kept(overlap, n, 0);
}

/// Of two kept faces, the less sure one does not overlap the other.
pub proof fn kept_faces_do_not_overlap(
    overlap: spec_fn(int, int) -> bool,
    n: nat,
    i: int,
    j: int,
)
    requires
        0 <= i < j < n,
        kept(overlap, n)[i],
        kept(overlap, n)[j],
    ensures
        !overlap(i, j),
{
    lemma_kept(overlap, n, j);
}

/// A face that is not kept overlaps a surer one that is.
pub proof fn dropped_face_overlaps_a_kept_one(
    overlap: spec_fn(int, int) -> bool,
    n: nat,
    j: int,
)
    requires
        0 <= j < n,
        !kept(overlap, n)[j],
    ensures
        exists|i: int| 0 <= i < j && #[trigger] kept(overlap, n)[i] && overlap(i, j),
{
    lemma_kept(overlap, n, j);
}

/// The kept faces come by falling confidence.
pub proof fn kept_faces_are_ranked(
    dets: Seq<Detection>,
    order: Seq<usize>,
    keep: Seq<bool>,
    n: int,
    i: int,
    j: int,
)
    requires
        is_ranking(order, dets),
        0 <= n <= dets.len(),
        0 <= i < j < survivors(dets, order, keep, n).len(),
    ensures
        !survivors(dets, order, keep, n)[i].confidence.below(
            survivors(dets, order, keep, n)[j].confidence,
        ),
    decreases n,
{
    let prior = survivors(dets, order, keep, n - 1);
    if j < prior.len() {
        kept_faces_are_ranked(dets, order, keep, n - 1, i, j);
    } else {
        let k = lemma_survivor(dets, order, keep, n - 1, i);
        assert(comes_before(dets, order[k], order[n - 1]));
    }
}

/// A kept face stands in the ranking.
proof fn lemma_survivor(
    dets: Seq<Detection>,
    order: Seq<usize>,
    keep: Seq<bool>,
    n: int,
    i: int,
) -> (k: int)
    requires
        0 <= i < survivors(dets, order, keep, n).len(),
    ensures
        0 <= k < n,
        survivors(dets, order, keep, n)[i] == dets[order[k] as int],
    decreases n,
{
    if i < survivors(dets, order, keep, n - 1).len() {
        lemma_survivor(dets, order, keep, n - 1, i)
    } else {
        n - 1
    }
}

/// Where there is a face, the surest of all comes out first.
pub proof fn surest_face_comes_first(
    dets: Seq<Detection>,
    order: Seq<usize>,
    overlap: spec_fn(int, int) -> bool,
    n: nat,
)
    requires
        0 < n <= dets.len(),
    ensures
        ({
            let r = survivors(dets, order, kept(overlap, n), n as int);
            r.len() > 0 && r[0] == dets[order[0] as int]
        }),
{
    surest_face_is_kept(overlap, n);
    lemma_first_survivor(dets, order, kept(overlap, n), n as int);
}

proof fn lemma_first_survivor(dets: Seq<Detection>, order: Seq<usize>, keep: Seq<bool>, n: int)
    requires
        n > 0,
        keep[0],
    ensures
        survivors(dets, order, keep, n).len() > 0,
        survivors(dets, order, keep, n)[0] == dets[order[0] as int],
    decreases n,
{
    if n > 1 {
        lemma_first_survivor(dets, order, keep, n - 1);
    } else {
        assert(survivors(dets, order, keep, 0).len() == 0);
    }
}

/// There is only one ranking.
pub proof fn ranking_is_unique(a: Seq<usize>, b: Seq<usize>, dets: Seq<Detection>)
    requires
        is_ranking(a, dets),
        is_ranking(b, dets),
    ensures
        a == b,
{
    if a != b {
        let k = lemma_first_difference(a, b);
        // Whichever of the two faces comes first must stand in the other list behind rank `k`,
        // in front of which both lists agree.
        let x = a[k];
        let y = b[k];
        lemma_lists_all(a, dets, y as int);
        lemma_lists_all(b, dets, x as int);
        let p = choose|p: int| 0 <= p < a.len() && a[p] == y;
        let q = choose|q: int| 0 <= q < b.len() && b[q] == x;
        if p < k {
            assert(b[p] == y);
            assert(comes_before(dets, b[p], b[k]));
        } else if q < k {
            assert(a[q] == x);
            assert(comes_before(dets, a[q], a[k]));
        } else {
            assert(p > k && q > k);
            assert(comes_before(dets, a[k], a[p]));
            assert(comes_before(dets, b[k], b[q]));
        }
    }
}

proof fn lemma_first_difference(a: Seq<usize>, b: Seq<usize>) -> (k: int)
    requires
        a.len() == b.len(),
        a != b,
    ensures
        0 <= k < a.len(),
        a[k] != b[k],
        forall|i: int| 0 <= i < k ==> a[i] == b[i],
    decreases a.len(),
{
    if a.len() == 0 {
        assert(a =~= b);
        0
    } else if a.drop_last() != b.drop_last() {
        let k = lemma_first_difference(a.drop_last(), b.drop_last());
        assert forall|i: int| 0 <= i < k implies a[i] == b[i] by {
            assert(a.drop_last()[i] == b.drop_last()[i]);
        }
        k
    } else {
        assert forall|i: int| 0 <= i < a.len() - 1 implies a[i] == b[i] by {
            assert(a.drop_last()[i] == b.drop_last()[i]);
        }
        if a[a.len() - 1] == b[a.len() - 1] {
            assert(a =~= b);
        }
        a.len() - 1
    }
}

/// A list of distinct ranks below its length holds every one of them.
proof fn lemma_lists_all(a: Seq<usize>, dets: Seq<Detection>, v: int)
    requires
        is_ranking(a, dets),
        0 <= v < dets.len(),
    ensures
        exists|p: int| 0 <= p < a.len() && a[p] == v,
{
    let wide = a.map_values(|x: usize| x as int);
    let all = vstd::set_lib::set_int_range(0, dets.len() as int);
    assert(wide.no_duplicates()) by {
        assert forall|i: int, j: int|
            0 <= i < wide.len() && 0 <= j < wide.len() && i != j implies wide[i] != wide[j] by {
            if i < j {
                assert(comes_before(dets, a[i], a[j]));
            } else {
                assert(comes_before(dets, a[j], a[i]));
            }
        }
    }
    wide.unique_seq_to_set();
    assert(wide.to_set().subset_of(all)) by {
        assert forall|x: int| wide.to_set().contains(x) implies all.contains(x) by {
            let i = choose|i: int| 0 <= i < wide.len() && wide[i] == x;
            assert(a[i] < dets.len());
        }
    }
    vstd::set_lib::lemma_int_range(0, dets.len() as int);
    vstd::set_lib::lemma_len_subset(wide.to_set(), all);
    if !wide.to_set().contains(v) {
        assert(wide.to_set().subset_of(all.remove(v)));
        vstd::set_lib::lemma_len_subset(wide.to_set(), all.remove(v));
    }
    let p = choose|p: int| 0 <= p < wide.len() && wide[p] == v;
    assert(a[p] == v);
}

proof fn lemma_anchor_cell(index: int, grid: int)
    requires
        0 < grid <= 640,
        0 <= index < 2 * grid * grid,
    ensures
        ({
            let a = anchor_at(index, grid);
            &&& a.index == index
            &&& a.row < grid
            &&& a.col < grid
            &&& (a.row * grid + a.col) * 2 <= index < (a.row * grid + a.col) * 2 + 2
        }),
{
    let cell = index / 2;
    assert(2 * grid * grid == 2 * (grid * grid)) by (nonlinear_arith);
    crate::raster::lemma_in_rectangle(cell, grid, grid);
    assert(grid * grid <= 640 * 640) by (nonlinear_arith)
        requires
            0 < grid <= 640,
    ;
}

proof fn lemma_good_anchors(scores: Seq<Scalar>, grid: int, n: int)
    requires
        0 < grid <= 640,
        0 <= n <= 2 * grid * grid,
        n <= scores.len(),
    ensures
        ({
            let r = good_anchors(scores, grid, n);
            &&& forall|k: int|
                0 <= k < r.len() ==> {
                    let a = #[trigger] r[k];
                    &&& a.row < grid
                    &&& a.col < grid
                    &&& (a.row * grid + a.col) * 2 <= a.index < (a.row * grid + a.col) * 2 + 2
                    &&& a.index < n
                    &&& !scores[a.index as int].below(Scalar { bits: 0x3f00_0000 })
                }
            &&& forall|k: int, m: int|
                0 <= k < m < r.len() ==> (#[trigger] r[k]).index < (#[trigger] r[m]).index
            &&& forall|i: int|
                0 <= i < n && !(#[trigger] scores[i]).below(Scalar { bits: 0x3f00_0000 })
                    ==> exists|k: int| 0 <= k < r.len() && (#[trigger] r[k]).index == i
        }),
    decreases n,
{
    if n > 0 {
        lemma_good_anchors(scores, grid, n - 1);
        lemma_anchor_cell(n - 1, grid);
        let prior = good_anchors(scores, grid, n - 1);
        let r = good_anchors(scores, grid, n);
        assert forall|k: int| 0 <= k < prior.len() implies r[k] == prior[k] by {}
        assert forall|i: int|
            0 <= i < n && !(#[trigger] scores[i]).below(Scalar { bits: 0x3f00_0000 }) implies exists|
            k: int,
        |
            0 <= k < r.len() && (#[trigger] r[k]).index == i by {
            if i < n - 1 {
                let k = choose|k: int| 0 <= k < prior.len() && (#[trigger] prior[k]).index == i;
                assert(r[k].index == i);
            } else {
                assert(r[r.len() - 1].index == i);
            }
        }
        assert forall|k: int| 0 <= k < r.len() implies {
            let a = #[trigger] r[k];
            &&& a.row < grid
            &&& a.col < grid
            &&& (a.row * grid + a.col) * 2 <= a.index < (a.row * grid + a.col) * 2 + 2
            &&& a.index < n
            &&& !scores[a.index as int].below(Scalar { bits: 0x3f00_0000 })
        } by {
            if k < prior.len() {
                assert(r[k] == prior[k]);
            }
        }
        assert forall|k: int, m: int| 0 <= k < m < r.len() implies (#[trigger] r[k]).index < (
        #[trigger] r[m]).index by {
            assert(r[k] == prior[k]);
            if m < prior.len() {
                assert(r[m] == prior[m]);
            }
        }
    }
}

/// The anchors of a stride lie in a square grid of cells, two in each, row by row. Exactly those are
/// picked whose score is not below 0.5, each once, in the order of their indices, and each with the
/// cell that it lies in.
pub proof fn anchors_lie_in_their_cells(scores: Seq<Scalar>, stride: int, grid: int, n: int)
    requires
        0 < stride <= 640,
        grid == 640int / stride,
        n == if scores.len() < 2 * grid * grid {
            scores.len() as int
        } else {
            2 * grid * grid
        },
    ensures
        ({
            let r = good_anchors(scores, grid, n);
            &&& forall|k: int|
                0 <= k < r.len() ==> {
                    let a = #[trigger] r[k];
                    &&& a.row < grid
                    &&& a.col < grid
                    &&& (a.row * grid + a.col) * 2 <= a.index < (a.row * grid + a.col) * 2 + 2
                    &&& a.index < n
                    &&& !scores[a.index as int].below(Scalar { bits: 0x3f00_0000 })
                }
            &&& forall|k: int, m: int|
                0 <= k < m < r.len() ==> (#[trigger] r[k]).index < (#[trigger] r[m]).index
            &&& forall|i: int|
                0 <= i < n && !(#[trigger] scores[i]).below(Scalar { bits: 0x3f00_0000 })
                    ==> exists|k: int| 0 <= k < r.len() && (#[trigger] r[k]).index == i
        }),
{
    assert(0 < grid <= 640) by (nonlinear_arith)
        requires
            0 < stride <= 640,
            grid == 640int / stride,
    ;
    assert(2 * grid * grid == grid * grid * 2) by (nonlinear_arith);
    assert(0 <= grid * grid) by (nonlinear_arith);
    lemma_good_anchors(scores, grid, n);
}

/// A ranking lists every face, the surer first. Faces of equal confidence stay in the order in which
/// they were found.
pub proof fn ranking_lists_all_by_confidence(order: Seq<usize>, dets: Seq<Detection>)
    requires
        is_ranking(order, dets),
    ensures
        order.len() == dets.len(),
        forall|v: int| 0 <= v < dets.len() ==> order.contains(#[trigger] (v as usize)),
        forall|i: int, j: int|
            0 <= i < j < order.len() ==> !dets[#[trigger] order[i] as int].confidence.below(
                dets[#[trigger] order[j] as int].confidence,
            ),
        forall|i: int, j: int|
            0 <= i < j < order.len() && dets[order[i] as int].confidence
                == dets[order[j] as int].confidence ==> #[trigger] order[i] < #[trigger] order[j],
{
    assert forall|v: int| 0 <= v < dets.len() implies order.contains(#[trigger] (v as usize)) by {
        lemma_lists_all(order, dets, v);
        let p = choose|p: int| 0 <= p < order.len() && order[p] == v;
        assert(order[p] < dets.len());
    }
    assert forall|i: int, j: int| 0 <= i < j < order.len() implies !dets[#[trigger] order[i] as int].confidence.below(
        dets[#[trigger] order[j] as int].confidence,
    ) by {
        assert(comes_before(dets, order[i], order[j]));
    }
    assert forall|i: int, j: int|
        0 <= i < j < order.len() && dets[order[i] as int].confidence
            == dets[order[j] as int].confidence implies #[trigger] order[i] < #[trigger] order[j] by {
        assert(comes_before(dets, order[i], order[j]));
    }
}

/// No face is surer than the one that comes out first.
pub proof fn first_face_is_the_surest(
    dets: Seq<Detection>,
    order: Seq<usize>,
    overlap: spec_fn(int, int) -> bool,
    v: int,
)
    requires
        is_ranking(order, dets),
        0 <= v < dets.len(),
    ensures
        ({
            let r = survivors(dets, order, kept(overlap, dets.len()), dets.len() as int);
            r.len() > 0 && !r[0].confidence.below(dets[v].confidence)
        }),
{
    surest_face_comes_first(dets, order, overlap, dets.len());
    lemma_lists_all(order, dets, v);
    let p = choose|p: int| 0 <= p < order.len() && order[p] == v;
    if p > 0 {
        assert(comes_before(dets, order[0], order[p]));
    }
}

/// How many of the first `n` ranks are kept.
pub open spec fn kept_count(keep: Seq<bool>, n: int) -> nat
    decreases n,
{
    if n <= 0 {
        0
    } else {
        kept_count(keep, n - 1) + if keep[n - 1] {
            1nat
        } else {
            0nat
        }
    }
}

/// Exactly the faces that are kept come out, each at the place that the number of kept ones before it
/// gives.
pub proof fn kept_faces_come_out(dets: Seq<Detection>, order: Seq<usize>, keep: Seq<bool>, n: int, j: int)
    requires
        0 <= j < n,
    ensures
        survivors(dets, order, keep, n).len() == kept_count(keep, n),
        keep[j] ==> kept_count(keep, j) < kept_count(keep, n) && survivors(dets, order, keep, n)[kept_count(
            keep,
            j,
        ) as int] == dets[order[j] as int],
    decreases n,
{
    lemma_survivor_count(dets, order, keep, n - 1);
    if j < n - 1 {
        kept_faces_come_out(dets, order, keep, n - 1, j);
    }
}

proof fn lemma_survivor_count(dets: Seq<Detection>, order: Seq<usize>, keep: Seq<bool>, n: int)
    ensures
        survivors(dets, order, keep, n).len() == kept_count(keep, n),
    decreases n,
{
    if n > 0 {
        lemma_survivor_count(dets, order, keep, n - 1);
    }
}

/// A face counts from one pixel in width and height on.
pub proof fn faces_have_a_pixel(width: Scalar, height: Scalar, r: bool)
    requires
        call_ensures(large_enough, (width, height), r),
    ensures
        width.below(Scalar { bits: 0x3f80_0000 }) ==> !r,
        height.below(Scalar { bits: 0x3f80_0000 }) ==> !r,
        width.reaches(Scalar { bits: 0x3f80_0000 }) && height.reaches(Scalar { bits: 0x3f80_0000 }) ==> r,
{
}

/// A face stays exactly where it overlaps none of the surer faces that stay.
pub proof fn surest_of_overlapping_faces_stays(overlaps: Vec<Vec<bool>>, keep: Vec<bool>, j: int)
    requires
        call_ensures(suppress, (&overlaps,), keep),
        0 <= j < overlaps@.len(),
    ensures
        keep@.len() == overlaps@.len(),
        keep@[j] <==> (forall|i: int| 0 <= i < j && #[trigger] keep@[i] ==> !overlaps@[i]@[j]),
{
    let t = table(overlaps@);
    lemma_kept(t, overlaps@.len(), j);
    assert forall|i: int| 0 <= i < j implies t(i, j) == overlaps@[i]@[j] by {}
    if !keep@[j] {
        let i = choose|i: int| 0 <= i < j && #[trigger] kept(t, overlaps@.len())[i] && t(i, j);
        assert(keep@[i] && overlaps@[i]@[j]);
    }
}

} // verus!
