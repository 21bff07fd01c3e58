//! The quality of a face's picture: glare, sharpness, and the texture of living skin.
//!
//! Everything that is counted or summed over whole pixels is computed here. What is left for
//! the caller is the division, the logarithm and the square root at the end.
use crate::geometry::BBox;
use crate::raster::{
    above, count_above, extract, histogram, is_histogram, lemma_index_bound, lemma_place, min_of, pixel,
    region_pixels, Region,
};
use crate::scalar::Scalar;
use vstd::prelude::*;

verus! {

/// The pixels of a face, row by row.
#[derive(Debug)]
pub struct Roi {
    pub pixels: Vec<u8>,
    pub width: usize,
    pub height: usize,
}

impl Roi {
    /// Whether there is a pixel for every place, and their number can be counted.
    pub open spec fn wf(self) -> bool {
        &&& self.pixels@.len() == self.width * self.height
        &&& self.pixels@.len() <= u32::MAX
    }

    /// The pixel in a row and column.
    pub open spec fn at(self, row: int, col: int) -> u8 {
        pixel(self.pixels@, self.width as int, row, col)
    }

    /// Whether the picture has places with neighbours on all sides.
    pub open spec fn has_inside(self) -> bool {
        self.width >= 3 && self.height >= 3
    }

    /// The place of the `k`th pixel that has neighbours on all sides.
    pub open spec fn inside(self, k: int) -> (int, int) {
        (1 + k / (self.width - 2), 1 + k % (self.width - 2))
    }

    /// How many pixels have neighbours on all sides.
    pub open spec fn inside_count(self) -> nat {
        if self.has_inside() {
            ((self.width - 2) * (self.height - 2)) as nat
        } else {
            0
        }
    }

    /// The pixel in a row and column.
    fn get(&self, row: usize, col: usize) -> (r: u8)
        requires
            self.wf(),
            row < self.height,
            col < self.width,
        ensures
            r == self.at(row as int, col as int),
    {
        proof {
            lemma_index_bound(
                row as int,
                col as int,
                self.width as int,
                self.height as int,
                self.pixels@.len() as int,
            );
        }
        self.pixels[row * self.width + col]
    }
}

/// Cuts the face out of a frame. The rectangle must not be turned round once its corners are
/// rounded and moved into the frame.
pub fn extract_roi(frame_data: &Vec<u8>, bbox: &BBox, frame_width: u32, frame_height: u32) -> (r:
    Roi)
    requires
        frame_width * frame_height <= frame_data@.len(),
        frame_width * frame_height <= u32::MAX,
        roi_is_upright(*bbox, frame_width, frame_height),
    ensures
        r.wf(),
        ({
            let region = Region::spec_of_face(*bbox, frame_width, frame_height);
            &&& r.width == region.width()
            &&& r.height == region.height()
            &&& r.pixels@ == region_pixels(frame_data@, frame_width as int, region)
        }),
{
    let region = Region::of_face(bbox, frame_width, frame_height);
    let pixels = extract(frame_data, frame_width, frame_height, &region);
    Roi {
        pixels,
        width: (region.x2 - region.x1) as usize,
        height: (region.y2 - region.y1) as usize,
    }
}

/// Whether the rectangle in the frame starts no later than it ends.
pub open spec fn roi_is_upright(bbox: BBox, frame_width: u32, frame_height: u32) -> bool {
    let r = Region::spec_of_face(bbox, frame_width, frame_height);
    r.x1 <= r.x2 && r.y1 <= r.y2
}

/// Whether the rectangle in the frame starts no later than it ends.
pub fn is_upright(bbox: &BBox, frame_width: u32, frame_height: u32) -> (r: bool)
    ensures
        r == roi_is_upright(*bbox, frame_width, frame_height),
{
    let region = Region::of_face(bbox, frame_width, frame_height);
    region.x1 <= region.x2 && region.y1 <= region.y2
}

/// A rectangle whose rounded corners are in order is upright in any frame.
pub proof fn ordered_corners_are_upright(bbox: BBox, frame_width: u32, frame_height: u32)
    requires
        bbox.x1.spec_truncate() <= bbox.x2.spec_truncate(),
        bbox.y1.spec_truncate() <= bbox.y2.spec_truncate(),
        0 <= bbox.x1.spec_truncate(),
        0 <= bbox.y1.spec_truncate(),
        bbox.x2.spec_truncate() <= u32::MAX,
        bbox.y2.spec_truncate() <= u32::MAX,
    ensures
        roi_is_upright(bbox, frame_width, frame_height),
{
}

/// The part of a frame in which glare is looked for: the face's rectangle, as far as the frame
/// has columns and full rows.
pub open spec fn glare_region(bbox: BBox, frame_width: u32, rows: int) -> Region {
    Region {
        x1: bbox.x1.spec_truncate() as u32,
        y1: bbox.y1.spec_truncate() as u32,
        x2: min_of(bbox.x2.spec_truncate(), frame_width as int) as u32,
        y2: min_of(bbox.y2.spec_truncate(), rows) as u32,
    }
}

/// How many full rows a frame of so many bytes has. Of the number of bytes the low 32 bits count.
pub open spec fn full_rows(bytes: nat, frame_width: u32) -> int {
    (bytes % 0x1_0000_0000) as int / frame_width as int
}

/// The number of pixels of a face in the frame, and how many of them are brighter than `bound`.
pub fn count_roi_pixels(frame_data: &Vec<u8>, bbox: &BBox, frame_width: u32, bound: u8) -> (r: (
    usize,
    usize,
))
    requires
        frame_width > 0,
    ensures
        ({
            let region = glare_region(
                *bbox,
                frame_width,
                full_rows(frame_data@.len(), frame_width),
            );
            let pixels = region_pixels(frame_data@, frame_width as int, region);
            &&& r.0 == pixels.len()
            &&& r.1 == above(pixels, bound)
        }),
        r.1 <= r.0 <= u32::MAX,
{
    let bytes: u32 = (frame_data.len() as u64 % 0x1_0000_0000) as u32;
    let rows: u32 = bytes / frame_width;
    let x2: u32 = bbox.x2.truncate();
    let y2: u32 = bbox.y2.truncate();
    let region = Region {
        x1: bbox.x1.truncate(),
        y1: bbox.y1.truncate(),
        x2: if x2 < frame_width {
            x2
        } else {
            frame_width
        },
        y2: if y2 < rows {
            y2
        } else {
            rows
        },
    };
    proof {
        vstd::arithmetic::div_mod::lemma_fundamental_div_mod(bytes as int, frame_width as int);
    }
    let pixels = extract(frame_data, frame_width, rows, &region);
    (pixels.len(), count_above(&pixels, bound))
}

/// Whether more than 30 % of the face's pixels are brighter than 250. Foreheads and noses always
/// shine a little in infrared light.
pub fn ir_saturated(frame_data: &Vec<u8>, bbox: &BBox, frame_width: u32) -> (r: bool)
    requires
        frame_width > 0,
    ensures
        r == {
            let region = glare_region(
                *bbox,
                frame_width,
                full_rows(frame_data@.len(), frame_width),
            );
            let pixels = region_pixels(frame_data@, frame_width as int, region);
            pixels.len() > 0 && 100 * above(pixels, 250) > 30 * pixels.len()
        },
{
    let (total, saturated) = count_roi_pixels(frame_data, bbox, frame_width, 250);
    if total == 0 {
        return false;
    }
    100 * saturated as u64 > 30 * total as u64
}

/// The response of the kernel `[[0,1,0],[1,-4,1],[0,1,0]]` at a place.
pub open spec fn laplacian_at(roi: Roi, row: int, col: int) -> int {
    roi.at(row - 1, col) + roi.at(row + 1, col) + roi.at(row, col - 1) + roi.at(row, col + 1) - 4
        * roi.at(row, col)
}

/// The kernel's responses at all places with neighbours on all sides, row by row. How much they
/// vary is the sharpness of the picture; a picture without such places has none.
pub fn laplacian(roi: &Roi) -> (r: Vec<i32>)
    requires
        roi.wf(),
    ensures
        r@.len() == roi.inside_count(),
        forall|k: int|
            0 <= k < r@.len() ==> #[trigger] r@[k] == laplacian_at(
                *roi,
                roi.inside(k).0,
                roi.inside(k).1,
            ),
{
    let mut r: Vec<i32> = Vec::new();
    if roi.width < 3 || roi.height < 3 {
        return r;
    }
    let ghost w = roi.width - 2;
    let mut row: usize = 1;
    proof {
        assert(w * 0 == 0);
    }
    while row < roi.height - 1
        invariant
            roi.wf(),
            roi.has_inside(),
            w == roi.width - 2,
            1 <= row <= roi.height - 1,
            r@.len() == w * (row - 1),
            forall|k: int|
                0 <= k < r@.len() ==> #[trigger] r@[k] == laplacian_at(
                    *roi,
                    roi.inside(k).0,
                    roi.inside(k).1,
                ),
        decreases roi.height - row,
    {
        let mut col: usize = 1;
        while col < roi.width - 1
            invariant
                roi.wf(),
                roi.has_inside(),
                w == roi.width - 2,
                1 <= row < roi.height - 1,
                1 <= col <= roi.width - 1,
                r@.len() == w * (row - 1) + (col - 1),
                forall|k: int|
                    0 <= k < r@.len() ==> #[trigger] r@[k] == laplacian_at(
                        *roi,
                        roi.inside(k).0,
                        roi.inside(k).1,
                    ),
            decreases roi.width - col,
        {
            proof {
                lemma_place(row - 1, col - 1, w);
                assert(w * (row - 1) == (row - 1) * w) by (nonlinear_arith);
            }
            let center: i32 = roi.get(row, col) as i32;
            let up: i32 = roi.get(row - 1, col) as i32;
            let down: i32 = roi.get(row + 1, col) as i32;
            let left: i32 = roi.get(row, col - 1) as i32;
            let right: i32 = roi.get(row, col + 1) as i32;
            r.push(up + down + left + right - 4 * center);
            col += 1;
        }
        assert(w * (row - 1) + w == w * (row + 1 - 1)) by (nonlinear_arith);
        row += 1;
    }
    r
}

/// The local binary pattern at a place: one bit for each of the eight neighbours, clockwise
/// from the right, set where the neighbour is at least as bright.
pub open spec fn lbp_at(roi: Roi, row: int, col: int) -> int {
    let c = roi.at(row, col);
    let bit = |r: int, k: int, weight: int| if roi.at(r, k) >= c {
        weight
    } else {
        0int
    };
    bit(row, col + 1, 1) + bit(row + 1, col + 1, 2) + bit(row + 1, col, 4) + bit(
        row + 1,
        col - 1,
        8,
    ) + bit(row, col - 1, 16) + bit(row - 1, col - 1, 32) + bit(row - 1, col, 64) + bit(
        row - 1,
        col + 1,
        128,
    )
}

fn bit(neighbour: u8, center: u8, weight: u8) -> (r: u8)
    ensures
        r == if neighbour >= center {
            weight
        } else {
            0
        },
{
    if neighbour >= center {
        weight
    } else {
        0
    }
}

/// The patterns at all places with neighbours on all sides, row by row.
pub fn lbp_patterns(roi: &Roi) -> (r: Vec<u8>)
    requires
        roi.wf(),
    ensures
        r@.len() == roi.inside_count(),
        r@.len() <= roi.pixels@.len(),
        forall|k: int|
            0 <= k < r@.len() ==> #[trigger] r@[k] == lbp_at(
                *roi,
                roi.inside(k).0,
                roi.inside(k).1,
            ),
{
    let mut r: Vec<u8> = Vec::new();
    if roi.width < 3 || roi.height < 3 {
        return r;
    }
    let ghost w = roi.width - 2;
    let mut row: usize = 1;
    proof {
        assert(w * 0 == 0);
        assert(w * (roi.height - 2) <= roi.width * roi.height) by (nonlinear_arith)
            requires
                w == roi.width - 2,
                roi.width >= 3,
                roi.height >= 3,
        ;
    }
    while row < roi.height - 1
        invariant
            roi.wf(),
            roi.has_inside(),
            w == roi.width - 2,
            1 <= row <= roi.height - 1,
            r@.len() == w * (row - 1),
            forall|k: int|
                0 <= k < r@.len() ==> #[trigger] r@[k] == lbp_at(
                    *roi,
                    roi.inside(k).0,
                    roi.inside(k).1,
                ),
        decreases roi.height - row,
    {
        let mut col: usize = 1;
        while col < roi.width - 1
            invariant
                roi.wf(),
                roi.has_inside(),
                w == roi.width - 2,
                1 <= row < roi.height - 1,
                1 <= col <= roi.width - 1,
                r@.len() == w * (row - 1) + (col - 1),
                forall|k: int|
                    0 <= k < r@.len() ==> #[trigger] r@[k] == lbp_at(
                        *roi,
                        roi.inside(k).0,
                        roi.inside(k).1,
                    ),
            decreases roi.width - col,
        {
            proof {
                lemma_place(row - 1, col - 1, w);
                assert(w * (row - 1) == (row - 1) * w) by (nonlinear_arith);
            }
            let c: u8 = roi.get(row, col);
            let b0: u8 = bit(roi.get(row, col + 1), c, 1);
            let b1: u8 = bit(roi.get(row + 1, col + 1), c, 2);
            let b2: u8 = bit(roi.get(row + 1, col), c, 4);
            let b3: u8 = bit(roi.get(row + 1, col - 1), c, 8);
            let b4: u8 = bit(roi.get(row, col - 1), c, 16);
            let b5: u8 = bit(roi.get(row - 1, col - 1), c, 32);
            let b6: u8 = bit(roi.get(row - 1, col), c, 64);
            let b7: u8 = bit(roi.get(row - 1, col + 1), c, 128);
            r.push(b0 + b1 + b2 + b3 + b4 + b5 + b6 + b7);
            col += 1;
        }
        assert(w * (row - 1) + w == w * (row + 1 - 1)) by (nonlinear_arith);
        row += 1;
    }
    r
}

/// The patterns at all places with neighbours on all sides, row by row.
pub open spec fn lbp_seq(roi: Roi) -> Seq<u8> {
    Seq::new(roi.inside_count(), |k: int| lbp_at(roi, roi.inside(k).0, roi.inside(k).1) as u8)
}

/// How often each pattern occurs. The entropy of these counts is the entropy of the texture.
pub fn lbp_histogram(roi: &Roi) -> (r: Vec<u32>)
    requires
        roi.wf(),
    ensures
        is_histogram(r@, lbp_seq(*roi)),
{
    let patterns = lbp_patterns(roi);
    assert(patterns@ =~= lbp_seq(*roi));
    histogram(&patterns)
}

/// Side of a patch, in pixels.
pub const PATCH_SIZE: usize = 16;

/// The sum of the pixels of a patch, or of their squares, over the first `n` pixels of it.
pub open spec fn patch_sum(roi: Roi, py: int, px: int, n: int, squares: bool) -> int
    decreases n,
{
    if n <= 0 {
        0
    } else {
        let v = roi.at(py * PATCH_SIZE + (n - 1) / 16, px * PATCH_SIZE + (n - 1) % 16) as int;
        patch_sum(roi, py, px, n - 1, squares) + if squares {
            v * v
        } else {
            v
        }
    }
}

/// The sum of the pixels of a patch and the sum of their squares.
fn patch_sums(roi: &Roi, py: usize, px: usize) -> (r: (u32, u32))
    requires
        roi.wf(),
        py < roi.height / PATCH_SIZE,
        px < roi.width / PATCH_SIZE,
    ensures
        r.0 == patch_sum(*roi, py as int, px as int, 256, false),
        r.1 == patch_sum(*roi, py as int, px as int, 256, true),
{
    let mut sum: u32 = 0;
    let mut sum_sq: u32 = 0;
    let mut n: usize = 0;
    while n < 256
        invariant
            n <= 256,
            roi.wf(),
            py < roi.height / PATCH_SIZE,
            px < roi.width / PATCH_SIZE,
            sum == patch_sum(*roi, py as int, px as int, n as int, false),
            sum_sq == patch_sum(*roi, py as int, px as int, n as int, true),
            sum <= n * 255,
            sum_sq <= n * 65025,
        decreases 256 - n,
    {
        let v: u32 = roi.get(py * PATCH_SIZE + n / 16, px * PATCH_SIZE + n % 16) as u32;
        assert(v * v <= 65025) by (nonlinear_arith)
            requires
                v <= 255,
        ;
        sum += v;
        sum_sq += v * v;
        n += 1;
    }
    (sum, sum_sq)
}

/// The sums of every whole patch, row by row. The spread of the patches' contrasts is computed
/// from them.
pub fn patch_statistics(roi: &Roi) -> (r: Vec<(u32, u32)>)
    requires
        roi.wf(),
    ensures
        r@.len() == (roi.width / PATCH_SIZE) * (roi.height / PATCH_SIZE),
        forall|k: int|
            0 <= k < r@.len() ==> {
                let columns = (roi.width / PATCH_SIZE) as int;
                &&& (#[trigger] r@[k]).0 == patch_sum(*roi, k / columns, k % columns, 256, false)
                &&& r@[k].1 == patch_sum(*roi, k / columns, k % columns, 256, true)
            },
{
    let columns: usize = roi.width / PATCH_SIZE;
    let rows: usize = roi.height / PATCH_SIZE;
    let mut r: Vec<(u32, u32)> = Vec::new();
    let mut py: usize = 0;
    assert(columns * 0 == 0);
    while py < rows
        invariant
            roi.wf(),
            columns == roi.width / PATCH_SIZE,
            rows == roi.height / PATCH_SIZE,
            py <= rows,
            r@.len() == columns * py,
            forall|k: int|
                0 <= k < r@.len() ==> {
                    &&& (#[trigger] r@[k]).0 == patch_sum(
                        *roi,
                        k / (columns as int),
                        k % (columns as int),
                        256,
                        false,
                    )
                    &&& r@[k].1 == patch_sum(
                        *roi,
                        k / (columns as int),
                        k % (columns as int),
                        256,
                        true,
                    )
                },
        decreases rows - py,
    {
        let mut px: usize = 0;
        while px < columns
            invariant
                roi.wf(),
                columns == roi.width / PATCH_SIZE,
                rows == roi.height / PATCH_SIZE,
                py < rows,
                px <= columns,
                r@.len() == columns * py + px,
                forall|k: int|
                    0 <= k < r@.len() ==> {
                        &&& (#[trigger] r@[k]).0 == patch_sum(
                            *roi,
                            k / (columns as int),
                            k % (columns as int),
                            256,
                            false,
                        )
                        &&& r@[k].1 == patch_sum(
                            *roi,
                            k / (columns as int),
                            k % (columns as int),
                            256,
                            true,
                        )
                    },
            decreases columns - px,
        {
            proof {
                lemma_place(py as int, px as int, columns as int);
                assert(columns * py == py * columns) by (nonlinear_arith);
            }
            r.push(patch_sums(roi, py, px));
            px += 1;
        }
        assert(columns * py + columns == columns * (py + 1)) by (nonlinear_arith);
        py += 1;
    }
    assert(columns * rows == rows * columns) by (nonlinear_arith);
    r
}

/// The texture of a face in infrared light.
#[derive(Debug, Clone, Copy, PartialEq, Eq, Structural)]
pub struct IrLivenessScores {
    /// Entropy of the local binary patterns: high for skin, low for a screen or a photo.
    pub lbp_entropy: Scalar,
    /// Variation of the local contrasts: a face has parts that differ, a flat picture has not.
    pub local_contrast_cv: Scalar,
}

impl IrLivenessScores {
    /// Whether the texture is that of a living face.
    pub open spec fn live(
        self,
        lbp_entropy_min: Scalar,
        local_contrast_cv_min: Scalar,
        local_contrast_cv_max: Scalar,
    ) -> bool {
        &&& self.lbp_entropy.reaches(lbp_entropy_min)
        &&& self.local_contrast_cv.reaches(local_contrast_cv_min)
        &&& local_contrast_cv_max.reaches(self.local_contrast_cv)
    }

    /// Whether the texture is that of a living face.
    pub fn is_live(
        &self,
        lbp_entropy_min: Scalar,
        local_contrast_cv_min: Scalar,
        local_contrast_cv_max: Scalar,
    ) -> (r: bool)
        ensures
            r == self.live(lbp_entropy_min, local_contrast_cv_min, local_contrast_cv_max),
    {
        self.lbp_entropy.ge(lbp_entropy_min) && self.local_contrast_cv.ge(local_contrast_cv_min)
            && self.local_contrast_cv.le(local_contrast_cv_max)
    }
}

/// A picture of a single brightness has no edges, and every place in it shows the pattern in
/// which all bits are set.
pub proof fn flat_picture_has_no_texture(roi: Roi, row: int, col: int, v: u8)
    requires
        1 <= row < roi.height - 1,
        1 <= col < roi.width - 1,
        forall|r: int, c: int|
            0 <= r < roi.height && 0 <= c < roi.width ==> #[trigger] roi.at(r, c) == v,
    ensures
        laplacian_at(roi, row, col) == 0,
        lbp_at(roi, row, col) == 255,
{
}

/// Two pictures that differ in one pixel.
pub open spec fn one_pixel_apart(a: Roi, b: Roi, row: int, col: int, v: u8) -> bool {
    &&& a.wf()
    &&& a.width == b.width
    &&& a.height == b.height
    &&& 0 <= row < a.height
    &&& 0 <= col < a.width
    &&& b.pixels@ == a.pixels@.update(row * a.width + col, v)
}

proof fn lemma_other_pixels(a: Roi, b: Roi, row: int, col: int, v: u8, r: int, c: int)
    requires
        one_pixel_apart(a, b, row, col, v),
        0 <= r < a.height,
        0 <= c < a.width,
    ensures
        b.at(r, c) == if r == row && c == col {
            v
        } else {
            a.at(r, c)
        },
{
    let w = a.width as int;
    let len = a.pixels@.len() as int;
    lemma_index_bound(row, col, w, a.height as int, len);
    lemma_index_bound(r, c, w, a.height as int, len);
    lemma_place(row, col, w);
    lemma_place(r, c, w);
}

proof fn lemma_patch_change(
    a: Roi,
    b: Roi,
    row: int,
    col: int,
    v: u8,
    qy: int,
    qx: int,
    n: int,
    squares: bool,
)
    requires
        one_pixel_apart(a, b, row, col, v),
        0 <= qy,
        0 <= qx,
        16 * qy + 16 <= a.height,
        16 * qx + 16 <= a.width,
        0 <= n <= 256,
    ensures
        ({
            let u = a.at(row, col) as int;
            let change = if squares {
                v * v - u * u
            } else {
                v - u
            };
            patch_sum(b, qy, qx, n, squares) - patch_sum(a, qy, qx, n, squares) == if row / 16 == qy
                && col / 16 == qx && (row % 16) * 16 + col % 16 < n {
                change
            } else {
                0
            }
        }),
    decreases n,
{
    if n > 0 {
        lemma_patch_change(a, b, row, col, v, qy, qx, n - 1, squares);
        let (r, c) = (qy * 16 + (n - 1) / 16, qx * 16 + (n - 1) % 16);
        lemma_other_pixels(a, b, row, col, v, r, c);
        assert(r / 16 == qy && r % 16 == (n - 1) / 16);
        assert(c / 16 == qx && c % 16 == (n - 1) % 16);
    }
}

/// Every pixel of a patch counts once in its sums, and in those of no other patch: a pixel that
/// changes from `u` to `v` changes the first sum of its patch by `v - u` and the second by
/// `v * v - u * u`.
pub proof fn each_pixel_counts_once(
    a: Roi,
    b: Roi,
    py: int,
    px: int,
    dy: int,
    dx: int,
    v: u8,
    qy: int,
    qx: int,
)
    requires
        0 <= dy < 16,
        0 <= dx < 16,
        one_pixel_apart(a, b, py * 16 + dy, px * 16 + dx, v),
        0 <= qy,
        0 <= qx,
        16 * qy + 16 <= a.height,
        16 * qx + 16 <= a.width,
    ensures
        ({
            let u = a.at(py * 16 + dy, px * 16 + dx) as int;
            let here = qy == py && qx == px;
            &&& patch_sum(b, qy, qx, 256, false) - patch_sum(a, qy, qx, 256, false) == if here {
                v - u
            } else {
                0
            }
            &&& patch_sum(b, qy, qx, 256, true) - patch_sum(a, qy, qx, 256, true) == if here {
                v * v - u * u
            } else {
                0
            }
        }),
{
    let (row, col) = (py * 16 + dy, px * 16 + dx);
    lemma_patch_change(a, b, row, col, v, qy, qx, 256, false);
    lemma_patch_change(a, b, row, col, v, qy, qx, 256, true);
    assert(row / 16 == py && row % 16 == dy);
    assert(col / 16 == px && col % 16 == dx);
}

/// The sums of a black picture are zero.
pub proof fn black_picture_sums_to_nothing(roi: Roi, py: int, px: int, n: int, squares: bool)
    requires
        0 <= py,
        0 <= px,
        16 * py + 16 <= roi.height,
        16 * px + 16 <= roi.width,
        n <= 256,
        forall|r: int, c: int|
            0 <= r < roi.height && 0 <= c < roi.width ==> #[trigger] roi.at(r, c) == 0,
    ensures
        patch_sum(roi, py, px, n, squares) == 0,
    decreases n,
{
    if n > 0 {
        black_picture_sums_to_nothing(roi, py, px, n - 1, squares);
        let (r, c) = (py * 16 + (n - 1) / 16, px * 16 + (n - 1) % 16);
        assert(roi.at(r, c) == 0);
    }
}

/// An edge is felt from all four sides alike: the response is what the neighbours above, below, left
/// and right are brighter by, all together.
pub proof fn response_is_the_difference_to_four_neighbours(roi: Roi, row: int, col: int)
    ensures
        laplacian_at(roi, row, col) == (roi.at(row - 1, col) - roi.at(row, col)) + (roi.at(row + 1, col)
            - roi.at(row, col)) + (roi.at(row, col - 1) - roi.at(row, col)) + (roi.at(row, col + 1)
            - roi.at(row, col)),
{
}

/// Each of the eight neighbours of a place has a bit of its own in the pattern there, which tells
/// whether it is at least as bright.
pub proof fn each_neighbour_has_its_bit(roi: Roi, row: int, col: int)
    ensures
        ({
            let p = lbp_at(roi, row, col);
            let c = roi.at(row, col);
            &&& 0 <= p < 256
            &&& p % 2 == 1 <==> roi.at(row, col + 1) >= c
            &&& (p / 2) % 2 == 1 <==> roi.at(row + 1, col + 1) >= c
            &&& (p / 4) % 2 == 1 <==> roi.at(row + 1, col) >= c
            &&& (p / 8) % 2 == 1 <==> roi.at(row + 1, col - 1) >= c
            &&& (p / 16) % 2 == 1 <==> roi.at(row, col - 1) >= c
            &&& (p / 32) % 2 == 1 <==> roi.at(row - 1, col - 1) >= c
            &&& (p / 64) % 2 == 1 <==> roi.at(row - 1, col) >= c
            &&& (p / 128) % 2 == 1 <==> roi.at(row - 1, col + 1) >= c
        }),
{
}

/// Every place with neighbours on all sides is looked at once, row by row.
pub proof fn inside_places_come_row_by_row(roi: Roi, row: int, col: int)
    requires
        1 <= row < roi.height - 1,
        1 <= col < roi.width - 1,
    ensures
        ({
            let k = (row - 1) * (roi.width - 2) + (col - 1);
            0 <= k < roi.inside_count() && roi.inside(k) == (row, col)
        }),
{
    let w = roi.width - 2;
    let h = roi.height - 2;
    lemma_place(row - 1, col - 1, w);
    lemma_index_bound(row - 1, col - 1, w, h, w * h);
}

/// Glare is looked for in the face's rectangle, the corners rounded towards zero, as far as the frame
/// has columns and full rows.
pub proof fn glare_is_looked_for_in_the_rectangle(bbox: BBox, frame_width: u32, rows: int, row: int, col: int)
    requires
        0 <= rows <= u32::MAX,
        0 <= bbox.x1.spec_truncate() <= u32::MAX,
        0 <= bbox.y1.spec_truncate() <= u32::MAX,
        0 <= bbox.x2.spec_truncate(),
        0 <= bbox.y2.spec_truncate(),
    ensures
        ({
            let r = glare_region(bbox, frame_width, rows);
            &&& r.x1 <= col < r.x2 <==> bbox.x1.spec_truncate() <= col < bbox.x2.spec_truncate() && col
                < frame_width
            &&& r.y1 <= row < r.y2 <==> bbox.y1.spec_truncate() <= row < bbox.y2.spec_truncate() && row
                < rows
        }),
{
}

/// A row of a frame is full where all its bytes are there.
pub proof fn full_rows_are_whole(bytes: nat, frame_width: u32)
    requires
        frame_width > 0,
        bytes < 0x1_0000_0000,
    ensures
        full_rows(bytes, frame_width) * frame_width <= bytes < (full_rows(bytes, frame_width) + 1)
            * frame_width,
{
    let w = frame_width as int;
    let q = full_rows(bytes, frame_width);
    vstd::arithmetic::div_mod::lemma_fundamental_div_mod(bytes as int, w);
    assert(q * w <= bytes < (q + 1) * w) by (nonlinear_arith)
        requires
            bytes == w * q + bytes as int % w,
            0 <= bytes as int % w < w,
    ;
}

/// A texture is that of a living face exactly where its entropy is not too low and its contrasts vary
/// neither too little nor too much.
pub proof fn texture_must_lie_between_the_limits(
    s: IrLivenessScores,
    lbp_entropy_min: Scalar,
    local_contrast_cv_min: Scalar,
    local_contrast_cv_max: Scalar,
)
    requires
        !s.lbp_entropy.nan(),
        !s.local_contrast_cv.nan(),
        !lbp_entropy_min.nan(),
        !local_contrast_cv_min.nan(),
        !local_contrast_cv_max.nan(),
    ensures
        s.live(lbp_entropy_min, local_contrast_cv_min, local_contrast_cv_max) <==> {
            &&& !s.lbp_entropy.below(lbp_entropy_min)
            &&& !s.local_contrast_cv.below(local_contrast_cv_min)
            &&& !local_contrast_cv_max.below(s.local_contrast_cv)
        },
{
}

/// Of the number of bytes the low 32 bits count.
pub proof fn rows_count_low_bits(bytes: nat, frame_width: u32)
    ensures
        full_rows(bytes + 0x1_0000_0000, frame_width) == full_rows(bytes, frame_width),
{
    assert((bytes + 0x1_0000_0000) % 0x1_0000_0000 == bytes % 0x1_0000_0000);
}

/// The patterns stand row by row: that of a place with neighbours on all sides stands behind those of
/// the places before it.
pub proof fn patterns_stand_row_by_row(roi: Roi, row: int, col: int)
    requires
        1 <= row < roi.height - 1,
        1 <= col < roi.width - 1,
    ensures
        ({
            let k = (row - 1) * (roi.width - 2) + (col - 1);
            &&& 0 <= k < lbp_seq(roi).len()
            &&& lbp_seq(roi)[k] == lbp_at(roi, row, col)
        }),
{
    inside_places_come_row_by_row(roi, row, col);
    each_neighbour_has_its_bit(roi, row, col);
}

/// A face glares exactly where more than three in ten of its pixels are brighter than 250.
pub proof fn glare_is_three_in_ten(frame_data: Vec<u8>, bbox: BBox, frame_width: u32, r: bool)
    requires
        call_ensures(ir_saturated, (&frame_data, &bbox, frame_width), r),
    ensures
        ({
            let region = glare_region(bbox, frame_width, full_rows(frame_data@.len(), frame_width));
            let pixels = region_pixels(frame_data@, frame_width as int, region);
            r <==> 10 * crate::raster::places_above(pixels, 250).len() > 3 * pixels.len()
        }),
{
    let region = glare_region(bbox, frame_width, full_rows(frame_data@.len(), frame_width));
    let pixels = region_pixels(frame_data@, frame_width as int, region);
    crate::raster::each_bright_entry_counts_once(pixels, 250);
    if pixels.len() == 0 {
        assert(crate::raster::places_above(pixels, 250) =~= Set::<int>::empty());
    }
}

/// The statistics stand patch by patch, row by row: a pixel that changes from `u` to `v` changes the
/// entry of its patch by `v - u` and `v * v - u * u`, and no other entry.
pub proof fn one_pixel_changes_one_entry(
    a: Roi,
    b: Roi,
    of_a: Vec<(u32, u32)>,
    of_b: Vec<(u32, u32)>,
    py: int,
    px: int,
    dy: int,
    dx: int,
    v: u8,
    k: int,
)
    requires
        call_ensures(patch_statistics, (&a,), of_a),
        call_ensures(patch_statistics, (&b,), of_b),
        0 <= dy < 16,
        0 <= dx < 16,
        0 <= py < a.height / 16,
        0 <= px < a.width / 16,
        one_pixel_apart(a, b, py * 16 + dy, px * 16 + dx, v),
        0 <= k < of_a@.len(),
    ensures
        of_b@.len() == of_a@.len(),
        ({
            let u = a.at(py * 16 + dy, px * 16 + dx) as int;
            if k == py * (a.width / 16) + px {
                &&& of_b@[k].0 - of_a@[k].0 == v - u
                &&& of_b@[k].1 - of_a@[k].1 == v * v - u * u
            } else {
                of_b@[k] == of_a@[k]
            }
        }),
{
    let columns = (a.width / 16) as int;
    let rows = (a.height / 16) as int;
    assert(of_a@.len() == columns * rows);
    let (x, y) = (of_a@[k], of_b@[k]);
    crate::raster::lemma_in_rectangle(k, columns, rows);
    let (qy, qx) = (k / columns, k % columns);
    each_pixel_counts_once(a, b, py, px, dy, dx, v, qy, qx);
    lemma_place(py, px, columns);
}

/// The face that is cut out has the pixels of the frame, from the corner of its rectangle on.
pub proof fn cut_out_face_is_that_of_the_frame(
    frame_data: Vec<u8>,
    bbox: BBox,
    frame_width: u32,
    frame_height: u32,
    r: Roi,
    row: int,
    col: int,
)
    requires
        call_ensures(extract_roi, (&frame_data, &bbox, frame_width, frame_height), r),
        0 <= row < r.height,
        0 <= col < r.width,
    ensures
        ({
            let region = Region::spec_of_face(bbox, frame_width, frame_height);
            r.at(row, col) == frame_data@[(region.y1 + row) * frame_width + (region.x1 + col)]
        }),
{
    let region = Region::spec_of_face(bbox, frame_width, frame_height);
    crate::raster::region_holds_its_pixels(
        frame_data@,
        frame_width as int,
        region,
        region.y1 + row,
        region.x1 + col,
    );
}

/// The responses stand row by row, each the difference of a pixel to its four neighbours.
pub proof fn responses_stand_row_by_row(roi: Roi, r: Vec<i32>, row: int, col: int)
    requires
        call_ensures(laplacian, (&roi,), r),
        1 <= row < roi.height - 1,
        1 <= col < roi.width - 1,
    ensures
        ({
            let k = (row - 1) * (roi.width - 2) + (col - 1);
            let c = roi.at(row, col);
            &&& 0 <= k < r@.len()
            &&& r@[k] == (roi.at(row - 1, col) - c) + (roi.at(row + 1, col) - c) + (roi.at(row, col - 1)
                - c) + (roi.at(row, col + 1) - c)
        }),
{
    inside_places_come_row_by_row(roi, row, col);
    response_is_the_difference_to_four_neighbours(roi, row, col);
    let k = (row - 1) * (roi.width - 2) + (col - 1);
    assert(r@[k] == laplacian_at(roi, roi.inside(k).0, roi.inside(k).1));
}

} // verus!
