//! Shapes, and how they are drawn on a picture: rectangles, circles, letters and grey pictures.
use crate::raster::{lemma_index_bound, min_of};
use vstd::prelude::*;

verus! {

/// Width of the part of the debug window that shows the camera's frame.
pub const CAM_W: usize = 640;

/// Height of the part of the debug window that shows the camera's frame.
pub const CAM_H: usize = 360;

/// The characters from ' ' to '~', seven rows each. A row has a bit for each of its five pixels,
/// that of the leftmost is the highest.
pub const FONT_5X7: [[u8; 7]; 95] = [
    [0x00, 0x00, 0x00, 0x00, 0x00, 0x00, 0x00],
    [0x04, 0x04, 0x04, 0x04, 0x04, 0x00, 0x04],
    [0x0a, 0x0a, 0x00, 0x00, 0x00, 0x00, 0x00],
    [0x0a, 0x1f, 0x0a, 0x0a, 0x1f, 0x0a, 0x00],
    [0x04, 0x0f, 0x14, 0x0e, 0x05, 0x1e, 0x04],
    [0x18, 0x19, 0x02, 0x04, 0x08, 0x13, 0x03],
    [0x08, 0x14, 0x14, 0x08, 0x15, 0x12, 0x0d],
    [0x04, 0x04, 0x00, 0x00, 0x00, 0x00, 0x00],
    [0x02, 0x04, 0x08, 0x08, 0x08, 0x04, 0x02],
    [0x08, 0x04, 0x02, 0x02, 0x02, 0x04, 0x08],
    [0x00, 0x04, 0x15, 0x0e, 0x15, 0x04, 0x00],
    [0x00, 0x04, 0x04, 0x1f, 0x04, 0x04, 0x00],
    [0x00, 0x00, 0x00, 0x00, 0x00, 0x04, 0x08],
    [0x00, 0x00, 0x00, 0x1f, 0x00, 0x00, 0x00],
    [0x00, 0x00, 0x00, 0x00, 0x00, 0x00, 0x04],
    [0x00, 0x01, 0x02, 0x04, 0x08, 0x10, 0x00],
    [0x0e, 0x11, 0x13, 0x15, 0x19, 0x11, 0x0e],
    [0x04, 0x0c, 0x04, 0x04, 0x04, 0x04, 0x0e],
    [0x0e, 0x11, 0x01, 0x06, 0x08, 0x10, 0x1f],
    [0x0e, 0x11, 0x01, 0x06, 0x01, 0x11, 0x0e],
    [0x02, 0x06, 0x0a, 0x12, 0x1f, 0x02, 0x02],
    [0x1f, 0x10, 0x1e, 0x01, 0x01, 0x11, 0x0e],
    [0x06, 0x08, 0x10, 0x1e, 0x11, 0x11, 0x0e],
    [0x1f, 0x01, 0x02, 0x04, 0x08, 0x08, 0x08],
    [0x0e, 0x11, 0x11, 0x0e, 0x11, 0x11, 0x0e],
    [0x0e, 0x11, 0x11, 0x0f, 0x01, 0x02, 0x0c],
    [0x00, 0x00, 0x04, 0x00, 0x00, 0x04, 0x00],
    [0x00, 0x00, 0x04, 0x00, 0x00, 0x04, 0x08],
    [0x02, 0x04, 0x08, 0x10, 0x08, 0x04, 0x02],
    [0x00, 0x00, 0x1f, 0x00, 0x1f, 0x00, 0x00],
    [0x08, 0x04, 0x02, 0x01, 0x02, 0x04, 0x08],
    [0x0e, 0x11, 0x01, 0x02, 0x04, 0x00, 0x04],
    [0x0e, 0x11, 0x17, 0x15, 0x17, 0x10, 0x0e],
    [0x0e, 0x11, 0x11, 0x1f, 0x11, 0x11, 0x11],
    [0x1e, 0x11, 0x11, 0x1e, 0x11, 0x11, 0x1e],
    [0x0e, 0x11, 0x10, 0x10, 0x10, 0x11, 0x0e],
    [0x1e, 0x11, 0x11, 0x11, 0x11, 0x11, 0x1e],
    [0x1f, 0x10, 0x10, 0x1e, 0x10, 0x10, 0x1f],
    [0x1f, 0x10, 0x10, 0x1e, 0x10, 0x10, 0x10],
    [0x0e, 0x11, 0x10, 0x17, 0x11, 0x11, 0x0e],
    [0x11, 0x11, 0x11, 0x1f, 0x11, 0x11, 0x11],
    [0x0e, 0x04, 0x04, 0x04, 0x04, 0x04, 0x0e],
    [0x07, 0x02, 0x02, 0x02, 0x02, 0x12, 0x0c],
    [0x11, 0x12, 0x14, 0x18, 0x14, 0x12, 0x11],
    [0x10, 0x10, 0x10, 0x10, 0x10, 0x10, 0x1f],
    [0x11, 0x1b, 0x15, 0x15, 0x11, 0x11, 0x11],
    [0x11, 0x19, 0x15, 0x13, 0x11, 0x11, 0x11],
    [0x0e, 0x11, 0x11, 0x11, 0x11, 0x11, 0x0e],
    [0x1e, 0x11, 0x11, 0x1e, 0x10, 0x10, 0x10],
    [0x0e, 0x11, 0x11, 0x11, 0x15, 0x12, 0x0d],
    [0x1e, 0x11, 0x11, 0x1e, 0x14, 0x12, 0x11],
    [0x0e, 0x11, 0x10, 0x0e, 0x01, 0x11, 0x0e],
    [0x1f, 0x04, 0x04, 0x04, 0x04, 0x04, 0x04],
    [0x11, 0x11, 0x11, 0x11, 0x11, 0x11, 0x0e],
    [0x11, 0x11, 0x11, 0x11, 0x0a, 0x0a, 0x04],
    [0x11, 0x11, 0x11, 0x15, 0x15, 0x1b, 0x11],
    [0x11, 0x11, 0x0a, 0x04, 0x0a, 0x11, 0x11],
    [0x11, 0x11, 0x0a, 0x04, 0x04, 0x04, 0x04],
    [0x1f, 0x01, 0x02, 0x04, 0x08, 0x10, 0x1f],
    [0x0e, 0x08, 0x08, 0x08, 0x08, 0x08, 0x0e],
    [0x00, 0x10, 0x08, 0x04, 0x02, 0x01, 0x00],
    [0x0e, 0x02, 0x02, 0x02, 0x02, 0x02, 0x0e],
    [0x04, 0x0a, 0x11, 0x00, 0x00, 0x00, 0x00],
    [0x00, 0x00, 0x00, 0x00, 0x00, 0x00, 0x1f],
    [0x08, 0x04, 0x00, 0x00, 0x00, 0x00, 0x00],
    [0x00, 0x00, 0x0e, 0x01, 0x0f, 0x11, 0x0f],
    [0x10, 0x10, 0x1e, 0x11, 0x11, 0x11, 0x1e],
    [0x00, 0x00, 0x0e, 0x11, 0x10, 0x11, 0x0e],
    [0x01, 0x01, 0x0f, 0x11, 0x11, 0x11, 0x0f],
    [0x00, 0x00, 0x0e, 0x11, 0x1f, 0x10, 0x0e],
    [0x06, 0x08, 0x1e, 0x08, 0x08, 0x08, 0x08],
    [0x00, 0x00, 0x0f, 0x11, 0x0f, 0x01, 0x0e],
    [0x10, 0x10, 0x1e, 0x11, 0x11, 0x11, 0x11],
    [0x04, 0x00, 0x0c, 0x04, 0x04, 0x04, 0x0e],
    [0x02, 0x00, 0x06, 0x02, 0x02, 0x12, 0x0c],
    [0x10, 0x10, 0x12, 0x14, 0x18, 0x14, 0x12],
    [0x0c, 0x04, 0x04, 0x04, 0x04, 0x04, 0x0e],
    [0x00, 0x00, 0x1a, 0x15, 0x15, 0x15, 0x15],
    [0x00, 0x00, 0x1e, 0x11, 0x11, 0x11, 0x11],
    [0x00, 0x00, 0x0e, 0x11, 0x11, 0x11, 0x0e],
    [0x00, 0x00, 0x1e, 0x11, 0x1e, 0x10, 0x10],
    [0x00, 0x00, 0x0f, 0x11, 0x0f, 0x01, 0x01],
    [0x00, 0x00, 0x16, 0x19, 0x10, 0x10, 0x10],
    [0x00, 0x00, 0x0f, 0x10, 0x0e, 0x01, 0x1e],
    [0x08, 0x08, 0x1e, 0x08, 0x08, 0x09, 0x06],
    [0x00, 0x00, 0x11, 0x11, 0x11, 0x11, 0x0f],
    [0x00, 0x00, 0x11, 0x11, 0x11, 0x0a, 0x04],
    [0x00, 0x00, 0x11, 0x11, 0x15, 0x15, 0x0a],
    [0x00, 0x00, 0x11, 0x0a, 0x04, 0x0a, 0x11],
    [0x00, 0x00, 0x11, 0x11, 0x0f, 0x01, 0x0e],
    [0x00, 0x00, 0x1f, 0x02, 0x04, 0x08, 0x1f],
    [0x02, 0x04, 0x04, 0x08, 0x04, 0x04, 0x02],
    [0x04, 0x04, 0x04, 0x04, 0x04, 0x04, 0x04],
    [0x08, 0x04, 0x04, 0x02, 0x04, 0x04, 0x08],
    [0x00, 0x00, 0x08, 0x15, 0x02, 0x00, 0x00],
];

/// Whether a character has a pixel at a place.
pub open spec fn lit(c: char, col: int, row: int) -> bool {
    &&& 32 <= c as int <= 126
    &&& 0 <= col < 5
    &&& 0 <= row < 7
    &&& FONT_5X7@[c as int - 32]@[row] & (1u8 << ((4 - col) as u8)) != 0
}

/// Tells whether a character has a pixel at a place.
fn is_lit(c: char, col: usize, row: usize) -> (r: bool)
    ensures
        r == lit(c, col as int, row as int),
{
    let code: u32 = c as u32;
    if code < 32 || code > 126 || col >= 5 || row >= 7 {
        return false;
    }
    let bits: u8 = FONT_5X7[(code - 32) as usize][row];
    let place: u8 = 4 - col as u8;
    bits & (1u8 << place) != 0
}

/// The colour of a grey pixel.
pub open spec fn gray(g: u8) -> u32 {
    (g * 0x1_0101) as u32
}

/// Something to draw.
#[derive(Debug)]
pub enum Shape<'a> {
    /// A grey picture, in the part of the window that shows the camera's frame.
    Picture { data: &'a Vec<u8>, width: u32, height: u32 },
    /// The edges of a rectangle, or the whole of it.
    Rect { x: u32, y: u32, w: u32, h: u32, color: u32, filled: bool },
    /// The points that are not farther than `r` from a point: none where `r` is negative.
    FilledCircle { cx: i32, cy: i32, r: i32, color: u32 },
    /// A line of text.
    Text { x: u32, y: u32, text: Vec<char>, color: u32 },
    /// Every second pixel of every second row of a grey picture, 112 pixels wide and high.
    GrayThumbnail { x: u32, y: u32, data: &'a Vec<u8> },
}

/// Something to draw, over mathematical values.
pub enum ShapeView {
    Picture { data: Seq<u8>, width: int, height: int },
    Rect { x: int, y: int, w: int, h: int, color: u32, filled: bool },
    FilledCircle { cx: int, cy: int, r: int, color: u32 },
    Text { x: int, y: int, text: Seq<char>, color: u32 },
    GrayThumbnail { x: int, y: int, data: Seq<u8> },
}

impl<'a> View for Shape<'a> {
    type V = ShapeView;

    open spec fn view(&self) -> ShapeView {
        match *self {
            Shape::Picture { data, width, height } => ShapeView::Picture {
                data: data@,
                width: width as int,
                height: height as int,
            },
            Shape::Rect { x, y, w, h, color, filled } => ShapeView::Rect {
                x: x as int,
                y: y as int,
                w: w as int,
                h: h as int,
                color,
                filled,
            },
            Shape::FilledCircle { cx, cy, r, color } => ShapeView::FilledCircle {
                cx: cx as int,
                cy: cy as int,
                r: r as int,
                color,
            },
            Shape::Text { x, y, text, color } => ShapeView::Text {
                x: x as int,
                y: y as int,
                text: text@,
                color,
            },
            Shape::GrayThumbnail { x, y, data } => ShapeView::GrayThumbnail {
                x: x as int,
                y: y as int,
                data: data@,
            },
        }
    }
}

/// Whether a grey picture has all the pixels that the window shows of it.
pub open spec fn picture_fits(len: nat, width: int, height: int) -> bool {
    0 < width && 0 < height ==> (min_of(height, CAM_H as int) - 1) * width + min_of(
        width,
        CAM_W as int,
    ) <= len
}

impl ShapeView {
    /// Whether the pixels that are shown of a picture are there.
    pub open spec fn wf(self) -> bool {
        match self {
            ShapeView::Picture { data, width, height } => picture_fits(data.len(), width, height),
            ShapeView::GrayThumbnail { data, .. } => data.len() >= 112 * 112,
            _ => true,
        }
    }

    /// The colour that is drawn at a place, if anything is.
    pub open spec fn cover(self, px: int, py: int) -> Option<u32> {
        match self {
            ShapeView::Picture { data, width, height } => if px < min_of(width, CAM_W as int) && py
                < min_of(height, CAM_H as int) {
                Some(gray(data[py * width + px]))
            } else {
                None
            },
            ShapeView::Rect { x, y, w, h, color, filled } => {
                let across = x <= px < x + w;
                let down = y <= py < y + h;
                let bottom = if h == 0 {
                    y
                } else {
                    y + h - 1
                };
                let right = if w == 0 {
                    x
                } else {
                    x + w - 1
                };
                let edge = across && (py == y || py == bottom) || down && (px == x || px == right);
                if filled && across && down || !filled && edge {
                    Some(color)
                } else {
                    None
                }
            },
            ShapeView::FilledCircle { cx, cy, r, color } => if 0 <= r && (px - cx) * (px - cx) + (py
                - cy) * (py - cy) <= r * r {
                Some(color)
            } else {
                None
            },
            ShapeView::Text { x, y, text, color } => if x <= px && (px - x) / 6 < text.len() && lit(
                text[(px - x) / 6],
                (px - x) % 6,
                py - y,
            ) {
                Some(color)
            } else {
                None
            },
            ShapeView::GrayThumbnail { x, y, data } => if x <= px < x + 56 && y <= py < y + 56 {
                Some(gray(data[2 * (py - y) * 112 + 2 * (px - x)]))
            } else {
                None
            },
        }
    }
}

/// The smaller of a number and a limit.
fn clip(v: u128, limit: usize) -> (r: usize)
    ensures
        r == min_of(v as int, limit as int),
{
    if v < limit as u128 {
        v as usize
    } else {
        limit
    }
}

/// Bounds the distance of a point of a circle from its centre.
proof fn lemma_circle(dx: int, dy: int, r: int)
    requires
        dx * dx + dy * dy <= r * r,
        0 <= r,
    ensures
        -r <= dx <= r,
        -r <= dy <= r,
{
    assert(-r <= dx <= r && -r <= dy <= r) by (nonlinear_arith)
        requires
            dx * dx + dy * dy <= r * r,
            0 <= r,
    ;
}

impl<'a> Shape<'a> {
    /// A part of a picture outside which nothing is drawn: its columns and its rows.
    fn bounds(&self, buf_w: usize, buf_h: usize) -> (r: (usize, usize, usize, usize))
        ensures
            r.1 <= buf_w,
            r.3 <= buf_h,
            forall|px: int, py: int|
                0 <= px < buf_w && 0 <= py < buf_h && (#[trigger] self@.cover(px, py)) is Some ==> r.0
                    <= px < r.1 && r.2 <= py < r.3,
    {
        match self {
            Shape::Picture { width, height, .. } => (
                0,
                clip(*width as u128, buf_w),
                0,
                clip(*height as u128, buf_h),
            ),
            Shape::Rect { x, y, w, h, .. } => {
                let wide: u128 = if *w == 0 {
                    1
                } else {
                    *w as u128
                };
                let high: u128 = if *h == 0 {
                    1
                } else {
                    *h as u128
                };
                (
                    clip(*x as u128, buf_w),
                    clip(*x as u128 + wide, buf_w),
                    clip(*y as u128, buf_h),
                    clip(*y as u128 + high, buf_h),
                )
            },
            Shape::FilledCircle { cx, cy, r, .. } => {
                if *r < 0 {
                    return (0, 0, 0, 0);
                }
                let far: i64 = *r as i64;
                let left: i64 = *cx as i64 - far;
                let right: i64 = *cx as i64 + far + 1;
                let top: i64 = *cy as i64 - far;
                let bottom: i64 = *cy as i64 + far + 1;
                assert forall|px: int, py: int|
                    0 <= px < buf_w && 0 <= py < buf_h && (#[trigger] self@.cover(
                        px,
                        py,
                    )) is Some implies left <= px < right && top <= py < bottom by {
                    lemma_circle(px - *cx, py - *cy, *r as int);
                }
                (
                    if left < 0 {
                        0
                    } else {
                        clip(left as u128, buf_w)
                    },
                    if right < 0 {
                        0
                    } else {
                        clip(right as u128, buf_w)
                    },
                    if top < 0 {
                        0
                    } else {
                        clip(top as u128, buf_h)
                    },
                    if bottom < 0 {
                        0
                    } else {
                        clip(bottom as u128, buf_h)
                    },
                )
            },
            Shape::Text { x, y, text, .. } => {
                let end: u128 = *x as u128 + 6 * text.len() as u128;
                (
                    clip(*x as u128, buf_w),
                    clip(end, buf_w),
                    clip(*y as u128, buf_h),
                    clip(*y as u128 + 7, buf_h),
                )
            },
            Shape::GrayThumbnail { x, y, .. } => (
                clip(*x as u128, buf_w),
                clip(*x as u128 + 56, buf_w),
                clip(*y as u128, buf_h),
                clip(*y as u128 + 56, buf_h),
            ),
        }
    }

    /// The colour that is drawn at a place, if anything is.
    fn color_at(&self, px: usize, py: usize) -> (r: Option<u32>)
        requires
            self@.wf(),
        ensures
            r == self@.cover(px as int, py as int),
    {
        match self {
            Shape::Picture { data, width, height } => {
                let w: usize = clip(*width as u128, CAM_W);
                let h: usize = clip(*height as u128, CAM_H);
                let stride: usize = *width as usize;
                let len: usize = data.len();
                if px < w && py < h {
                    proof {
                        let last = min_of(*height as int, CAM_H as int) - 1;
                        assert(0 <= py * stride <= last * stride) by (nonlinear_arith)
                            requires
                                0 <= py <= last,
                                0 <= stride,
                        ;
                        assert(last * stride + w <= len);
                    }
                    Some(data[py * stride + px] as u32 * 0x1_0101)
                } else {
                    None
                }
            },
            Shape::Rect { x, y, w, h, color, filled } => {
                let cx: u64 = px as u64;
                let cy: u64 = py as u64;
                let left: u64 = *x as u64;
                let top: u64 = *y as u64;
                let across = left <= cx && cx < left + *w as u64;
                let down = top <= cy && cy < top + *h as u64;
                let bottom: u64 = if *h == 0 {
                    top
                } else {
                    top + *h as u64 - 1
                };
                let right: u64 = if *w == 0 {
                    left
                } else {
                    left + *w as u64 - 1
                };
                let edge = across && (cy == top || cy == bottom) || down && (cx == left || cx
                    == right);
                if *filled && across && down || !*filled && edge {
                    Some(*color)
                } else {
                    None
                }
            },
            Shape::FilledCircle { cx, cy, r, color } => {
                let dx: i128 = px as i128 - *cx as i128;
                let dy: i128 = py as i128 - *cy as i128;
                let far: i128 = *r as i128;
                proof {
                    if 0 <= far && dx * dx + dy * dy <= far * far {
                        lemma_circle(dx as int, dy as int, far as int);
                    }
                }
                if dx < -far || dx > far || dy < -far || dy > far {
                    return None;
                }
                let most: Ghost<int> = Ghost(0x8000_0000);
                assert(0 <= dx * dx <= most@ * most@ && 0 <= dy * dy <= most@ * most@ && 0 <= far * far
                    <= most@ * most@) by (nonlinear_arith)
                    requires
                        -far <= dx <= far,
                        -far <= dy <= far,
                        0 <= far <= most@,
                ;
                if dx * dx + dy * dy <= far * far {
                    Some(*color)
                } else {
                    None
                }
            },
            Shape::Text { x, y, text, color } => {
                if (px as u64) < *x as u64 || (py as u64) < *y as u64 {
                    return None;
                }
                let along: usize = px - *x as usize;
                let k: usize = along / 6;
                if k < text.len() && is_lit(text[k], along % 6, py - *y as usize) {
                    Some(*color)
                } else {
                    None
                }
            },
            Shape::GrayThumbnail { x, y, data } => {
                if (px as u64) < *x as u64 || (py as u64) < *y as u64 {
                    return None;
                }
                let col: usize = px - *x as usize;
                let row: usize = py - *y as usize;
                if col < 56 && row < 56 {
                    Some(data[2 * row * 112 + 2 * col] as u32 * 0x1_0101)
                } else {
                    None
                }
            },
        }
    }
}

/// A picture of a given width and height, row by row, with something drawn on it. What is behind the
/// last row stays.
pub open spec fn painted_on(pic: Seq<u32>, width: int, height: int, s: ShapeView) -> Seq<u32> {
    Seq::new(
        pic.len(),
        |i: int|
            if i < width * height {
                match s.cover(i % width, i / width) {
                    Some(c) => c,
                    None => pic[i],
                }
            } else {
                pic[i]
            },
    )
}

/// Whether a pixel comes before a place, row by row.
spec fn before(i: int, width: int, col: int, row: int) -> bool {
    i / width < row || i / width == row && i % width < col
}

/// A picture with something drawn on the pixels that come before a place.
spec fn half_painted(
    pic: Seq<u32>,
    width: int,
    height: int,
    s: ShapeView,
    col: int,
    row: int,
    i: int,
) -> u32 {
    if before(i, width, col, row) {
        painted_on(pic, width, height, s)[i]
    } else {
        pic[i]
    }
}

/// The column and the row of a pixel.
proof fn lemma_pixel(i: int, width: int, height: int)
    requires
        0 <= i < width * height,
        0 < width,
    ensures
        0 <= i % width < width,
        0 <= i / width < height,
        i == (i / width) * width + i % width,
{
    vstd::arithmetic::div_mod::lemma_fundamental_div_mod(i, width);
    assert(width * (i / width) == (i / width) * width) by (nonlinear_arith);
    assert(0 <= i / width < height) by (nonlinear_arith)
        requires
            0 <= i < width * height,
            0 < width,
            i == (i / width) * width + i % width,
            0 <= i % width < width,
    ;
}

/// The pixel in a column and a row.
proof fn lemma_pixel_at(col: int, row: int, width: int, height: int)
    requires
        0 <= col < width,
        0 <= row < height,
    ensures
        0 <= row * width <= row * width + col < width * height,
        (row * width + col) % width == col,
        (row * width + col) / width == row,
{
    lemma_index_bound(row, col, width, height, width * height);
    vstd::arithmetic::div_mod::lemma_fundamental_div_mod_converse(row * width + col, width, row, col);
    assert(0 <= row * width) by (nonlinear_arith)
        requires
            0 <= row,
            0 <= width,
    ;
}

/// Draws something on a picture of `buf_w` columns and `buf_h` rows. What does not fit is left out.
pub fn draw(buf: &mut Vec<u32>, buf_w: usize, buf_h: usize, s: &Shape)
    requires
        buf_w * buf_h <= old(buf)@.len(),
        s@.wf(),
    ensures
        final(buf)@ == painted_on(old(buf)@, buf_w as int, buf_h as int, s@),
{
    let ghost pic = buf@;
    let ghost (w, h) = (buf_w as int, buf_h as int);
    let (x0, x1, y0, y1) = s.bounds(buf_w, buf_h);
    let mut row: usize = y0;
    proof {
        assert forall|i: int| 0 <= i < pic.len() implies #[trigger] pic[i] == half_painted(
            pic,
            w,
            h,
            s@,
            0,
            row as int,
            i,
        ) by {
            if i < w * h {
                lemma_width(w, h);
                lemma_pixel(i, w, h);
            }
        }
    }
    while row < y1
        invariant
            y0 <= row,
            row <= y1 || row == y0,
            x1 <= buf_w,
            y1 <= buf_h,
            s@.wf(),
            w == buf_w,
            h == buf_h,
            buf_w * buf_h <= pic.len(),
            buf@.len() == pic.len(),
            forall|px: int, py: int|
                0 <= px < buf_w && 0 <= py < buf_h && (#[trigger] s@.cover(px, py)) is Some ==> x0
                    <= px < x1 && y0 <= py < y1,
            forall|i: int|
                0 <= i < pic.len() ==> #[trigger] buf@[i] == half_painted(
                    pic,
                    w,
                    h,
                    s@,
                    0,
                    row as int,
                    i,
                ),
        decreases y1 - row,
    {
        let mut col: usize = x0;
        proof {
            assert forall|i: int| 0 <= i < pic.len() implies #[trigger] buf@[i] == half_painted(
                pic,
                w,
                h,
                s@,
                x0 as int,
                row as int,
                i,
            ) by {
                assert(buf@[i] == half_painted(pic, w, h, s@, 0, row as int, i));
                if i < w * h {
                    lemma_width(w, h);
                    lemma_pixel(i, w, h);
                }
            }
        }
        while col < x1
            invariant
                x0 <= col,
                col <= x1 || col == x0,
                x1 <= buf_w,
                y0 <= row < y1 <= buf_h,
                s@.wf(),
                w == buf_w,
                h == buf_h,
                buf_w * buf_h <= pic.len(),
                buf@.len() == pic.len(),
                forall|px: int, py: int|
                    0 <= px < buf_w && 0 <= py < buf_h && (#[trigger] s@.cover(px, py)) is Some
                        ==> x0 <= px < x1 && y0 <= py < y1,
                forall|i: int|
                    0 <= i < pic.len() ==> #[trigger] buf@[i] == half_painted(
                        pic,
                        w,
                        h,
                        s@,
                        col as int,
                        row as int,
                        i,
                    ),
            decreases x1 - col,
        {
            let ghost was = buf@;
            proof {
                lemma_pixel_at(col as int, row as int, w, h);
            }
            let len: usize = buf.len();
            assert(row * buf_w + col < len);
            let place: usize = row * buf_w + col;
            match s.color_at(col, row) {
                Some(c) => {
                    buf.set(place, c);
                },
                None => {},
            }
            assert forall|i: int| 0 <= i < pic.len() implies #[trigger] buf@[i] == half_painted(
                pic,
                w,
                h,
                s@,
                col + 1,
                row as int,
                i,
            ) by {
                assert(was[i] == half_painted(pic, w, h, s@, col as int, row as int, i));
                if i < w * h {
                    lemma_pixel(i, w, h);
                }
            }
            col += 1;
        }
        proof {
            assert forall|i: int| 0 <= i < pic.len() implies #[trigger] buf@[i] == half_painted(
                pic,
                w,
                h,
                s@,
                0,
                row + 1,
                i,
            ) by {
                assert(buf@[i] == half_painted(pic, w, h, s@, col as int, row as int, i));
                if i < w * h {
                    lemma_width(w, h);
                    lemma_pixel(i, w, h);
                }
            }
        }
        row += 1;
    }
    proof {
        let whole = painted_on(pic, w, h, s@);
        assert forall|i: int| 0 <= i < pic.len() implies buf@[i] == whole[i] by {
            assert(buf@[i] == half_painted(pic, w, h, s@, 0, row as int, i));
            if i < w * h {
                lemma_width(w, h);
                lemma_pixel(i, w, h);
            }
        }
        assert(buf@ =~= whole);
    }
}

/// A picture with pixels has columns.
proof fn lemma_width(width: int, height: int)
    requires
        0 <= width,
        0 <= height,
        0 < width * height,
    ensures
        0 < width,
{
    assert(0 < width) by (nonlinear_arith)
        requires
            0 <= width,
            0 < width * height,
    ;
}

/// Draws a filled circle: every pixel that is not farther than `r` from the centre, which may be
/// outside the picture.
pub fn draw_filled_circle(
    buf: &mut Vec<u32>,
    buf_w: usize,
    buf_h: usize,
    cx: i32,
    cy: i32,
    r: i32,
    color: u32,
)
    requires
        buf_w * buf_h <= old(buf)@.len(),
    ensures
        final(buf)@.len() == old(buf)@.len(),
        forall|px: int, py: int|
            0 <= px < buf_w && 0 <= py < buf_h ==> #[trigger] final(buf)@[py * buf_w + px] == if 0 <= r
                && (px - cx) * (px - cx) + (py - cy) * (py - cy) <= r * r {
                color
            } else {
                old(buf)@[py * buf_w + px]
            },
        forall|i: int| buf_w * buf_h <= i < old(buf)@.len() ==> final(buf)@[i] == old(buf)@[i],
{
    draw(buf, buf_w, buf_h, &Shape::FilledCircle { cx, cy, r, color });
    proof {
        assert forall|px: int, py: int| 0 <= px < buf_w && 0 <= py < buf_h implies #[trigger] buf@[py
            * buf_w + px] == if 0 <= r && (px - cx) * (px - cx) + (py - cy) * (py - cy) <= r * r {
            color
        } else {
            old(buf)@[py * buf_w + px]
        } by {
            lemma_pixel_at(px, py, buf_w as int, buf_h as int);
        }
    }
}

/// A gray has red, green and blue in equal parts.
pub proof fn gray_is_even(g: u8)
    ensures
        gray(g) % 256 == g,
        (gray(g) / 256) % 256 == g,
        gray(g) / 65536 == g,
{
}

/// The edges of a rectangle are what the whole of it has and the part inside has not.
pub proof fn edges_lie_round_the_inside(x: int, y: int, w: int, h: int, color: u32, px: int, py: int)
    requires
        w >= 1,
        h >= 1,
    ensures
        ({
            let whole = ShapeView::Rect { x, y, w, h, color, filled: true };
            let inside = ShapeView::Rect { x: x + 1, y: y + 1, w: w - 2, h: h - 2, color, filled: true };
            let edges = ShapeView::Rect { x, y, w, h, color, filled: false };
            &&& edges.cover(px, py) is Some <==> whole.cover(px, py) is Some && inside.cover(px, py)
                is None
            &&& edges.cover(px, py) is Some ==> edges.cover(px, py) == Some(color)
            &&& whole.cover(px, py) == if x <= px < x + w && y <= py < y + h {
                Some(color)
            } else {
                None
            }
        }),
{
}

/// A circle is the same from every side, reaches as far as its radius, and no farther.
pub proof fn circle_is_round(cx: int, cy: int, r: int, color: u32, dx: int, dy: int)
    requires
        0 <= r,
    ensures
        ({
            let c = ShapeView::FilledCircle { cx, cy, r, color };
            &&& c.cover(cx + dx, cy + dy) == c.cover(cx - dx, cy + dy)
            &&& c.cover(cx + dx, cy + dy) == c.cover(cx + dx, cy - dy)
            &&& c.cover(cx + dx, cy + dy) == c.cover(cx + dy, cy + dx)
            &&& c.cover(cx + dx, cy) is Some <==> -r <= dx <= r
            &&& c.cover(cx + dx, cy + dy) is Some <==> dx * dx + dy * dy <= r * r
            &&& c.cover(cx + dx, cy + dy) is Some ==> c.cover(cx + dx, cy + dy) == Some(color)
        }),
{
    assert((-dx) * (-dx) == dx * dx) by (nonlinear_arith);
    assert((-dy) * (-dy) == dy * dy) by (nonlinear_arith);
    assert(0int * 0 == 0);
    assert(dx * dx <= r * r <==> -r <= dx <= r) by (nonlinear_arith)
        requires
            0 <= r,
    ;
}

/// Letters stand side by side, six pixels apart. Each has the pixels that the font gives it, and the
/// column between two letters stays free.
pub proof fn letters_stand_side_by_side(
    x: int,
    y: int,
    text: Seq<char>,
    color: u32,
    i: int,
    col: int,
    row: int,
)
    requires
        0 <= i < text.len(),
        0 <= col < 6,
    ensures
        ({
            let t = ShapeView::Text { x, y, text, color };
            &&& t.cover(x + 6 * i + col, y + row) is Some <==> lit(text[i], col, row)
            &&& t.cover(x + 6 * i + col, y + row) is Some ==> t.cover(x + 6 * i + col, y + row) == Some(
                color,
            )
            &&& col == 5 ==> t.cover(x + 6 * i + col, y + row) is None
            &&& row < 0 || row >= 7 ==> t.cover(x + 6 * i + col, y + row) is None
        }),
{
    assert((6 * i + col) / 6 == i && (6 * i + col) % 6 == col);
}

/// Beside its letters a text has no pixels.
pub proof fn text_ends_with_its_letters(x: int, y: int, text: Seq<char>, color: u32, px: int, py: int)
    requires
        px < x || px >= x + 6 * text.len(),
    ensures
        (ShapeView::Text { x, y, text, color }).cover(px, py) is None,
{
}

/// A row of a letter is a number below 32, the leftmost pixel its highest binary digit.
pub proof fn font_rows_are_binary(c: char, col: int, row: int)
    requires
        32 <= c as int <= 126,
        0 <= col < 5,
        0 <= row < 7,
    ensures
        ({
            let bits = FONT_5X7@[c as int - 32]@[row];
            let weight = if col == 0 {
                16int
            } else if col == 1 {
                8
            } else if col == 2 {
                4
            } else if col == 3 {
                2
            } else {
                1
            };
            lit(c, col, row) <==> (bits as int / weight) % 2 == 1
        }),
{
    let bits = FONT_5X7@[c as int - 32]@[row];
    assert(bits & (1u8 << 4u8) != 0 <==> (bits / 16) % 2 == 1) by (bit_vector);
    assert(bits & (1u8 << 3u8) != 0 <==> (bits / 8) % 2 == 1) by (bit_vector);
    assert(bits & (1u8 << 2u8) != 0 <==> (bits / 4) % 2 == 1) by (bit_vector);
    assert(bits & (1u8 << 1u8) != 0 <==> (bits / 2) % 2 == 1) by (bit_vector);
    assert(bits & (1u8 << 0u8) != 0 <==> bits % 2 == 1) by (bit_vector);
}

/// A picture is shown pixel by pixel, from the upper left corner on, as far as there is room.
pub proof fn picture_is_shown_as_it_is(data: Seq<u8>, width: int, height: int, px: int, py: int)
    ensures
        ({
            let p = ShapeView::Picture { data, width, height };
            &&& px < width && px < 640 && py < height && py < 360 ==> p.cover(px, py) == Some(
                gray(crate::raster::pixel(data, width, py, px)),
            )
            &&& px >= width || px >= 640 || py >= height || py >= 360 ==> p.cover(px, py) is None
        }),
{
}

/// A thumbnail shows every second pixel of every second row.
pub proof fn thumbnail_shows_every_second_pixel(x: int, y: int, data: Seq<u8>, i: int, j: int)
    ensures
        ({
            let t = ShapeView::GrayThumbnail { x, y, data };
            &&& 0 <= i < 56 && 0 <= j < 56 ==> t.cover(x + i, y + j) == Some(
                gray(crate::raster::pixel(data, 112, 2 * j, 2 * i)),
            )
            &&& !(0 <= i < 56 && 0 <= j < 56) ==> t.cover(x + i, y + j) is None
        }),
{
}

/// Drawing changes exactly the pixels that the shape covers, and nothing behind the picture.
pub proof fn drawing_changes_what_is_covered(
    pic: Seq<u32>,
    width: int,
    height: int,
    s: ShapeView,
    px: int,
    py: int,
    behind: int,
)
    requires
        0 <= px < width,
        0 <= py < height,
        width * height <= behind < pic.len(),
    ensures
        painted_on(pic, width, height, s).len() == pic.len(),
        painted_on(pic, width, height, s)[behind] == pic[behind],
        ({
            let i = py * width + px;
            &&& s.cover(px, py) is Some ==> Some(painted_on(pic, width, height, s)[i]) == s.cover(px, py)
            &&& s.cover(px, py) is None ==> painted_on(pic, width, height, s)[i] == pic[i]
        }),
{
    lemma_pixel_at(px, py, width, height);
    lemma_index_bound(py, px, width, height, width * height);
}

} // verus!
