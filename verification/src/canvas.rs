//! The picture that the debug window shows: the camera's frame with what was found in it, and a
//! panel of readings beside it.
use crate::scalar::Scalar;
use crate::shapes::{draw, picture_fits, Shape, ShapeView};
use crate::text::chars_of;
use vstd::prelude::*;

verus! {

/// Width of the window in pixels.
pub const WIN_W: usize = 840;

/// Height of the window in pixels.
pub const WIN_H: usize = 360;

/// Where the panel beside the camera's frame begins.
pub const PANEL_X: u32 = 640;

// Colours, a byte each for red, green and blue.
pub const BACKGROUND: u32 = 0x0011_1111;

pub const NEUTRAL: u32 = 0x0033_3333;

pub const YELLOW: u32 = 0x00cc_cc00;

pub const BLUE: u32 = 0x0044_88ff;

pub const GREEN: u32 = 0x0044_cc44;

pub const RED: u32 = 0x00cc_4444;

pub const LANDMARK: u32 = 0x00ff_4444;

pub const WHITE: u32 = 0x00dd_dddd;

pub const DIM: u32 = 0x0088_8888;

/// A picture with something drawn on it.
pub open spec fn painted(pic: Seq<u32>, s: ShapeView) -> Seq<u32> {
    Seq::new(
        pic.len(),
        |i: int|
            match s.cover(i % (WIN_W as int), i / (WIN_W as int)) {
                Some(c) => c,
                None => pic[i],
            },
    )
}

/// A picture with things drawn on it, one after the other.
pub open spec fn painted_all(pic: Seq<u32>, shapes: Seq<ShapeView>) -> Seq<u32>
    decreases shapes.len(),
{
    if shapes.len() == 0 {
        pic
    } else {
        painted(painted_all(pic, shapes.drop_last()), shapes.last())
    }
}

/// The window before anything is drawn.
pub open spec fn blank() -> Seq<u32> {
    Seq::new((WIN_W * WIN_H) as nat, |i: int| BACKGROUND)
}

/// What was found of a face.
#[derive(Debug)]
pub struct DebugDetection {
    /// The left, the top, the width and the height of the face's rectangle, in pixels.
    pub bbox: (u32, u32, u32, u32),
    /// The eyes, the nose and the corners of the mouth, in pixels.
    pub landmarks: [(i32, i32); 5],
    /// The detection's confidence in percent.
    pub confidence: String,
    pub yaw: String,
    pub pitch: String,
    pub roll: String,
    /// The part of the frame that the face fills, in percent.
    pub face_ratio: String,
    pub blur_score: Scalar,
    pub blur_text: String,
    pub ir_saturated: bool,
    pub lbp_entropy: Scalar,
    pub lbp_text: String,
    pub contrast_text: String,
    pub liveness_pass: bool,
    /// How alike the face is to an enrolled one, with its text to three digits.
    pub similarity: Option<(Scalar, String)>,
    /// The aligned picture of the face.
    pub aligned_crop: Option<Vec<u8>>,
    /// The same after its contrast was evened out.
    pub clahe_crop: Option<Vec<u8>>,
}

/// What is shown of a frame.
#[derive(Debug)]
pub struct DebugFrame {
    /// A grey byte for each pixel of the camera's frame, row by row.
    pub frame_data: Vec<u8>,
    pub frame_w: u32,
    pub frame_h: u32,
    pub detection: Option<DebugDetection>,
    /// The name of the state.
    pub state: String,
    /// How many frames are shown in a second.
    pub fps: String,
    /// What the border tells: 1 that a face is looked for, 2 that it is being recognised, 3 that it
    /// was, 4 that it was not.
    pub border_mode: u8,
}

impl DebugDetection {
    /// Whether the aligned pictures, where there are any, have a byte for every pixel, and there are
    /// numbers for a rectangle round the face's.
    pub open spec fn wf(self) -> bool {
        &&& self.bbox.2 + 2 <= u32::MAX
        &&& self.bbox.3 + 2 <= u32::MAX
        &&& self.aligned_crop matches Some(d) ==> d@.len() >= 112 * 112
        &&& self.clahe_crop matches Some(d) ==> d@.len() >= 112 * 112
    }
}

impl DebugFrame {
    /// Whether the pictures have the bytes that are shown of them.
    pub open spec fn wf(self) -> bool {
        &&& picture_fits(self.frame_data@.len(), self.frame_w as int, self.frame_h as int)
        &&& self.detection matches Some(d) ==> d.wf()
    }
}

/// The colour of the border.
pub open spec fn border_of(mode: u8) -> u32 {
    if mode == 1 {
        YELLOW
    } else if mode == 2 {
        BLUE
    } else if mode == 3 {
        GREEN
    } else if mode == 4 {
        RED
    } else {
        NEUTRAL
    }
}

/// A number, or zero where it is smaller.
pub open spec fn at_least_zero(a: int) -> int {
    if a < 0 {
        0
    } else {
        a
    }
}

/// A line of text in the panel.
pub open spec fn panel_text(y: int, text: Seq<char>, color: u32) -> ShapeView {
    ShapeView::Text { x: PANEL_X + 8, y, text, color }
}

/// The edges of a rectangle.
pub open spec fn outline(x: int, y: int, w: int, h: int, color: u32) -> ShapeView {
    ShapeView::Rect { x, y, w, h, color, filled: false }
}

/// The colour of what is drawn round a face: green where it was compared with an enrolled one, blue
/// where it is alive, red where it is not, yellow where that is not known.
pub open spec fn detection_color(d: DebugDetection) -> u32 {
    if d.similarity matches Some(s) && (Scalar { bits: 0 }).below(s.0) {
        GREEN
    } else if d.liveness_pass {
        BLUE
    } else if (Scalar { bits: 0 }).below(d.lbp_entropy) {
        RED
    } else {
        YELLOW
    }
}

/// What stands above a face.
pub open spec fn detection_label(d: DebugDetection) -> Seq<char> {
    match d.similarity {
        Some(s) => d.confidence@ + "%"@ + " sim:"@ + s.1@,
        None => d.confidence@ + "%"@,
    }
}

/// A point of a face.
pub open spec fn point_shape(p: (i32, i32)) -> ShapeView {
    ShapeView::FilledCircle { cx: p.0 as int, cy: p.1 as int, r: 3, color: LANDMARK }
}

/// What is drawn of a face: two rectangles round it, five points in it and a label above it.
pub open spec fn detection_shapes(d: DebugDetection) -> Seq<ShapeView> {
    let color = detection_color(d);
    let (x, y, w, h) = d.bbox;
    seq![
        outline(x as int, y as int, w as int, h as int, color),
        outline(at_least_zero(x - 1), at_least_zero(y - 1), w + 2, h + 2, color),
        point_shape(d.landmarks@[0]),
        point_shape(d.landmarks@[1]),
        point_shape(d.landmarks@[2]),
        point_shape(d.landmarks@[3]),
        point_shape(d.landmarks@[4]),
        ShapeView::Text {
            x: x as int,
            y: at_least_zero(y - 12),
            text: detection_label(d),
            color,
        },
    ]
}

/// The colour of a similarity: green from 0.70, yellow from 0.50.
pub open spec fn similarity_color(s: Scalar) -> u32 {
    if s.reaches(Scalar { bits: 0x3f33_3333 }) {
        GREEN
    } else if s.reaches(Scalar { bits: 0x3f00_0000 }) {
        YELLOW
    } else {
        RED
    }
}

/// The readings of a face: its pose, its size, its sharpness, whether it is overexposed, and
/// whether it is alive.
pub open spec fn reading_shapes(d: DebugDetection) -> Seq<ShapeView> {
    let live = if d.liveness_pass {
        GREEN
    } else {
        YELLOW
    };
    seq![
        panel_text(
            40,
            "yaw:"@ + d.yaw@ + " pit:"@ + d.pitch@ + " rol:"@ + d.roll@,
            WHITE,
        ),
        panel_text(52, "face: "@ + d.face_ratio@ + "%"@, WHITE),
        panel_text(
            64,
            "blur: "@ + d.blur_text@,
            if d.blur_score.reaches(Scalar { bits: 0x4248_0000 }) {
                GREEN
            } else {
                RED
            },
        ),
        panel_text(
            76,
            if d.ir_saturated {
                "IR sat: YES"@
            } else {
                "IR sat: no"@
            },
            if d.ir_saturated {
                RED
            } else {
                GREEN
            },
        ),
        panel_text(90, "LBP: "@ + d.lbp_text@, live),
        panel_text(102, "CV: "@ + d.contrast_text@, live),
        panel_text(
            114,
            if d.liveness_pass {
                "live: PASS"@
            } else {
                "live: FAIL"@
            },
            live,
        ),
    ]
}

/// The similarity, where it is known, and the aligned pictures, where there are any, each below
/// what comes before it.
pub open spec fn crop_shapes(d: DebugDetection) -> Seq<ShapeView> {
    let similar = match d.similarity {
        Some(s) => seq![panel_text(128, "sim: "@ + s.1@, similarity_color(s.0))],
        None => Seq::empty(),
    };
    let y = if d.similarity is Some {
        142int
    } else {
        128int
    };
    let raw = match d.aligned_crop {
        Some(c) => seq![
            panel_text(y + 4, "raw crop:"@, DIM),
            ShapeView::GrayThumbnail { x: PANEL_X + 8, y: y + 16, data: c@ },
        ],
        None => Seq::empty(),
    };
    let z = if d.aligned_crop is Some {
        y + 76
    } else {
        y
    };
    let evened = match d.clahe_crop {
        Some(c) => seq![
            panel_text(z, "CLAHE:"@, DIM),
            ShapeView::GrayThumbnail { x: PANEL_X + 8, y: z + 12, data: c@ },
        ],
        None => Seq::empty(),
    };
    similar + raw + evened
}

/// What is drawn in the panel.
pub open spec fn panel_shapes(f: DebugFrame, border_color: u32) -> Seq<ShapeView> {
    seq![
        panel_text(8, f.state@, border_color),
        panel_text(22, "FPS: "@ + f.fps@, DIM),
    ] + match f.detection {
        Some(d) => reading_shapes(d) + crop_shapes(d),
        None => Seq::empty(),
    }
}

/// The camera's frame and the border round it, three pixels wide.
pub open spec fn frame_shapes(f: DebugFrame) -> Seq<ShapeView> {
    let color = border_of(f.border_mode);
    seq![
        ShapeView::Picture {
            data: f.frame_data@,
            width: f.frame_w as int,
            height: f.frame_h as int,
        },
        outline(0, 0, 640, 360, color),
        outline(1, 1, 638, 358, color),
        outline(2, 2, 636, 356, color),
    ]
}

/// Everything that is drawn of a frame, in the order in which it is drawn.
pub open spec fn scene(f: DebugFrame) -> Seq<ShapeView> {
    frame_shapes(f) + match f.detection {
        Some(d) => detection_shapes(d),
        None => Seq::empty(),
    } + panel_shapes(f, border_of(f.border_mode))
}

/// Drawing things and then others is drawing all of them.
pub proof fn lemma_painted_twice(pic: Seq<u32>, a: Seq<ShapeView>, b: Seq<ShapeView>)
    ensures
        painted_all(painted_all(pic, a), b) == painted_all(pic, a + b),
    decreases b.len(),
{
    if b.len() == 0 {
        assert(a + b =~= a);
    } else {
        lemma_painted_twice(pic, a, b.drop_last());
        assert((a + b).drop_last() =~= a + b.drop_last());
        assert((a + b).last() == b.last());
    }
}

/// Draws something after others.
fn paint_next(buf: &mut Vec<u32>, s: &Shape, Ghost(pic): Ghost<Seq<u32>>, done: &mut Ghost<Seq<ShapeView>>)
    requires
        old(buf)@.len() == WIN_W * WIN_H,
        s@.wf(),
        old(buf)@ == painted_all(pic, old(done)@),
    ensures
        final(buf)@.len() == WIN_W * WIN_H,
        final(done)@ == old(done)@.push(s@),
        final(buf)@ == painted_all(pic, final(done)@),
{
    let ghost was = buf@;
    draw(buf, WIN_W, WIN_H, s);
    proof {
        assert(buf@ =~= painted(was, s@));
        let all = done@.push(s@);
        assert(all.drop_last() =~= done@);
        done@ = all;
    }
}

/// A line of text in the panel.
fn panel_line(y: u32, text: &str, color: u32) -> (r: Shape<'static>)
    ensures
        r@ == panel_text(y as int, text@, color),
{
    Shape::Text { x: PANEL_X + 8, y, text: chars_of(text), color }
}

/// The edges of a rectangle.
fn edges(x: u32, y: u32, w: u32, h: u32, color: u32) -> (r: Shape<'static>)
    ensures
        r@ == outline(x as int, y as int, w as int, h as int, color),
{
    Shape::Rect { x, y, w, h, color, filled: false }
}

/// A text made of two.
fn two(a: &str, b: &str) -> (r: String)
    ensures
        r@ == a@ + b@,
{
    let mut r: String = a.to_owned();
    r.append(b);
    r
}

/// The colour of the border.
pub fn border_color(mode: u8) -> (r: u32)
    ensures
        r == border_of(mode),
{
    if mode == 1 {
        YELLOW
    } else if mode == 2 {
        BLUE
    } else if mode == 3 {
        GREEN
    } else if mode == 4 {
        RED
    } else {
        NEUTRAL
    }
}

/// The picture in the debug window.
#[derive(Debug)]
pub struct DebugWindow {
    /// A colour for each pixel, row by row.
    pub buf: Vec<u32>,
    pub border_color: u32,
}

impl DebugWindow {
    /// Whether there is a colour for every pixel.
    pub open spec fn wf(self) -> bool {
        self.buf@.len() == WIN_W * WIN_H
    }

    /// A black window.
    pub fn new() -> (r: DebugWindow)
        ensures
            r.wf(),
            r.border_color == NEUTRAL,
            forall|i: int| 0 <= i < r.buf@.len() ==> r.buf@[i] == 0,
    {
        DebugWindow { buf: vec![0;WIN_W * WIN_H], border_color: NEUTRAL }
    }

    /// Draws what was found of a face.
    pub fn draw_detection(&mut self, d: &DebugDetection)
        requires
            old(self).wf(),
            d.wf(),
        ensures
            final(self).wf(),
            final(self).border_color == old(self).border_color,
            final(self).buf@ == painted_all(old(self).buf@, detection_shapes(*d)),
    {
        let zero: Scalar = Scalar { bits: 0 };
        let compared = match &d.similarity {
            Some(s) => s.0.gt(zero),
            None => false,
        };
        let color: u32 = if compared {
            GREEN
        } else if d.liveness_pass {
            BLUE
        } else if d.lbp_entropy.gt(zero) {
            RED
        } else {
            YELLOW
        };
        let (x, y, w, h) = d.bbox;
        let mut label: String = two(d.confidence.as_str(), "%");
        match &d.similarity {
            Some(s) => {
                label.append(" sim:");
                label.append(s.1.as_str());
            },
            None => {},
        }
        let ghost pic = self.buf@;
        let mut done: Ghost<Seq<ShapeView>> = Ghost(Seq::empty());
        paint_next(&mut self.buf, &edges(x, y, w, h, color), Ghost(pic), &mut done);
        paint_next(
            &mut self.buf,
            &edges(x.saturating_sub(1), y.saturating_sub(1), w + 2, h + 2, color),
            Ghost(pic),
            &mut done,
        );
        let ghost first = done@;
        let mut i: usize = 0;
        while i < 5
            invariant
                i <= 5,
                self.buf@.len() == WIN_W * WIN_H,
                self.border_color == old(self).border_color,
                self.buf@ == painted_all(pic, done@),
                done@.len() == 2 + i,
                done@.take(2) == first,
                first.len() == 2,
                forall|j: int|
                    2 <= j < 2 + i ==> #[trigger] done@[j] == point_shape(d.landmarks@[j - 2]),
            decreases 5 - i,
        {
            let (cx, cy) = d.landmarks[i];
            let ghost was = done@;
            paint_next(
                &mut self.buf,
                &Shape::FilledCircle { cx, cy, r: 3, color: LANDMARK },
                Ghost(pic),
                &mut done,
            );
            assert(done@.take(2) =~= was.take(2));
            i += 1;
        }
        let ghost points = done@;
        let text = Shape::Text {
            x,
            y: y.saturating_sub(12),
            text: chars_of(label.as_str()),
            color,
        };
        paint_next(&mut self.buf, &text, Ghost(pic), &mut done);
        proof {
            assert(points[0] == points.take(2)[0] && points[1] == points.take(2)[1]);
            assert(done@[0] == points[0] && done@[1] == points[1]);
            assert(done@ =~= detection_shapes(*d));
        }
    }

    /// Draws the readings of a face.
    fn draw_readings(&mut self, d: &DebugDetection)
        requires
            old(self).wf(),
        ensures
            final(self).wf(),
            final(self).border_color == old(self).border_color,
            final(self).buf@ == painted_all(old(self).buf@, reading_shapes(*d)),
    {
        let ghost pic = self.buf@;
        let mut done: Ghost<Seq<ShapeView>> = Ghost(Seq::empty());
        let mut pose: String = two("yaw:", d.yaw.as_str());
        pose.append(" pit:");
        pose.append(d.pitch.as_str());
        pose.append(" rol:");
        pose.append(d.roll.as_str());
        paint_next(&mut self.buf, &panel_line(40, pose.as_str(), WHITE), Ghost(pic), &mut done);
        let mut size: String = two("face: ", d.face_ratio.as_str());
        size.append("%");
        paint_next(&mut self.buf, &panel_line(52, size.as_str(), WHITE), Ghost(pic), &mut done);
        let sharp: u32 = if d.blur_score.ge(Scalar { bits: 0x4248_0000 }) {
            GREEN
        } else {
            RED
        };
        let blur = two("blur: ", d.blur_text.as_str());
        paint_next(&mut self.buf, &panel_line(64, blur.as_str(), sharp), Ghost(pic), &mut done);
        let exposure = if d.ir_saturated {
            panel_line(76, "IR sat: YES", RED)
        } else {
            panel_line(76, "IR sat: no", GREEN)
        };
        paint_next(&mut self.buf, &exposure, Ghost(pic), &mut done);
        let live: u32 = if d.liveness_pass {
            GREEN
        } else {
            YELLOW
        };
        let texture = two("LBP: ", d.lbp_text.as_str());
        paint_next(&mut self.buf, &panel_line(90, texture.as_str(), live), Ghost(pic), &mut done);
        let contrast = two("CV: ", d.contrast_text.as_str());
        paint_next(&mut self.buf, &panel_line(102, contrast.as_str(), live), Ghost(pic), &mut done);
        let verdict = if d.liveness_pass {
            "live: PASS"
        } else {
            "live: FAIL"
        };
        paint_next(&mut self.buf, &panel_line(114, verdict, live), Ghost(pic), &mut done);
        assert(done@ =~= reading_shapes(*d));
    }

    /// Draws the similarity and the aligned pictures.
    fn draw_crops(&mut self, d: &DebugDetection)
        requires
            old(self).wf(),
            d.wf(),
        ensures
            final(self).wf(),
            final(self).border_color == old(self).border_color,
            final(self).buf@ == painted_all(old(self).buf@, crop_shapes(*d)),
    {
        let ghost pic = self.buf@;
        let mut done: Ghost<Seq<ShapeView>> = Ghost(Seq::empty());
        let mut y: u32 = 128;
        match &d.similarity {
            Some(s) => {
                let color: u32 = if s.0.ge(Scalar { bits: 0x3f33_3333 }) {
                    GREEN
                } else if s.0.ge(Scalar { bits: 0x3f00_0000 }) {
                    YELLOW
                } else {
                    RED
                };
                let text = two("sim: ", s.1.as_str());
                paint_next(&mut self.buf, &panel_line(y, text.as_str(), color), Ghost(pic), &mut done);
                y += 14;
            },
            None => {},
        }
        match &d.aligned_crop {
            Some(data) => {
                paint_next(&mut self.buf, &panel_line(y + 4, "raw crop:", DIM), Ghost(pic), &mut done);
                let crop = Shape::GrayThumbnail { x: PANEL_X + 8, y: y + 16, data };
                paint_next(&mut self.buf, &crop, Ghost(pic), &mut done);
                y += 76;
            },
            None => {},
        }
        match &d.clahe_crop {
            Some(data) => {
                paint_next(&mut self.buf, &panel_line(y, "CLAHE:", DIM), Ghost(pic), &mut done);
                let crop = Shape::GrayThumbnail { x: PANEL_X + 8, y: y + 12, data };
                paint_next(&mut self.buf, &crop, Ghost(pic), &mut done);
            },
            None => {},
        }
        assert(done@ =~= crop_shapes(*d));
    }

    /// Draws the panel.
    pub fn draw_panel(&mut self, f: &DebugFrame)
        requires
            old(self).wf(),
            f.wf(),
        ensures
            final(self).wf(),
            final(self).border_color == old(self).border_color,
            final(self).buf@ == painted_all(
                old(self).buf@,
                panel_shapes(*f, old(self).border_color),
            ),
    {
        let ghost pic = self.buf@;
        let mut done: Ghost<Seq<ShapeView>> = Ghost(Seq::empty());
        let color: u32 = self.border_color;
        paint_next(&mut self.buf, &panel_line(8, f.state.as_str(), color), Ghost(pic), &mut done);
        let fps = two("FPS: ", f.fps.as_str());
        paint_next(&mut self.buf, &panel_line(22, fps.as_str(), DIM), Ghost(pic), &mut done);
        match &f.detection {
            Some(d) => {
                self.draw_readings(d);
                proof {
                    lemma_painted_twice(pic, done@, reading_shapes(*d));
                }
                self.draw_crops(d);
                proof {
                    lemma_painted_twice(pic, done@ + reading_shapes(*d), crop_shapes(*d));
                    assert(done@ + reading_shapes(*d) + crop_shapes(*d) =~= panel_shapes(*f, color));
                }
            },
            None => {
                assert(done@ =~= panel_shapes(*f, color));
            },
        }
    }

    /// Draws a frame: what was in the window before does not matter.
    pub fn render(&mut self, f: &DebugFrame)
        requires
            old(self).wf(),
            f.wf(),
        ensures
            final(self).wf(),
            final(self).border_color == border_of(f.border_mode),
            final(self).buf@ == painted_all(blank(), scene(*f)),
    {
        let mut i: usize = 0;
        while i < self.buf.len()
            invariant
                i <= self.buf@.len(),
                self.wf(),
                forall|j: int| 0 <= j < i ==> self.buf@[j] == BACKGROUND,
            decreases self.buf@.len() - i,
        {
            self.buf.set(i, BACKGROUND);
            i += 1;
        }
        assert(self.buf@ =~= blank());
        let color: u32 = border_color(f.border_mode);
        self.border_color = color;
        let mut done: Ghost<Seq<ShapeView>> = Ghost(Seq::empty());
        let picture = Shape::Picture { data: &f.frame_data, width: f.frame_w, height: f.frame_h };
        paint_next(&mut self.buf, &picture, Ghost(blank()), &mut done);
        paint_next(&mut self.buf, &edges(0, 0, 640, 360, color), Ghost(blank()), &mut done);
        paint_next(&mut self.buf, &edges(1, 1, 638, 358, color), Ghost(blank()), &mut done);
        paint_next(&mut self.buf, &edges(2, 2, 636, 356, color), Ghost(blank()), &mut done);
        assert(done@ =~= frame_shapes(*f));
        let ghost mut drawn = done@;
        match &f.detection {
            Some(d) => {
                self.draw_detection(d);
                proof {
                    lemma_painted_twice(blank(), drawn, detection_shapes(*d));
                    drawn = drawn + detection_shapes(*d);
                }
            },
            None => {
                assert(drawn + Seq::<ShapeView>::empty() =~= drawn);
            },
        }
        self.draw_panel(f);
        proof {
            lemma_painted_twice(blank(), drawn, panel_shapes(*f, color));
            assert(drawn + panel_shapes(*f, color) =~= scene(*f));
        }
    }
}

/// Whether none of the things is drawn at a place.
pub open spec fn untouched(shapes: Seq<ShapeView>, px: int, py: int) -> bool {
    forall|k: int| 0 <= k < shapes.len() ==> (#[trigger] shapes[k]).cover(px, py) is None
}

/// A pixel has the colour of what was drawn on it last.
pub proof fn last_shape_wins(pic: Seq<u32>, shapes: Seq<ShapeView>, k: int, i: int)
    requires
        0 <= i < pic.len(),
        0 <= k < shapes.len(),
        shapes[k].cover(i % (WIN_W as int), i / (WIN_W as int)) is Some,
        untouched(shapes.skip(k + 1), i % (WIN_W as int), i / (WIN_W as int)),
    ensures
        painted_all(pic, shapes).len() == pic.len(),
        Some(painted_all(pic, shapes)[i]) == shapes[k].cover(
            i % (WIN_W as int),
            i / (WIN_W as int),
        ),
    decreases shapes.len(),
{
    let (px, py) = (i % (WIN_W as int), i / (WIN_W as int));
    lemma_painted_len(pic, shapes.drop_last());
    if k < shapes.len() - 1 {
        let rest = shapes.skip(k + 1);
        let shorter = shapes.drop_last();
        assert(shapes.last() == rest[rest.len() - 1]);
        assert forall|j: int| 0 <= j < shorter.skip(k + 1).len() implies (#[trigger] shorter.skip(
            k + 1,
        )[j]).cover(px, py) is None by {
            assert(shorter.skip(k + 1)[j] == rest[j]);
        }
        last_shape_wins(pic, shorter, k, i);
    }
}

/// A pixel on which nothing is drawn keeps its colour.
pub proof fn other_pixels_stay(pic: Seq<u32>, shapes: Seq<ShapeView>, i: int)
    requires
        0 <= i < pic.len(),
        untouched(shapes, i % (WIN_W as int), i / (WIN_W as int)),
    ensures
        painted_all(pic, shapes).len() == pic.len(),
        painted_all(pic, shapes)[i] == pic[i],
    decreases shapes.len(),
{
    if shapes.len() > 0 {
        let shorter = shapes.drop_last();
        assert forall|j: int| 0 <= j < shorter.len() implies (#[trigger] shorter[j]).cover(
            i % (WIN_W as int),
            i / (WIN_W as int),
        ) is None by {
            assert(shorter[j] == shapes[j]);
        }
        assert(shapes.last() == shapes[shapes.len() - 1]);
        other_pixels_stay(pic, shorter, i);
    }
}

/// Drawing changes no picture's size.
proof fn lemma_painted_len(pic: Seq<u32>, shapes: Seq<ShapeView>)
    ensures
        painted_all(pic, shapes).len() == pic.len(),
    decreases shapes.len(),
{
    if shapes.len() > 0 {
        lemma_painted_len(pic, shapes.drop_last());
    }
}

/// What the colour round a face tells: green that it was compared with an enrolled one and is like it,
/// blue that it is alive, red that it is not, yellow that nothing is known.
pub proof fn colours_tell_about_a_face(d: DebugDetection)
    ensures
        ({
            let compared = d.similarity matches Some(s) && (Scalar { bits: 0 }).below(s.0);
            let judged = (Scalar { bits: 0 }).below(d.lbp_entropy);
            let c = detection_color(d);
            &&& c == 0x0044_cc44u32 <==> compared
            &&& c == 0x0044_88ffu32 <==> !compared && d.liveness_pass
            &&& c == 0x00cc_4444u32 <==> !compared && !d.liveness_pass && judged
            &&& c == 0x00cc_cc00u32 <==> !compared && !d.liveness_pass && !judged
        }),
{
}

/// A higher similarity is never shown in a worse colour: red below 0.50, yellow below 0.70, green
/// from there on.
pub proof fn colours_tell_about_a_similarity(s: Scalar)
    requires
        !s.nan(),
    ensures
        similarity_color(s) == 0x00cc_4444u32 <==> s.below(Scalar { bits: 0x3f00_0000 }),
        similarity_color(s) == 0x0044_cc44u32 <==> !s.below(Scalar { bits: 0x3f33_3333 }),
        similarity_color(s) == 0x00cc_cc00u32 <==> !s.below(Scalar { bits: 0x3f00_0000 }) && s.below(
            Scalar { bits: 0x3f33_3333 },
        ),
{
}

/// Where a thing in the panel begins and ends, from top to bottom.
pub open spec fn vertical(s: ShapeView) -> (int, int) {
    match s {
        ShapeView::Text { y, .. } => (y, y + 7),
        ShapeView::GrayThumbnail { y, .. } => (y, y + 56),
        _ => (0, 0),
    }
}

/// The things in the panel stand below one another, each in the panel, and none over another.
pub proof fn panel_things_do_not_overlap(f: DebugFrame, border_color: u32, i: int, j: int)
    requires
        0 <= i < j < panel_shapes(f, border_color).len(),
    ensures
        ({
            let shapes = panel_shapes(f, border_color);
            &&& vertical(shapes[i]).1 <= vertical(shapes[j]).0
            &&& 8 <= vertical(shapes[i]).0 && vertical(shapes[j]).1 <= 360
        }),
{
    let shapes = panel_shapes(f, border_color);
    if f.detection is Some {
        let d = f.detection->0;
        let tail = reading_shapes(d) + crop_shapes(d);
        assert(reading_shapes(d).len() == 7);
    }
}

/// Every point of a face is marked where it is.
pub proof fn points_are_marked(d: DebugDetection, i: int)
    requires
        0 <= i < 5,
    ensures
        detection_shapes(d)[2 + i].cover(d.landmarks@[i].0 as int, d.landmarks@[i].1 as int) == Some(
            0x00ff_4444u32,
        ),
{
    let p = d.landmarks@[i];
    crate::shapes::circle_is_round(p.0 as int, p.1 as int, 3, LANDMARK, 0, 0);
    assert(detection_shapes(d)[2 + i] == point_shape(p));
}

/// A face is framed twice: on the edges of its rectangle, and one pixel farther out.
pub proof fn face_is_framed(d: DebugDetection, px: int, py: int)
    requires
        d.bbox.0 >= 1,
        d.bbox.1 >= 1,
        d.bbox.2 >= 1,
        d.bbox.3 >= 1,
    ensures
        ({
            let (x, y, w, h) = d.bbox;
            let framed = detection_shapes(d)[0].cover(px, py) is Some || detection_shapes(d)[1].cover(
                px,
                py,
            ) is Some;
            let outside = px < x - 1 || px > x + w || py < y - 1 || py > y + h;
            let inside = x < px < x + w - 1 && y < py < y + h - 1;
            framed <==> !outside && !inside
        }),
{
}

/// The border is three pixels wide, and leaves the frame inside it free.
pub proof fn border_is_three_wide(f: DebugFrame, px: int, py: int)
    requires
        0 <= px < 640,
        0 <= py < 360,
    ensures
        ({
            let s = frame_shapes(f);
            let bordered = s[1].cover(px, py) is Some || s[2].cover(px, py) is Some || s[3].cover(px, py)
                is Some;
            &&& bordered <==> px < 3 || px >= 637 || py < 3 || py >= 357
            &&& s[1].cover(px, py) is Some ==> s[1].cover(px, py) == Some(border_of(f.border_mode))
            &&& s.len() == 4
        }),
{
}

/// The border tells five things apart.
pub proof fn border_tells_the_state(a: u8, b: u8)
    requires
        a <= 4,
        b <= 4,
    ensures
        border_of(a) == border_of(b) ==> a == b,
        border_of(3) == 0x0044_cc44u32,
        border_of(4) == 0x00cc_4444u32,
{
}

/// The panel says whether a face passes for alive and whether it is overexposed, in green where it is
/// as it should be.
pub proof fn panel_tells_how_it_is(d: DebugDetection)
    ensures
        reading_shapes(d).len() == 7,
        d.liveness_pass <==> reading_shapes(d)[6] == panel_text(114, "live: PASS"@, 0x0044_cc44u32),
        d.ir_saturated <==> reading_shapes(d)[3] == panel_text(76, "IR sat: YES"@, 0x00cc_4444u32),
        d.blur_score.reaches(Scalar { bits: 0x4248_0000 }) <==> reading_shapes(d)[2] == panel_text(
            64,
            "blur: "@ + d.blur_text@,
            0x0044_cc44u32,
        ),
{
}

} // verus!
