use face_auth::canvas::{border_color, DebugDetection, DebugFrame, DebugWindow, WIN_H, WIN_W};
use face_auth::scalar::Scalar;
use face_auth::shapes::{draw, draw_filled_circle, Shape};

fn num(v: f32) -> Scalar {
    Scalar::from_bits(v.to_bits())
}

fn frame(detection: Option<DebugDetection>, border_mode: u8) -> DebugFrame {
    DebugFrame {
        frame_data: vec![0x40; 640 * 360],
        frame_w: 640,
        frame_h: 360,
        detection,
        state: "I".to_string(),
        fps: "30".to_string(),
        border_mode,
    }
}

fn detection() -> DebugDetection {
    DebugDetection {
        bbox: (100, 80, 50, 60),
        landmarks: [(110, 100), (130, 100), (120, 110), (112, 125), (128, 125)],
        confidence: "97".to_string(),
        yaw: "1".to_string(),
        pitch: "2".to_string(),
        roll: "3".to_string(),
        face_ratio: "20".to_string(),
        blur_score: num(80.0),
        blur_text: "80".to_string(),
        ir_saturated: false,
        lbp_entropy: num(6.0),
        lbp_text: "6.00".to_string(),
        contrast_text: "0.300".to_string(),
        liveness_pass: true,
        similarity: None,
        aligned_crop: None,
        clahe_crop: None,
    }
}

fn at(w: &DebugWindow, x: usize, y: usize) -> u32 {
    w.buf[y * WIN_W + x]
}

#[test]
fn borders_tell_the_state() {
    assert_eq!(border_color(1), 0x00CC_CC00);
    assert_eq!(border_color(2), 0x0044_88FF);
    assert_eq!(border_color(3), 0x0044_CC44);
    assert_eq!(border_color(4), 0x00CC_4444);
    assert_eq!(border_color(0), 0x0033_3333);
}

#[test]
fn empty_frame() {
    let mut w = DebugWindow::new();
    assert_eq!(w.buf.len(), WIN_W * WIN_H);
    w.render(&frame(None, 1));
    for i in 0..3 {
        assert_eq!(at(&w, i, i), 0x00CC_CC00);
        assert_eq!(at(&w, 639 - i, 200), 0x00CC_CC00);
        assert_eq!(at(&w, 300, 359 - i), 0x00CC_CC00);
    }
    assert_eq!(at(&w, 3, 3), 0x0040_4040);
    assert_eq!(at(&w, 640, 0), 0x0011_1111);
    // The letter I: a bar of three pixels, a stem, and a bar again.
    assert_eq!(at(&w, 648, 8), 0x0011_1111);
    assert_eq!(at(&w, 649, 8), 0x00CC_CC00);
    assert_eq!(at(&w, 651, 8), 0x00CC_CC00);
    assert_eq!(at(&w, 649, 9), 0x0011_1111);
    assert_eq!(at(&w, 650, 9), 0x00CC_CC00);
    assert_eq!(at(&w, 649, 14), 0x00CC_CC00);
    assert_eq!(at(&w, 650, 15), 0x0011_1111);
}

#[test]
fn small_frame_leaves_the_background() {
    let mut f = frame(None, 0);
    f.frame_w = 10;
    f.frame_h = 10;
    f.frame_data = (0..100).collect();
    let mut w = DebugWindow::new();
    w.render(&f);
    assert_eq!(at(&w, 5, 7), 75 * 0x1_0101);
    assert_eq!(at(&w, 12, 7), 0x0011_1111);
}

#[test]
fn face_is_marked() {
    let mut w = DebugWindow::new();
    w.render(&frame(Some(detection()), 2));
    assert_eq!(at(&w, 100, 80), 0x0044_88FF);
    assert_eq!(at(&w, 149, 139), 0x0044_88FF);
    assert_eq!(at(&w, 99, 79), 0x0044_88FF);
    assert_eq!(at(&w, 150, 140), 0x0044_88FF);
    assert_eq!(at(&w, 102, 82), 0x0040_4040);
    assert_eq!(at(&w, 110, 103), 0x00FF_4444);
    assert_eq!(at(&w, 112, 102), 0x00FF_4444);
    assert_eq!(at(&w, 113, 102), 0x0040_4040);
    // The label begins with the digit 9, twelve rows above the rectangle.
    assert_eq!(at(&w, 101, 68), 0x0044_88FF);
    assert_eq!(at(&w, 100, 68), 0x0040_4040);
}

#[test]
fn colours_follow_the_verdict() {
    let corner = |d: DebugDetection| {
        let mut w = DebugWindow::new();
        w.render(&frame(Some(d), 0));
        at(&w, 100, 80)
    };
    let mut d = detection();
    d.similarity = Some((num(0.5), "0.500".to_string()));
    assert_eq!(corner(d), 0x0044_CC44);
    let mut d = detection();
    d.liveness_pass = false;
    assert_eq!(corner(d), 0x00CC_4444);
    let mut d = detection();
    d.liveness_pass = false;
    d.lbp_entropy = num(0.0);
    assert_eq!(corner(d), 0x00CC_CC00);
}

#[test]
fn aligned_pictures_are_shown() {
    let mut d = detection();
    let crop: Vec<u8> = (0..112 * 112).map(|i| (i % 112) as u8).collect();
    d.aligned_crop = Some(crop.clone());
    d.clahe_crop = Some(crop);
    d.similarity = Some((num(0.65), "0.650".to_string()));
    let mut w = DebugWindow::new();
    w.render(&frame(Some(d), 0));
    assert_eq!(at(&w, 648 + 10, 158), 20 * 0x1_0101);
    assert_eq!(at(&w, 648 + 55, 158 + 55), 110 * 0x1_0101);
    assert_eq!(at(&w, 648 + 56, 158), 0x0011_1111);
    assert_eq!(at(&w, 648 + 10, 230), 20 * 0x1_0101);
}

#[test]
fn drawing_starts_over_each_time() {
    let mut w = DebugWindow::new();
    w.render(&frame(Some(detection()), 2));
    w.render(&frame(None, 0));
    let mut fresh = DebugWindow::new();
    fresh.render(&frame(None, 0));
    assert_eq!(w.buf, fresh.buf);
}

#[test]
fn rectangles_outside_are_cut() {
    let mut d = detection();
    d.bbox = (830, 350, 4_000_000_000, 4_000_000_000);
    d.landmarks = [(-2, -2), (i32::MAX, 0), (0, i32::MIN), (839, 359), (5000, 5000)];
    let mut w = DebugWindow::new();
    w.render(&frame(Some(d), 0));
    assert_eq!(at(&w, 839, 350), 0x0044_88FF);
    assert_eq!(at(&w, 839, 359), 0x00FF_4444);
    assert_eq!(at(&w, 0, 0), 0x00FF_4444);
}

#[test]
fn circles_of_any_size_on_any_picture() {
    let (w, h): (usize, usize) = (50, 40);
    for (cx, cy, r) in [(25, 20, 7), (-30, 10, 40), (300, 300, 400), (10, 10, 0), (5, 5, -1), (0, 0, 32767)] {
        let mut buf = vec![1u32; w * h + 3];
        draw_filled_circle(&mut buf, w, h, cx, cy, r, 9);
        for y in 0..h {
            for x in 0..w {
                let (dx, dy) = (x as i64 - cx as i64, y as i64 - cy as i64);
                let inside = r >= 0 && dx * dx + dy * dy <= r as i64 * r as i64;
                assert_eq!(buf[y * w + x], if inside { 9 } else { 1 });
            }
        }
        assert_eq!(buf[w * h..], [1, 1, 1]);
    }
    draw_filled_circle(&mut vec![], 0, 7, 0, 0, 5, 9);
}

#[test]
fn shapes_on_a_small_picture() {
    let mut buf = vec![0u32; 12];
    draw(&mut buf, 4, 3, &Shape::Rect { x: 2, y: 1, w: 9, h: 9, color: 5, filled: true });
    assert_eq!(buf, vec![0, 0, 0, 0, 0, 0, 5, 5, 0, 0, 5, 5]);
}
