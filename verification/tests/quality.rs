use face_auth::geometry::BBox;
use face_auth::quality::{
    count_roi_pixels, extract_roi, ir_saturated, is_upright, laplacian, lbp_histogram, lbp_patterns,
    patch_statistics, IrLivenessScores, Roi,
};
use face_auth::raster::{count_above, extract, histogram, Region};
use face_auth::scalar::Scalar;

fn num(v: f32) -> Scalar {
    Scalar::from_bits(v.to_bits())
}

fn rect(x1: f32, y1: f32, x2: f32, y2: f32) -> BBox {
    BBox { x1: num(x1), y1: num(y1), x2: num(x2), y2: num(y2) }
}

/// The variance of the Laplacian of a face.
fn blur_score(data: &Vec<u8>, bbox: &BBox, width: u32, height: u32) -> f32 {
    assert!(is_upright(bbox, width, height));
    let values = laplacian(&extract_roi(data, bbox, width, height));
    if values.is_empty() {
        return 0.0;
    }
    let n = values.len() as f32;
    let mean = values.iter().map(|v| *v as f32).sum::<f32>() / n;
    values.iter().map(|v| (*v as f32 - mean) * (*v as f32 - mean)).sum::<f32>() / n
}

fn compute_lbp_entropy(roi: &Roi) -> f32 {
    let histogram = lbp_histogram(roi);
    let total: u32 = histogram.iter().sum();
    let mut entropy = 0.0f32;
    for count in histogram {
        if count > 0 {
            let p = count as f32 / total as f32;
            entropy -= p * p.log2();
        }
    }
    entropy
}

fn compute_local_contrast_cv(roi: &Roi) -> f32 {
    let deviations: Vec<f32> = patch_statistics(roi)
        .into_iter()
        .map(|(sum, squares)| {
            let mean = sum as f32 / 256.0;
            (squares as f32 / 256.0 - mean * mean).max(0.0).sqrt()
        })
        .collect();
    if deviations.len() < 2 {
        return 0.0;
    }
    let n = deviations.len() as f32;
    let mean = deviations.iter().sum::<f32>() / n;
    if mean < 1.0 {
        return 0.0;
    }
    let variance = deviations.iter().map(|s| (s - mean) * (s - mean)).sum::<f32>() / n;
    variance.sqrt() / mean
}

fn ir_liveness_check(data: &Vec<u8>, bbox: &BBox, width: u32, height: u32) -> (f32, f32) {
    let roi = extract_roi(data, bbox, width, height);
    (compute_lbp_entropy(&roi), compute_local_contrast_cv(&roi))
}

#[test]
fn not_saturated() {
    let data = vec![128u8; 640 * 360];
    assert!(!ir_saturated(&data, &rect(100.0, 100.0, 200.0, 200.0), 640));
}

#[test]
fn saturated_roi() {
    let mut data = vec![128u8; 640 * 360];
    for row in 100..200 {
        for col in 100..200 {
            data[row * 640 + col] = 255;
        }
    }
    assert!(ir_saturated(&data, &rect(100.0, 100.0, 200.0, 200.0), 640));
}

#[test]
fn sharp_image_high_blur_score() {
    let mut data = vec![0u8; 640 * 360];
    for row in 100..200 {
        for col in 100..200 {
            data[row * 640 + col] = if (row + col) % 2 == 0 { 200 } else { 50 };
        }
    }
    let score = blur_score(&data, &rect(100.0, 100.0, 200.0, 200.0), 640, 360);
    assert!(score > 50.0, "expected sharp score, got {score}");
}

#[test]
fn uniform_image_low_blur_score() {
    let data = vec![128u8; 640 * 360];
    let score = blur_score(&data, &rect(100.0, 100.0, 200.0, 200.0), 640, 360);
    assert!(score < 1.0, "expected blurry score, got {score}");
}

#[test]
fn lbp_entropy_textured_image_high() {
    let mut data = vec![0u8; 640 * 360];
    for row in 0..360usize {
        for col in 0..640usize {
            let v = ((row * 7 + col * 13) ^ (row * col)) as u8;
            data[row * 640 + col] = v;
        }
    }
    let (entropy, _) = ir_liveness_check(&data, &rect(100.0, 100.0, 260.0, 260.0), 640, 360);
    assert!(entropy > 5.0, "textured image should have high LBP entropy, got {entropy}");
}

#[test]
fn lbp_entropy_uniform_image_low() {
    let data = vec![128u8; 640 * 360];
    let (entropy, _) = ir_liveness_check(&data, &rect(100.0, 100.0, 260.0, 260.0), 640, 360);
    assert!(entropy < 1.0, "uniform image should have low LBP entropy, got {entropy}");
}

#[test]
fn local_contrast_cv_varied_patches() {
    let mut data = vec![128u8; 640 * 360];
    for row in 100..164 {
        for col in 100..164 {
            data[row * 640 + col] = if (row + col) % 2 == 0 { 40 } else { 220 };
        }
    }
    let (_, cv) = ir_liveness_check(&data, &rect(100.0, 100.0, 260.0, 260.0), 640, 360);
    assert!(cv > 0.3, "varied image should have high contrast CV, got {cv}");
}

#[test]
fn local_contrast_cv_uniform_low() {
    let data = vec![128u8; 640 * 360];
    let (_, cv) = ir_liveness_check(&data, &rect(100.0, 100.0, 260.0, 260.0), 640, 360);
    assert!(cv < 0.1, "uniform image should have low contrast CV, got {cv}");
}

#[test]
fn ir_liveness_scores_is_live() {
    let live = IrLivenessScores { lbp_entropy: num(6.0), local_contrast_cv: num(0.35) };
    assert!(live.is_live(num(5.5), num(0.20), num(0.50)));
    assert!(!live.is_live(num(7.0), num(0.20), num(0.50)));
    assert!(!live.is_live(num(5.5), num(0.40), num(0.50)));
    let screen = IrLivenessScores { lbp_entropy: num(6.5), local_contrast_cv: num(1.2) };
    assert!(!screen.is_live(num(5.5), num(0.20), num(0.50)));
}

#[test]
fn thirty_percent_is_not_yet_glare() {
    let mut data = vec![0u8; 100];
    for p in data.iter_mut().take(30) {
        *p = 251;
    }
    let all = rect(0.0, 0.0, 10.0, 10.0);
    assert_eq!(count_roi_pixels(&data, &all, 10, 250), (100, 30));
    assert!(!ir_saturated(&data, &all, 10));
    data[30] = 251;
    assert!(ir_saturated(&data, &all, 10));
    assert!(!ir_saturated(&data, &rect(20.0, 0.0, 30.0, 10.0), 10));
}

#[test]
fn face_partly_outside_the_frame_is_cut() {
    let data: Vec<u8> = (0..20).collect();
    let roi = extract_roi(&data, &rect(-3.0, 1.5, 2.9, 99.0), 5, 4);
    assert_eq!((roi.width, roi.height), (2, 3));
    assert_eq!(roi.pixels, vec![5, 6, 10, 11, 15, 16]);
    assert!(!is_upright(&rect(4.0, 0.0, 2.0, 3.0), 5, 4));
}

#[test]
fn laplacian_of_a_spike() {
    let mut pixels = vec![10u8; 25];
    pixels[12] = 110;
    let roi = Roi { pixels, width: 5, height: 5 };
    assert_eq!(laplacian(&roi), vec![0, 100, 0, 100, -400, 100, 0, 100, 0]);
}

#[test]
fn patterns_go_clockwise_from_the_right() {
    let spike = |k: usize| {
        let mut pixels = vec![1u8; 9];
        pixels[4] = 5;
        pixels[k] = 9;
        lbp_patterns(&Roi { pixels, width: 3, height: 3 })
    };
    assert_eq!(spike(5), vec![1]);
    assert_eq!(spike(8), vec![2]);
    assert_eq!(spike(7), vec![4]);
    assert_eq!(spike(6), vec![8]);
    assert_eq!(spike(3), vec![16]);
    assert_eq!(spike(0), vec![32]);
    assert_eq!(spike(1), vec![64]);
    assert_eq!(spike(2), vec![128]);
}

#[test]
fn flat_picture_shows_one_pattern() {
    let roi = Roi { pixels: vec![7u8; 20], width: 5, height: 4 };
    assert_eq!(laplacian(&roi), vec![0; 6]);
    assert_eq!(lbp_patterns(&roi), vec![255u8; 6]);
    assert_eq!(lbp_histogram(&roi)[255], 6);
    assert_eq!(lbp_histogram(&roi).iter().sum::<u32>(), 6);
}

#[test]
fn narrow_pictures_have_no_texture() {
    let roi = Roi { pixels: vec![7u8; 8], width: 2, height: 4 };
    assert!(laplacian(&roi).is_empty());
    assert!(lbp_patterns(&roi).is_empty());
    assert!(patch_statistics(&roi).is_empty());
}

#[test]
fn patches_are_summed() {
    let mut pixels = vec![2u8; 33 * 16];
    for row in 0..16 {
        for col in 16..32 {
            pixels[row * 33 + col] = 3;
        }
    }
    let roi = Roi { pixels, width: 33, height: 16 };
    assert_eq!(patch_statistics(&roi), vec![(512, 1024), (768, 2304)]);
}

#[test]
fn counting_pixels() {
    let data: Vec<u8> = vec![1, 2, 3, 4, 5, 6];
    let region = Region { x1: 1, y1: 0, x2: 3, y2: 2 };
    let cut = extract(&data, 3, 2, &region);
    assert_eq!(cut, vec![2, 3, 5, 6]);
    assert_eq!(count_above(&cut, 3), 2);
    let h = histogram(&cut);
    assert_eq!(h.len(), 256);
    assert_eq!(h[5], 1);
    assert_eq!(h[4], 0);
    assert_eq!(h.iter().sum::<u32>(), 4);
}
