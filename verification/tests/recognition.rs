use face_auth::alignment::{pixel_clamped, pixel_or_black, AlignedFace};
use face_auth::recognition::{
    check_embedding, cumulative, curve_start, neighbours, redistribute, tile_curve, tile_histogram, tiles,
    RecognitionError,
};

/// Contrast limited adaptive histogram equalisation.
fn clahe(data: &Vec<u8>, width: usize, height: usize, tile: usize, clip_limit: f32) -> Vec<u8> {
    let (tiles_x, tiles_y) = (tiles(width, tile), tiles(height, tile));
    let mut maps: Vec<Vec<u8>> = Vec::new();
    for ty in 0..tiles_y {
        for tx in 0..tiles_x {
            let hist = tile_histogram(
                data, width as u32, height as u32, tile as u32, ty as u32, tx as u32,
            );
            let count: u32 = hist.iter().sum();
            let clip = (clip_limit * count as f32 / 256.0).max(1.0) as u32;
            let curve = tile_curve(&hist, clip);
            let start = curve_start(&curve) as f32;
            let scale = 255.0 / (curve[255] as f32 - start).max(1.0);
            maps.push(
                curve
                    .iter()
                    .map(|c| ((*c as f32 - start) * scale).round().clamp(0.0, 255.0) as u8)
                    .collect(),
            );
        }
    }
    let half = tile as f32 / 2.0;
    let mut output = vec![0u8; width * height];
    for row in 0..height {
        for col in 0..width {
            let (tx0, tx1) = neighbours(col as u32, tile as u32, tiles_x as u32);
            let (ty0, ty1) = neighbours(row as u32, tile as u32, tiles_y as u32);
            let ax = ((col as f32 - half) / tile as f32 - tx0 as f32).clamp(0.0, 1.0);
            let ay = ((row as f32 - half) / tile as f32 - ty0 as f32).clamp(0.0, 1.0);
            let at = |ty: u32, tx: u32| {
                maps[ty as usize * tiles_x + tx as usize][data[row * width + col] as usize] as f32
            };
            let val = at(ty0, tx0) * (1.0 - ax) * (1.0 - ay)
                + at(ty0, tx1) * ax * (1.0 - ay)
                + at(ty1, tx0) * (1.0 - ax) * ay
                + at(ty1, tx1) * ax * ay;
            output[row * width + col] = val.round().clamp(0.0, 255.0) as u8;
        }
    }
    output
}

#[test]
fn clahe_spreads_dark_image() {
    let data: Vec<u8> = (0..112 * 112).map(|i| 10 + (i % 21) as u8).collect();
    let eq = clahe(&data, 112, 112, 14, 2.0);
    let min = *eq.iter().min().unwrap();
    let max = *eq.iter().max().unwrap();
    assert!(max - min > 40, "expected spread >40, got {}-{}", min, max);
}

#[test]
fn clahe_stable_under_small_shift() {
    let make_face = |offset: usize| -> Vec<u8> {
        (0..112 * 112).map(|i| (((i + offset) * 7 + 50) % 200) as u8).collect()
    };
    let eq1 = clahe(&make_face(0), 112, 112, 14, 2.0);
    let eq2 = clahe(&make_face(1), 112, 112, 14, 2.0);
    let mad: f32 = eq1
        .iter()
        .zip(eq2.iter())
        .map(|(&a, &b)| (a as f32 - b as f32).abs())
        .sum::<f32>()
        / (112 * 112) as f32;
    assert!(mad < 20.0, "CLAHE should be stable under small shifts, MAD={mad}");
}

#[test]
fn tiles_cover_the_picture() {
    assert_eq!(tiles(112, 14), 8);
    assert_eq!(tiles(113, 14), 9);
    assert_eq!(tiles(0, 14), 0);
}

#[test]
fn last_tile_is_cut_short() {
    let data: Vec<u8> = (0..15).collect();
    let h = tile_histogram(&data, 5, 3, 2, 1, 2);
    assert_eq!(h.iter().sum::<u32>(), 1);
    assert_eq!(h[14], 1);
}

#[test]
fn redistribution_shares_the_excess() {
    let mut hist = vec![0u32; 256];
    hist[7] = 600;
    hist[9] = 3;
    let r = redistribute(&hist, 10);
    assert_eq!(r.iter().sum::<u32>(), 603);
    assert_eq!(r[7], 10 + 2 + 1);
    assert_eq!(r[9], 3 + 2 + 1);
    assert_eq!(r[77], 2 + 1);
    assert_eq!(r[78], 2);
    let curve = tile_curve(&hist, 10);
    assert_eq!(curve[0], 3);
    assert_eq!(curve[255], 603);
}

#[test]
fn curves_add_up() {
    let curve = cumulative(&vec![0, 2, 0, 5]);
    assert_eq!(curve, vec![0, 2, 2, 7]);
    assert_eq!(curve_start(&curve), 2);
    assert_eq!(curve_start(&vec![0, 0]), 0);
}

#[test]
fn neighbouring_tiles() {
    assert_eq!(neighbours(0, 14, 8), (0, 1));
    assert_eq!(neighbours(20, 14, 8), (0, 1));
    assert_eq!(neighbours(21, 14, 8), (1, 2));
    assert_eq!(neighbours(111, 14, 8), (7, 7));
    assert_eq!(neighbours(5, 14, 1), (0, 0));
}

#[test]
fn embedding_of_the_wrong_length() {
    assert!(check_embedding(512).is_ok());
    let e = check_embedding(128).unwrap_err();
    assert_eq!(e.message(), "inference error: expected 512-dim embedding, got 128");
    assert_eq!(RecognitionError::Ort("x".to_string()).message(), "ort error: x");
    assert_eq!(
        RecognitionError::ModelNotFound("m.onnx".to_string()).message(),
        "model file not found: m.onnx"
    );
}

#[test]
fn aligned_picture_has_the_right_size() {
    let aligned = AlignedFace::new(vec![128u8; 112 * 112]).unwrap();
    assert_eq!(aligned.width, 112);
    assert_eq!(aligned.height, 112);
    assert_eq!(aligned.data.len(), 112 * 112);
    assert!(AlignedFace::new(vec![128u8; 112 * 111]).is_none());
}

#[test]
fn pixels_near_the_edge() {
    let data: Vec<u8> = (1..=6).collect();
    assert_eq!(pixel_or_black(&data, 3, 2, 2, 1), 6);
    assert_eq!(pixel_or_black(&data, 3, 2, 3, 1), 0);
    assert_eq!(pixel_or_black(&data, 3, 2, -1, 0), 0);
    assert_eq!(pixel_or_black(&data, 3, 2, 0, 2), 0);
    assert_eq!(pixel_clamped(&data, 3, 2, 9, 0), 3);
    assert_eq!(pixel_clamped(&data, 3, 2, 1, 9), 5);
}
