//! Aligned pictures of faces.
use crate::raster::{lemma_index_bound, pixel};
use vstd::prelude::*;

verus! {

/// Width and height of an aligned picture.
pub const ALIGNED_SIZE: u32 = 112;

/// A picture of a face, turned and scaled so that eyes, nose and mouth are where the recognition
/// model expects them.
#[derive(Debug)]
pub struct AlignedFace {
    /// A byte for each pixel, row by row.
    pub data: Vec<u8>,
    pub width: u32,
    pub height: u32,
}

impl AlignedFace {
    /// Whether the picture has the right size, and a byte for every pixel.
    pub open spec fn wf(self) -> bool {
        &&& self.width == ALIGNED_SIZE
        &&& self.height == ALIGNED_SIZE
        &&& self.data@.len() == 112 * 112
    }

    /// The picture with these pixels, where there are as many as it needs.
    pub fn new(data: Vec<u8>) -> (r: Option<AlignedFace>)
        ensures
            match r {
                Some(f) => f.wf() && f.data == data,
                None => data@.len() != 112 * 112,
            },
    {
        if data.len() == 112 * 112 {
            Some(AlignedFace { data, width: ALIGNED_SIZE, height: ALIGNED_SIZE })
        } else {
            None
        }
    }
}

/// The pixel of a frame at a place, black where the place is outside.
pub fn pixel_or_black(data: &Vec<u8>, width: u32, height: u32, px: i32, py: i32) -> (r: u8)
    requires
        width * height <= data@.len(),
        width * height <= u32::MAX,
        width <= i32::MAX,
        height <= i32::MAX,
    ensures
        r == if 0 <= px < width && 0 <= py < height {
            pixel(data@, width as int, py as int, px as int)
        } else {
            0
        },
{
    if px < 0 || py < 0 || px >= width as i32 || py >= height as i32 {
        return 0;
    }
    proof {
        lemma_index_bound(py as int, px as int, width as int, height as int, width * height);
        assert(py * width >= 0) by (nonlinear_arith)
            requires
                py >= 0,
        ;
    }
    data[py as usize * width as usize + px as usize]
}

/// The pixel of a frame next to a place: the place is moved into the frame first.
pub fn pixel_clamped(data: &Vec<u8>, width: u32, height: u32, px: u32, py: u32) -> (r: u8)
    requires
        width * height <= data@.len(),
        width * height <= u32::MAX,
        0 < width,
        0 < height,
    ensures
        r == pixel(
            data@,
            width as int,
            crate::raster::min_of(py as int, height - 1),
            crate::raster::min_of(px as int, width - 1),
        ),
{
    let x: u32 = if px < width - 1 {
        px
    } else {
        width - 1
    };
    let y: u32 = if py < height - 1 {
        py
    } else {
        height - 1
    };
    proof {
        lemma_index_bound(y as int, x as int, width as int, height as int, width * height);
        assert(y * width >= 0) by (nonlinear_arith);
    }
    data[y as usize * width as usize + x as usize]
}

/// Inside the frame both ways of reading give its pixel. Outside, one gives black, and the other the
/// nearest pixel of the frame.
pub proof fn pixels_outside_are_black_or_nearest(
    data: Vec<u8>,
    width: u32,
    height: u32,
    px: i32,
    py: i32,
    black: u8,
    nearest: u8,
)
    requires
        0 < width <= i32::MAX,
        0 < height <= i32::MAX,
        0 <= px,
        0 <= py,
        call_ensures(pixel_or_black, (&data, width, height, px, py), black),
        call_ensures(pixel_clamped, (&data, width, height, px as u32, py as u32), nearest),
    ensures
        px < width && py < height ==> black == data@[py * width + px] && nearest == black,
        px >= width || py >= height ==> black == 0,
        px >= width && py < height ==> nearest == data@[py * width + (width - 1)],
        px < width && py >= height ==> nearest == data@[(height - 1) * width + px],
        px >= width && py >= height ==> nearest == data@[(height - 1) * width + (width - 1)],
{
}

} // verus!
