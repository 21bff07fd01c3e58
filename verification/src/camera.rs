//! The camera: its frames, and which of several devices it is.
use crate::config::CameraConfig;
use crate::raster::{
    extract, lemma_in_rectangle, lemma_index_bound, lemma_place, min_of, pixel, region_pixels, Region,
};
use crate::text::{decimal, decimal_of};
use vstd::prelude::*;

verus! {

/// A picture in shades of gray.
#[derive(Debug)]
pub struct Frame {
    /// A byte for each pixel, row by row.
    pub data: Vec<u8>,
    pub width: u32,
    pub height: u32,
    /// When it was taken, in nanoseconds.
    pub timestamp: u128,
}

impl Frame {
    /// Whether there is a byte for every pixel.
    pub open spec fn wf(self) -> bool {
        &&& self.data@.len() == self.width * self.height
        &&& self.width * self.height <= u32::MAX
    }

    /// The frame at the front of a buffer that the camera has filled.
    pub fn from_buffer(buf: &[u8], width: u32, height: u32, timestamp: u128) -> (r: Frame)
        requires
            width * height <= buf@.len(),
            width * height <= u32::MAX,
        ensures
            r.wf(),
            r.data@ == buf@.take(width * height),
            r.width == width,
            r.height == height,
            r.timestamp == timestamp,
    {
        proof {
            assert(0 <= width * height) by (nonlinear_arith);
        }
        let n: usize = (width * height) as usize;
        let mut data: Vec<u8> = Vec::new();
        let mut i: usize = 0;
        while i < n
            invariant
                i <= n <= buf@.len(),
                data@ == buf@.take(i as int),
            decreases n - i,
        {
            data.push(buf[i]);
            assert(buf@.take(i + 1) == buf@.take(i as int).push(buf@[i as int]));
            i += 1;
        }
        Frame { data, width, height, timestamp }
    }

    /// Keeps the given number of columns from the left, or all where there are no more. Some
    /// sensors show a bright stripe at the right.
    pub fn crop(&self, columns: u32) -> (r: Frame)
        requires
            self.wf(),
        ensures
            r.wf(),
            r.data@ == left_part(self.data@, self.width as int, self.height, columns),
            r.width == min_of(columns as int, self.width as int),
            r.height == self.height,
            r.timestamp == self.timestamp,
    {
        let kept: u32 = if columns < self.width {
            columns
        } else {
            self.width
        };
        let part = Region { x1: 0, y1: 0, x2: kept, y2: self.height };
        let data = extract(&self.data, self.width, self.height, &part);
        proof {
            assert(kept * self.height <= self.width * self.height) by (nonlinear_arith)
                requires
                    kept <= self.width,
            ;
        }
        Frame { data, width: kept, height: self.height, timestamp: self.timestamp }
    }
}

/// The columns of a picture that stay when all but the first `columns` are cut off.
pub open spec fn left_part(data: Seq<u8>, width: int, height: u32, columns: u32) -> Seq<u8> {
    region_pixels(
        data,
        width,
        Region { x1: 0, y1: 0, x2: min_of(columns as int, width) as u32, y2: height },
    )
}

/// What is kept of a picture is not changed: every pixel stays in its row and column.
pub proof fn kept_pixels_stay(
    data: Seq<u8>,
    width: u32,
    height: u32,
    columns: u32,
    row: int,
    col: int,
)
    requires
        data.len() == width * height,
        0 <= row < height,
        0 <= col < columns,
        col < width,
    ensures
        pixel(
            left_part(data, width as int, height, columns),
            min_of(columns as int, width as int),
            row,
            col,
        ) == pixel(data, width as int, row, col),
{
    let kept = min_of(columns as int, width as int);
    lemma_place(row, col, kept);
    lemma_index_bound(row, col, kept, height as int, kept * height);
}

/// A picture of which no column is cut off stays the same.
pub proof fn full_width_changes_nothing(data: Seq<u8>, width: u32, height: u32, columns: u32)
    requires
        data.len() == width * height,
        columns >= width,
    ensures
        left_part(data, width as int, height, columns) == data,
{
    let part = left_part(data, width as int, height, columns);
    assert(part.len() == data.len());
    assert forall|k: int| 0 <= k < data.len() implies part[k] == data[k] by {
        if width == 0 {
            assert(width * height == 0) by (nonlinear_arith)
                requires
                    width == 0,
            ;
        } else {
            lemma_in_rectangle(k, width as int, height as int);
        }
    }
    assert(part =~= data);
}

/// Whether a pixel format is one of those that infrared cameras use: `GREY`, `Y800` or `BA81`.
pub open spec fn infrared(f: Seq<u8>) -> bool {
    ||| f == seq![71u8, 82, 69, 89]
    ||| f == seq![89u8, 56, 48, 48]
    ||| f == seq![66u8, 65, 56, 49]
}

/// Whether a pixel format is one of those that infrared cameras use.
pub fn is_infrared(f: &[u8; 4]) -> (r: bool)
    ensures
        r == infrared(f@),
{
    let grey = f[0] == 71 && f[1] == 82 && f[2] == 69 && f[3] == 89;
    let y800 = f[0] == 89 && f[1] == 56 && f[2] == 48 && f[3] == 48;
    let ba81 = f[0] == 66 && f[1] == 65 && f[2] == 56 && f[3] == 49;
    proof {
        let g = seq![71u8, 82, 69, 89];
        let y = seq![89u8, 56, 48, 48];
        let b = seq![66u8, 65, 56, 49];
        if grey {
            assert(f@ =~= g);
        }
        if y800 {
            assert(f@ =~= y);
        }
        if ba81 {
            assert(f@ =~= b);
        }
        assert(f@ == g ==> f@[0] == g[0] && f@[1] == g[1] && f@[2] == g[2] && f@[3] == g[3]);
        assert(f@ == y ==> f@[0] == y[0] && f@[1] == y[1] && f@[2] == y[2] && f@[3] == y[3]);
        assert(f@ == b ==> f@[0] == b[0] && f@[1] == b[1] && f@[2] == b[2] && f@[3] == b[3]);
    }
    grey || y800 || ba81
}

/// Whether one of the formats is one of those that infrared cameras use.
pub open spec fn offers(formats: Seq<[u8; 4]>) -> bool {
    exists|k: int| 0 <= k < formats.len() && infrared((#[trigger] formats[k])@)
}

/// Whether a device is an infrared camera, by the formats that it offers. `None` stands for a
/// device that is not there or cannot be asked.
pub open spec fn is_camera(formats: Option<Vec<[u8; 4]>>) -> bool {
    formats matches Some(fs) && offers(fs@)
}

fn offers_infrared(fs: &Vec<[u8; 4]>) -> (r: bool)
    ensures
        r == offers(fs@),
{
    let mut k: usize = 0;
    while k < fs.len()
        invariant
            k <= fs@.len(),
            forall|j: int| 0 <= j < k ==> !infrared((#[trigger] fs@[j])@),
        decreases fs.len() - k,
    {
        let f = &fs[k];
        assert(*f == fs@[k as int]);
        if is_infrared(f) {
            return true;
        }
        k += 1;
    }
    false
}

/// The path of a video device.
pub open spec fn video_path(i: nat) -> Seq<char> {
    "/dev/video"@ + decimal(i)
}

/// How many video devices are looked at.
pub const VIDEO_DEVICES: usize = 8;

/// The path of a video device.
pub fn device_name(i: usize) -> (r: String)
    ensures
        r@ == video_path(i as nat),
{
    let mut p: String = "/dev/video".to_owned();
    let digits = decimal_of(i as u64);
    p.append(digits.as_str());
    p
}

/// The first device that is an infrared camera, by the formats that each of them offers.
pub fn detect_ir_camera(devices: &Vec<Option<Vec<[u8; 4]>>>) -> (r: Result<String, String>)
    ensures
        match r {
            Ok(p) => exists|i: int|
                {
                    &&& 0 <= i < devices@.len()
                    &&& is_camera(#[trigger] devices@[i])
                    &&& forall|k: int| 0 <= k < i ==> !is_camera(#[trigger] devices@[k])
                    &&& p@ == video_path(i as nat)
                },
            Err(e) => {
                &&& forall|k: int| 0 <= k < devices@.len() ==> !is_camera(#[trigger] devices@[k])
                &&& e@ == "no IR camera found"@
            },
        },
{
    let mut i: usize = 0;
    while i < devices.len()
        invariant
            i <= devices@.len(),
            forall|k: int| 0 <= k < i ==> !is_camera(#[trigger] devices@[k]),
        decreases devices.len() - i,
    {
        if let Some(fs) = &devices[i] {
            if offers_infrared(fs) {
                return Ok(device_name(i));
            }
        }
        i += 1;
    }
    Err("no IR camera found".to_owned())
}

/// The device to open: the one that the settings name, or else the one that was detected.
pub fn device_path(config: &CameraConfig, detected: Result<String, String>) -> (r: Result<
    String,
    String,
>)
    ensures
        if config.device_path@.len() == 0 {
            r == detected
        } else {
            r matches Ok(p) && p@ == config.device_path@
        },
{
    if crate::text::chars_of(config.device_path.as_str()).len() == 0 {
        detected
    } else {
        Ok(config.device_path.clone())
    }
}

/// The device to look at when the installation is checked: as for opening it, but a device that the
/// settings name must be there.
pub fn device_to_check(
    config: &CameraConfig,
    present: bool,
    detected: Result<String, String>,
) -> (r: Result<String, String>)
    ensures
        if config.device_path@.len() == 0 {
            r == detected
        } else if present {
            r matches Ok(p) && p@ == config.device_path@
        } else {
            r matches Err(e) && e@ == config.device_path@ + " does not exist"@
        },
{
    if crate::text::chars_of(config.device_path.as_str()).len() == 0 || present {
        device_path(config, detected)
    } else {
        let mut e: String = config.device_path.clone();
        e.append(" does not exist");
        Err(e)
    }
}

/// What becomes of a frame that the camera was asked for.
#[derive(Debug, Clone, Copy, PartialEq, Eq, Structural)]
pub enum Captured {
    /// There is nothing to pass on, and the next frame is asked for.
    Discard,
    /// It is passed on.
    Deliver,
    /// No frame is asked for any more.
    Finish,
}

/// The loop that takes frames. The first ones are not passed on, so that the exposure can settle.
#[derive(Debug, Clone, Copy, PartialEq, Eq, Structural)]
pub struct CaptureLoop {
    /// How many frames are still to be skipped.
    pub flush_left: u32,
    /// Whether a frame that could not be taken is no reason to stop.
    pub patient: bool,
}

impl CaptureLoop {
    /// A loop that has taken no frame yet.
    pub fn new(config: &CameraConfig, patient: bool) -> (r: CaptureLoop)
        ensures
            r == (CaptureLoop { flush_left: config.flush_frames, patient }),
    {
        CaptureLoop { flush_left: config.flush_frames, patient }
    }

    /// What becomes of a frame, by whether it could be taken.
    pub open spec fn outcome(self, taken: bool) -> Captured {
        if self.flush_left > 0 {
            Captured::Discard
        } else if taken {
            Captured::Deliver
        } else if self.patient {
            Captured::Discard
        } else {
            Captured::Finish
        }
    }

    /// How many frames are still to be skipped after a frame. An impatient loop skips no more of
    /// them once one could not be taken.
    pub open spec fn left_after(self, taken: bool) -> int {
        if self.flush_left == 0 || !taken && !self.patient {
            0
        } else {
            self.flush_left - 1
        }
    }

    /// Counts a frame, and tells what becomes of it.
    pub fn grabbed(&mut self, taken: bool) -> (r: Captured)
        ensures
            r == old(self).outcome(taken),
            final(self).flush_left == old(self).left_after(taken),
            final(self).patient == old(self).patient,
    {
        if self.flush_left > 0 {
            if !taken && !self.patient {
                self.flush_left = 0;
            } else {
                self.flush_left = self.flush_left - 1;
            }
            Captured::Discard
        } else if taken {
            Captured::Deliver
        } else if self.patient {
            Captured::Discard
        } else {
            Captured::Finish
        }
    }

    /// The loop after a number of frames that could all be taken.
    pub open spec fn after(self, frames: nat) -> CaptureLoop
        decreases frames,
    {
        if frames == 0 {
            self
        } else {
            let prior = self.after((frames - 1) as nat);
            CaptureLoop { flush_left: prior.left_after(true) as u32, ..prior }
        }
    }
}

/// Of the frames that can be taken, exactly the first ones are not passed on.
pub proof fn first_frames_are_skipped(l: CaptureLoop, frames: nat)
    ensures
        l.after(frames).flush_left == if frames < l.flush_left {
            l.flush_left - frames
        } else {
            0
        },
        l.after(frames).outcome(true) == if frames < l.flush_left {
            Captured::Discard
        } else {
            Captured::Deliver
        },
    decreases frames,
{
    if frames > 0 {
        first_frames_are_skipped(l, (frames - 1) as nat);
    }
}

/// A frame that cannot be taken never stops a patient loop, and counts like any other there. An
/// impatient loop stops at it, or, while frames are skipped, skips no more.
pub proof fn missing_frame_is_borne_or_not(l: CaptureLoop, taken: bool)
    ensures
        l.patient ==> l.outcome(taken) != Captured::Finish && l.left_after(taken) == l.left_after(true),
        !l.patient && l.flush_left == 0 ==> l.outcome(false) == Captured::Finish,
        l.patient && l.flush_left == 0 ==> l.outcome(false) == Captured::Discard,
        !l.patient && l.flush_left > 0 ==> l.outcome(false) == Captured::Discard && l.left_after(false)
            == 0,
        l.outcome(taken) == Captured::Deliver ==> taken && l.flush_left == 0,
{
}

/// The formats of an infrared camera have four letters, and a device is one exactly where it can be
/// asked and offers one of them.
pub proof fn one_format_is_enough(formats: Seq<[u8; 4]>, device: Vec<[u8; 4]>, k: int)
    requires
        0 <= k < formats.len(),
        device@ == formats,
    ensures
        infrared(formats[k]@) ==> is_camera(Some(device)),
        (forall|j: int| 0 <= j < formats.len() ==> !infrared((#[trigger] formats[j])@)) ==> !is_camera(
            Some(device),
        ),
        !is_camera(None),
{
}

/// Every video device has a path of its own.
pub proof fn device_paths_differ(a: nat, b: nat)
    ensures
        video_path(a) == video_path(b) <==> a == b,
{
    if video_path(a) == video_path(b) {
        let front = "/dev/video"@;
        assert(decimal(a) =~= (front + decimal(a)).skip(front.len() as int));
        assert(decimal(b) =~= (front + decimal(b)).skip(front.len() as int));
        crate::text::decimals_differ(a, b);
    }
}

} // verus!
