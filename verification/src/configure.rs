//! The settings as a table that can be edited.
use crate::config::Config;
use crate::scalar::Scalar;
use crate::text::{
    chars_of, decimal, decimal_of, parse_signed, parse_unsigned, signed_decimal, signed_decimal_of, signed_value,
    string_of, trim, trimmed, unsigned_value,
};
use vstd::prelude::*;

verus! {

/// A setting in the table.
#[derive(Debug, Clone, Copy, PartialEq, Eq, Structural)]
pub enum FieldId {
    SessionTimeoutS,
    IdleUnloadS,
    ExecutionProvider,
    DevicePath,
    FlushFrames,
    Threshold,
    FramesRequired,
    MaxEnrollment,
    LivenessEnabled,
    LbpEntropyMin,
    ContrastCvMin,
    ContrastCvMax,
    DistanceMin,
    DistanceMax,
    YawMaxDeg,
    PitchMaxDeg,
    RollMaxDeg,
    LogLevel,
    NotifyEnabled,
    NotifyTimeoutMs,
}

/// A value of a setting.
#[derive(Debug)]
pub enum Val {
    Str(String),
    Bool(bool),
    F32(Scalar),
    U64(u64),
    U32(u32),
    I32(i32),
}

/// A value with its text as a sequence of characters.
pub enum ValView {
    Str(Seq<char>),
    Bool(bool),
    F32(Scalar),
    U64(u64),
    U32(u32),
    I32(i32),
}

impl View for Val {
    type V = ValView;

    open spec fn view(&self) -> ValView {
        match self {
            Val::Str(s) => ValView::Str(s@),
            Val::Bool(b) => ValView::Bool(*b),
            Val::F32(x) => ValView::F32(*x),
            Val::U64(n) => ValView::U64(*n),
            Val::U32(n) => ValView::U32(*n),
            Val::I32(n) => ValView::I32(*n),
        }
    }
}

impl ValView {
    /// Whether two values are of the same kind.
    pub open spec fn same_kind(self, other: ValView) -> bool {
        match (self, other) {
            (ValView::Str(_), ValView::Str(_)) => true,
            (ValView::Bool(_), ValView::Bool(_)) => true,
            (ValView::F32(_), ValView::F32(_)) => true,
            (ValView::U64(_), ValView::U64(_)) => true,
            (ValView::U32(_), ValView::U32(_)) => true,
            (ValView::I32(_), ValView::I32(_)) => true,
            _ => false,
        }
    }

    /// The value in words. `fraction` is the text of a number with a fraction.
    pub open spec fn shown(self, fraction: Seq<char>) -> Seq<char> {
        match self {
            ValView::Str(s) => s,
            ValView::Bool(b) => if b {
                "true"@
            } else {
                "false"@
            },
            ValView::F32(_) => fraction,
            ValView::U64(n) => decimal(n as nat),
            ValView::U32(n) => decimal(n as nat),
            ValView::I32(n) => signed_decimal(n as int),
        }
    }
}

impl Val {
    /// A copy of the value.
    pub fn copy(&self) -> (r: Val)
        ensures
            r@ == self@,
    {
        match self {
            Val::Str(s) => Val::Str(s.clone()),
            Val::Bool(b) => Val::Bool(*b),
            Val::F32(x) => Val::F32(*x),
            Val::U64(n) => Val::U64(*n),
            Val::U32(n) => Val::U32(*n),
            Val::I32(n) => Val::I32(*n),
        }
    }

    /// The value in words. `fraction` is the text of a number with a fraction, to three digits.
    pub fn display(&self, fraction: &str) -> (r: String)
        ensures
            r@ == self@.shown(fraction@),
    {
        match self {
            Val::Str(s) => s.clone(),
            Val::Bool(b) => if *b {
                "true".to_owned()
            } else {
                "false".to_owned()
            },
            Val::F32(_) => fraction.to_owned(),
            Val::U64(n) => decimal_of(*n),
            Val::U32(n) => decimal_of(*n as u64),
            Val::I32(n) => signed_decimal_of(*n),
        }
    }

    /// Whether the value is a switch.
    pub fn is_bool(&self) -> (r: bool)
        ensures
            r == (self@ is Bool),
    {
        match self {
            Val::Bool(_) => true,
            _ => false,
        }
    }
}

/// A row of the table: a setting, its value and its default.
#[derive(Debug)]
pub struct Field {
    pub id: FieldId,
    pub val: Val,
    pub def: Val,
}

impl Field {
    /// Whether the value, as it is shown, is not the default. The texts are those of the two
    /// values where they are numbers with a fraction.
    pub fn modified(&self, val_fraction: &str, def_fraction: &str) -> (r: bool)
        ensures
            r == (self.val@.shown(val_fraction@) != self.def@.shown(def_fraction@)),
    {
        let v = self.val.display(val_fraction);
        let d = self.def.display(def_fraction);
        !crate::text::same(v.as_str(), d.as_str())
    }
}

/// The section of the settings file.
pub open spec fn section_text(id: FieldId) -> Seq<char> {
    match id {
        FieldId::SessionTimeoutS => "daemon"@,
        FieldId::IdleUnloadS => "daemon"@,
        FieldId::ExecutionProvider => "daemon"@,
        FieldId::DevicePath => "camera"@,
        FieldId::FlushFrames => "camera"@,
        FieldId::Threshold => "recognition"@,
        FieldId::FramesRequired => "recognition"@,
        FieldId::MaxEnrollment => "recognition"@,
        FieldId::LivenessEnabled => "liveness"@,
        FieldId::LbpEntropyMin => "liveness"@,
        FieldId::ContrastCvMin => "liveness"@,
        FieldId::ContrastCvMax => "liveness"@,
        FieldId::DistanceMin => "geometry"@,
        FieldId::DistanceMax => "geometry"@,
        FieldId::YawMaxDeg => "geometry"@,
        FieldId::PitchMaxDeg => "geometry"@,
        FieldId::RollMaxDeg => "geometry"@,
        FieldId::LogLevel => "logging"@,
        FieldId::NotifyEnabled => "notify"@,
        FieldId::NotifyTimeoutMs => "notify"@,
    }
}

/// The name of the setting.
pub open spec fn key_text(id: FieldId) -> Seq<char> {
    match id {
        FieldId::SessionTimeoutS => "session_timeout_s"@,
        FieldId::IdleUnloadS => "idle_unload_s"@,
        FieldId::ExecutionProvider => "execution_provider"@,
        FieldId::DevicePath => "device_path"@,
        FieldId::FlushFrames => "flush_frames"@,
        FieldId::Threshold => "threshold"@,
        FieldId::FramesRequired => "frames_required"@,
        FieldId::MaxEnrollment => "max_enrollment"@,
        FieldId::LivenessEnabled => "enabled"@,
        FieldId::LbpEntropyMin => "lbp_entropy_min"@,
        FieldId::ContrastCvMin => "contrast_cv_min"@,
        FieldId::ContrastCvMax => "contrast_cv_max"@,
        FieldId::DistanceMin => "distance_min"@,
        FieldId::DistanceMax => "distance_max"@,
        FieldId::YawMaxDeg => "yaw_max_deg"@,
        FieldId::PitchMaxDeg => "pitch_max_deg"@,
        FieldId::RollMaxDeg => "roll_max_deg"@,
        FieldId::LogLevel => "level"@,
        FieldId::NotifyEnabled => "enabled"@,
        FieldId::NotifyTimeoutMs => "timeout_ms"@,
    }
}

/// What the setting is for.
pub open spec fn desc_text(id: FieldId) -> Seq<char> {
    match id {
        FieldId::SessionTimeoutS => "Max seconds per auth attempt"@,
        FieldId::IdleUnloadS => "Unload models after N idle seconds (0 = keep loaded)"@,
        FieldId::ExecutionProvider => "Inference backend: cpu / rocm / cuda / xdna"@,
        FieldId::DevicePath => "Camera device path (empty = auto-detect IR camera)"@,
        FieldId::FlushFrames => "Frames to discard on open (0 = none)"@,
        FieldId::Threshold => "Cosine similarity threshold 0.0–1.0 (default 0.70)"@,
        FieldId::FramesRequired => "Consecutive matching frames needed to accept"@,
        FieldId::MaxEnrollment => "Maximum face samples stored per user"@,
        FieldId::LivenessEnabled => "Enable IR texture liveness detection (anti-spoof)"@,
        FieldId::LbpEntropyMin => "Min LBP entropy — real skin ~6.0, flat screens <5.0"@,
        FieldId::ContrastCvMin => "Min local contrast CV — real face ~0.28"@,
        FieldId::ContrastCvMax => "Max local contrast CV — screens/photos often >0.80"@,
        FieldId::DistanceMin => "Min face-width ratio — reports TooFar if below"@,
        FieldId::DistanceMax => "Max face-width ratio — reports TooClose if above"@,
        FieldId::YawMaxDeg => "Max horizontal turn allowed for auth (degrees)"@,
        FieldId::PitchMaxDeg => "Max vertical tilt allowed for auth (degrees)"@,
        FieldId::RollMaxDeg => "Max head roll allowed for auth (degrees)"@,
        FieldId::LogLevel => "Log level: error / warn / info / debug / trace"@,
        FieldId::NotifyEnabled => "Send desktop notification on successful auth"@,
        FieldId::NotifyTimeoutMs => "Notification display duration in milliseconds"@,
    }
}

impl FieldId {
    /// The section of the settings file.
    pub fn section(self) -> (r: &'static str)
        ensures
            r@ == section_text(self),
    {
        match self {
            FieldId::SessionTimeoutS => "daemon",
            FieldId::IdleUnloadS => "daemon",
            FieldId::ExecutionProvider => "daemon",
            FieldId::DevicePath => "camera",
            FieldId::FlushFrames => "camera",
            FieldId::Threshold => "recognition",
            FieldId::FramesRequired => "recognition",
            FieldId::MaxEnrollment => "recognition",
            FieldId::LivenessEnabled => "liveness",
            FieldId::LbpEntropyMin => "liveness",
            FieldId::ContrastCvMin => "liveness",
            FieldId::ContrastCvMax => "liveness",
            FieldId::DistanceMin => "geometry",
            FieldId::DistanceMax => "geometry",
            FieldId::YawMaxDeg => "geometry",
            FieldId::PitchMaxDeg => "geometry",
            FieldId::RollMaxDeg => "geometry",
            FieldId::LogLevel => "logging",
            FieldId::NotifyEnabled => "notify",
            FieldId::NotifyTimeoutMs => "notify",
        }
    }

    /// The name of the setting.
    pub fn key(self) -> (r: &'static str)
        ensures
            r@ == key_text(self),
    {
        match self {
            FieldId::SessionTimeoutS => "session_timeout_s",
            FieldId::IdleUnloadS => "idle_unload_s",
            FieldId::ExecutionProvider => "execution_provider",
            FieldId::DevicePath => "device_path",
            FieldId::FlushFrames => "flush_frames",
            FieldId::Threshold => "threshold",
            FieldId::FramesRequired => "frames_required",
            FieldId::MaxEnrollment => "max_enrollment",
            FieldId::LivenessEnabled => "enabled",
            FieldId::LbpEntropyMin => "lbp_entropy_min",
            FieldId::ContrastCvMin => "contrast_cv_min",
            FieldId::ContrastCvMax => "contrast_cv_max",
            FieldId::DistanceMin => "distance_min",
            FieldId::DistanceMax => "distance_max",
            FieldId::YawMaxDeg => "yaw_max_deg",
            FieldId::PitchMaxDeg => "pitch_max_deg",
            FieldId::RollMaxDeg => "roll_max_deg",
            FieldId::LogLevel => "level",
            FieldId::NotifyEnabled => "enabled",
            FieldId::NotifyTimeoutMs => "timeout_ms",
        }
    }

    /// What the setting is for.
    pub fn desc(self) -> (r: &'static str)
        ensures
            r@ == desc_text(self),
    {
        match self {
            FieldId::SessionTimeoutS => "Max seconds per auth attempt",
            FieldId::IdleUnloadS => "Unload models after N idle seconds (0 = keep loaded)",
            FieldId::ExecutionProvider => "Inference backend: cpu / rocm / cuda / xdna",
            FieldId::DevicePath => "Camera device path (empty = auto-detect IR camera)",
            FieldId::FlushFrames => "Frames to discard on open (0 = none)",
            FieldId::Threshold => "Cosine similarity threshold 0.0–1.0 (default 0.70)",
            FieldId::FramesRequired => "Consecutive matching frames needed to accept",
            FieldId::MaxEnrollment => "Maximum face samples stored per user",
            FieldId::LivenessEnabled => "Enable IR texture liveness detection (anti-spoof)",
            FieldId::LbpEntropyMin => "Min LBP entropy — real skin ~6.0, flat screens <5.0",
            FieldId::ContrastCvMin => "Min local contrast CV — real face ~0.28",
            FieldId::ContrastCvMax => "Max local contrast CV — screens/photos often >0.80",
            FieldId::DistanceMin => "Min face-width ratio — reports TooFar if below",
            FieldId::DistanceMax => "Max face-width ratio — reports TooClose if above",
            FieldId::YawMaxDeg => "Max horizontal turn allowed for auth (degrees)",
            FieldId::PitchMaxDeg => "Max vertical tilt allowed for auth (degrees)",
            FieldId::RollMaxDeg => "Max head roll allowed for auth (degrees)",
            FieldId::LogLevel => "Log level: error / warn / info / debug / trace",
            FieldId::NotifyEnabled => "Send desktop notification on successful auth",
            FieldId::NotifyTimeoutMs => "Notification display duration in milliseconds",
        }
    }

}

/// All settings of the table, from top to bottom.
pub open spec fn all_fields() -> Seq<FieldId> {
    seq![
        FieldId::SessionTimeoutS,
        FieldId::IdleUnloadS,
        FieldId::ExecutionProvider,
        FieldId::DevicePath,
        FieldId::FlushFrames,
        FieldId::Threshold,
        FieldId::FramesRequired,
        FieldId::MaxEnrollment,
        FieldId::LivenessEnabled,
        FieldId::LbpEntropyMin,
        FieldId::ContrastCvMin,
        FieldId::ContrastCvMax,
        FieldId::DistanceMin,
        FieldId::DistanceMax,
        FieldId::YawMaxDeg,
        FieldId::PitchMaxDeg,
        FieldId::RollMaxDeg,
        FieldId::LogLevel,
        FieldId::NotifyEnabled,
        FieldId::NotifyTimeoutMs,
    ]
}

/// The value of a setting.
pub open spec fn setting(c: Config, id: FieldId) -> ValView {
    match id {
        FieldId::SessionTimeoutS => ValView::U64(c.daemon.session_timeout_s),
        FieldId::IdleUnloadS => ValView::U64(c.daemon.idle_unload_s),
        FieldId::ExecutionProvider => ValView::Str(c.daemon.execution_provider@),
        FieldId::DevicePath => ValView::Str(c.camera.device_path@),
        FieldId::FlushFrames => ValView::U32(c.camera.flush_frames),
        FieldId::Threshold => ValView::F32(c.recognition.threshold),
        FieldId::FramesRequired => ValView::U32(c.recognition.frames_required),
        FieldId::MaxEnrollment => ValView::U32(c.recognition.max_enrollment),
        FieldId::LivenessEnabled => ValView::Bool(c.liveness.enabled),
        FieldId::LbpEntropyMin => ValView::F32(c.liveness.lbp_entropy_min),
        FieldId::ContrastCvMin => ValView::F32(c.liveness.local_contrast_cv_min),
        FieldId::ContrastCvMax => ValView::F32(c.liveness.local_contrast_cv_max),
        FieldId::DistanceMin => ValView::F32(c.geometry.distance_min),
        FieldId::DistanceMax => ValView::F32(c.geometry.distance_max),
        FieldId::YawMaxDeg => ValView::F32(c.geometry.yaw_max_deg),
        FieldId::PitchMaxDeg => ValView::F32(c.geometry.pitch_max_deg),
        FieldId::RollMaxDeg => ValView::F32(c.geometry.roll_max_deg),
        FieldId::LogLevel => ValView::Str(c.logging.level@),
        FieldId::NotifyEnabled => ValView::Bool(c.notify.enabled),
        FieldId::NotifyTimeoutMs => ValView::I32(c.notify.timeout_ms),
    }
}

/// Whether the settings that the table does not show are the same.
pub open spec fn same_hidden(a: Config, b: Config) -> bool {
    &&& a.platform.same(b.platform)
    &&& a.daemon.socket_path@ == b.daemon.socket_path@
    &&& a.daemon.ui_socket_path@ == b.daemon.ui_socket_path@
    &&& a.daemon.max_concurrent == b.daemon.max_concurrent
    &&& a.camera.crop_right_fraction == b.camera.crop_right_fraction
    &&& a.recognition.model@ == b.recognition.model@
    &&& a.liveness.model_enabled == b.liveness.model_enabled
    &&& a.liveness.model@ == b.liveness.model@
    &&& a.liveness.model_threshold == b.liveness.model_threshold
    &&& a.geometry.guidance_debounce_ms == b.geometry.guidance_debounce_ms
}

fn row(id: FieldId, val: Val, def: Val) -> (r: Field)
    ensures
        r.id == id,
        r.val == val,
        r.def == def,
{
    Field { id, val, def }
}

/// Whether a row shows a setting of `c`.
pub open spec fn shows(f: Field, c: Config, id: FieldId) -> bool {
    &&& f.id == id
    &&& f.val@ == setting(c, id)
    &&& forall|d: Config| #[trigger] d.is_default() ==> f.def@ == setting(d, id)
}

/// The table of the settings.
pub fn to_fields(c: &Config) -> (r: Vec<Field>)
    ensures
        r@.len() == 20,
        forall|i: int| 0 <= i < 20 ==> shows(#[trigger] r@[i], *c, all_fields()[i]),
{
    let d = Config::default();
    let mut r: Vec<Field> = Vec::new();
    r.push(row(FieldId::SessionTimeoutS, Val::U64(c.daemon.session_timeout_s), Val::U64(d.daemon.session_timeout_s)));
    r.push(row(FieldId::IdleUnloadS, Val::U64(c.daemon.idle_unload_s), Val::U64(d.daemon.idle_unload_s)));
    r.push(row(FieldId::ExecutionProvider, Val::Str(c.daemon.execution_provider.clone()), Val::Str(d.daemon.execution_provider.clone())));
    r.push(row(FieldId::DevicePath, Val::Str(c.camera.device_path.clone()), Val::Str(d.camera.device_path.clone())));
    r.push(row(FieldId::FlushFrames, Val::U32(c.camera.flush_frames), Val::U32(d.camera.flush_frames)));
    r.push(row(FieldId::Threshold, Val::F32(c.recognition.threshold), Val::F32(d.recognition.threshold)));
    r.push(row(FieldId::FramesRequired, Val::U32(c.recognition.frames_required), Val::U32(d.recognition.frames_required)));
    r.push(row(FieldId::MaxEnrollment, Val::U32(c.recognition.max_enrollment), Val::U32(d.recognition.max_enrollment)));
    r.push(row(FieldId::LivenessEnabled, Val::Bool(c.liveness.enabled), Val::Bool(d.liveness.enabled)));
    r.push(row(FieldId::LbpEntropyMin, Val::F32(c.liveness.lbp_entropy_min), Val::F32(d.liveness.lbp_entropy_min)));
    r.push(row(FieldId::ContrastCvMin, Val::F32(c.liveness.local_contrast_cv_min), Val::F32(d.liveness.local_contrast_cv_min)));
    r.push(row(FieldId::ContrastCvMax, Val::F32(c.liveness.local_contrast_cv_max), Val::F32(d.liveness.local_contrast_cv_max)));
    r.push(row(FieldId::DistanceMin, Val::F32(c.geometry.distance_min), Val::F32(d.geometry.distance_min)));
    r.push(row(FieldId::DistanceMax, Val::F32(c.geometry.distance_max), Val::F32(d.geometry.distance_max)));
    r.push(row(FieldId::YawMaxDeg, Val::F32(c.geometry.yaw_max_deg), Val::F32(d.geometry.yaw_max_deg)));
    r.push(row(FieldId::PitchMaxDeg, Val::F32(c.geometry.pitch_max_deg), Val::F32(d.geometry.pitch_max_deg)));
    r.push(row(FieldId::RollMaxDeg, Val::F32(c.geometry.roll_max_deg), Val::F32(d.geometry.roll_max_deg)));
    r.push(row(FieldId::LogLevel, Val::Str(c.logging.level.clone()), Val::Str(d.logging.level.clone())));
    r.push(row(FieldId::NotifyEnabled, Val::Bool(c.notify.enabled), Val::Bool(d.notify.enabled)));
    r.push(row(FieldId::NotifyTimeoutMs, Val::I32(c.notify.timeout_ms), Val::I32(d.notify.timeout_ms)));
    r
}

/// Sets a setting, unless the value is of another kind.
fn apply(c: &mut Config, id: FieldId, val: &Val)
    ensures
        same_hidden(*final(c), *old(c)),
        forall|j: FieldId| #[trigger]
            setting(*final(c), j) == if j == id && val@.same_kind(setting(*old(c), j)) {
                val@
            } else {
                setting(*old(c), j)
            },
{
    match (id, val) {
        (FieldId::SessionTimeoutS, Val::U64(v)) => {
            c.daemon.session_timeout_s = *v;
        },
        (FieldId::IdleUnloadS, Val::U64(v)) => {
            c.daemon.idle_unload_s = *v;
        },
        (FieldId::ExecutionProvider, Val::Str(v)) => {
            c.daemon.execution_provider = v.clone();
        },
        (FieldId::DevicePath, Val::Str(v)) => {
            c.camera.device_path = v.clone();
        },
        (FieldId::FlushFrames, Val::U32(v)) => {
            c.camera.flush_frames = *v;
        },
        (FieldId::Threshold, Val::F32(v)) => {
            c.recognition.threshold = *v;
        },
        (FieldId::FramesRequired, Val::U32(v)) => {
            c.recognition.frames_required = *v;
        },
        (FieldId::MaxEnrollment, Val::U32(v)) => {
            c.recognition.max_enrollment = *v;
        },
        (FieldId::LivenessEnabled, Val::Bool(v)) => {
            c.liveness.enabled = *v;
        },
        (FieldId::LbpEntropyMin, Val::F32(v)) => {
            c.liveness.lbp_entropy_min = *v;
        },
        (FieldId::ContrastCvMin, Val::F32(v)) => {
            c.liveness.local_contrast_cv_min = *v;
        },
        (FieldId::ContrastCvMax, Val::F32(v)) => {
            c.liveness.local_contrast_cv_max = *v;
        },
        (FieldId::DistanceMin, Val::F32(v)) => {
            c.geometry.distance_min = *v;
        },
        (FieldId::DistanceMax, Val::F32(v)) => {
            c.geometry.distance_max = *v;
        },
        (FieldId::YawMaxDeg, Val::F32(v)) => {
            c.geometry.yaw_max_deg = *v;
        },
        (FieldId::PitchMaxDeg, Val::F32(v)) => {
            c.geometry.pitch_max_deg = *v;
        },
        (FieldId::RollMaxDeg, Val::F32(v)) => {
            c.geometry.roll_max_deg = *v;
        },
        (FieldId::LogLevel, Val::Str(v)) => {
            c.logging.level = v.clone();
        },
        (FieldId::NotifyEnabled, Val::Bool(v)) => {
            c.notify.enabled = *v;
        },
        (FieldId::NotifyTimeoutMs, Val::I32(v)) => {
            c.notify.timeout_ms = *v;
        },
        _ => {},
    }
}

/// The value of a setting after the rows were taken over, one after the other: that of the last
/// row of the setting, where it has the right kind.
pub open spec fn taken_over(rows: Seq<Field>, id: FieldId, before: ValView) -> ValView
    decreases rows.len(),
{
    if rows.len() == 0 {
        before
    } else if rows.last().id == id && rows.last().val@.same_kind(before) {
        rows.last().val@
    } else {
        taken_over(rows.drop_last(), id, before)
    }
}

/// The settings that the table says. What it does not show stays as in `base`.
pub fn to_config(base: &Config, fields: &Vec<Field>) -> (r: Config)
    ensures
        same_hidden(r, *base),
        forall|id: FieldId| #[trigger]
            setting(r, id) == taken_over(fields@, id, setting(*base, id)),
{
    let mut c = base.clone();
    let mut i: usize = 0;
    assert(fields@.take(0) == Seq::<Field>::empty());
    while i < fields.len()
        invariant
            i <= fields@.len(),
            same_hidden(c, *base),
            forall|id: FieldId| #[trigger]
                setting(c, id) == taken_over(fields@.take(i as int), id, setting(*base, id)),
        decreases fields.len() - i,
    {
        proof {
            let now = fields@.take(i + 1);
            assert(now.drop_last() == fields@.take(i as int));
            assert(now.last() == fields@[i as int]);
            assert forall|id: FieldId| #[trigger]
                taken_over(fields@.take(i as int), id, setting(*base, id)).same_kind(
                    setting(*base, id),
                ) by {
                lemma_kind_stays(fields@.take(i as int), id, setting(*base, id));
            }
        }
        let f = &fields[i];
        apply(&mut c, f.id, &f.val);
        i += 1;
    }
    assert(fields@.take(fields@.len() as int) == fields@);
    c
}

proof fn lemma_kind_stays(rows: Seq<Field>, id: FieldId, before: ValView)
    ensures
        taken_over(rows, id, before).same_kind(before),
    decreases rows.len(),
{
    if rows.len() > 0 {
        lemma_kind_stays(rows.drop_last(), id, before);
    }
}

/// Every setting of the table stands in it once.
proof fn lemma_all_fields(id: FieldId) -> (i: int)
    ensures
        0 <= i < 20,
        all_fields()[i] == id,
        forall|k: int| 0 <= k < 20 && k != i ==> all_fields()[k] != id,
{
    match id {
        FieldId::SessionTimeoutS => 0,
        FieldId::IdleUnloadS => 1,
        FieldId::ExecutionProvider => 2,
        FieldId::DevicePath => 3,
        FieldId::FlushFrames => 4,
        FieldId::Threshold => 5,
        FieldId::FramesRequired => 6,
        FieldId::MaxEnrollment => 7,
        FieldId::LivenessEnabled => 8,
        FieldId::LbpEntropyMin => 9,
        FieldId::ContrastCvMin => 10,
        FieldId::ContrastCvMax => 11,
        FieldId::DistanceMin => 12,
        FieldId::DistanceMax => 13,
        FieldId::YawMaxDeg => 14,
        FieldId::PitchMaxDeg => 15,
        FieldId::RollMaxDeg => 16,
        FieldId::LogLevel => 17,
        FieldId::NotifyEnabled => 18,
        FieldId::NotifyTimeoutMs => 19,
    }
}

proof fn lemma_one_row(rows: Seq<Field>, i: int, before: ValView)
    requires
        0 <= i < rows.len(),
        rows[i].val@.same_kind(before),
        forall|k: int| 0 <= k < rows.len() && k != i ==> (#[trigger] rows[k]).id != rows[i].id,
    ensures
        taken_over(rows, rows[i].id, before) == rows[i].val@,
    decreases rows.len(),
{
    if i < rows.len() - 1 {
        let prior = rows.drop_last();
        assert forall|k: int| 0 <= k < prior.len() && k != i implies (#[trigger] prior[k]).id
            != prior[i].id by {
            assert(prior[k] == rows[k]);
        }
        assert(rows[rows.len() - 1].id != rows[i].id);
        lemma_one_row(prior, i, before);
    }
}

/// The value that the table of `rows` gives a setting of which it has the right number of rows.
proof fn lemma_table_value(rows: Seq<Field>, base: Config, id: FieldId) -> (i: int)
    requires
        rows.len() == 20,
        forall|k: int| 0 <= k < 20 ==> (#[trigger] rows[k]).id == all_fields()[k],
        forall|k: int|
            0 <= k < 20 ==> (#[trigger] rows[k]).val@.same_kind(setting(base, all_fields()[k])),
    ensures
        0 <= i < 20,
        all_fields()[i] == id,
        taken_over(rows, id, setting(base, id)) == rows[i].val@,
{
    let i = lemma_all_fields(id);
    assert forall|k: int| 0 <= k < 20 && k != i implies (#[trigger] rows[k]).id != rows[i].id by {
        assert(rows[k].id == all_fields()[k]);
        assert(rows[i].id == all_fields()[i]);
    }
    assert(rows[i].id == id);
    assert(rows[i].val@.same_kind(setting(base, all_fields()[i])));
    lemma_one_row(rows, i, setting(base, id));
    i
}

/// Taking the table over without having changed it changes nothing.
pub proof fn unchanged_table_changes_nothing(c: Config, rows: Seq<Field>, r: Config)
    requires
        rows.len() == 20,
        forall|i: int| 0 <= i < 20 ==> shows(#[trigger] rows[i], c, all_fields()[i]),
        same_hidden(r, c),
        forall|id: FieldId| #[trigger] setting(r, id) == taken_over(rows, id, setting(c, id)),
    ensures
        r.same(c),
{
    assert forall|id: FieldId| #[trigger] setting(r, id) == setting(c, id) by {
        let i = lemma_table_value(rows, c, id);
        assert(shows(rows[i], c, all_fields()[i]));
    }
    assert(setting(r, FieldId::SessionTimeoutS) == setting(c, FieldId::SessionTimeoutS));
    assert(setting(r, FieldId::IdleUnloadS) == setting(c, FieldId::IdleUnloadS));
    assert(setting(r, FieldId::ExecutionProvider) == setting(c, FieldId::ExecutionProvider));
    assert(setting(r, FieldId::DevicePath) == setting(c, FieldId::DevicePath));
    assert(setting(r, FieldId::FlushFrames) == setting(c, FieldId::FlushFrames));
    assert(setting(r, FieldId::Threshold) == setting(c, FieldId::Threshold));
    assert(setting(r, FieldId::FramesRequired) == setting(c, FieldId::FramesRequired));
    assert(setting(r, FieldId::MaxEnrollment) == setting(c, FieldId::MaxEnrollment));
    assert(setting(r, FieldId::LivenessEnabled) == setting(c, FieldId::LivenessEnabled));
    assert(setting(r, FieldId::LbpEntropyMin) == setting(c, FieldId::LbpEntropyMin));
    assert(setting(r, FieldId::ContrastCvMin) == setting(c, FieldId::ContrastCvMin));
    assert(setting(r, FieldId::ContrastCvMax) == setting(c, FieldId::ContrastCvMax));
    assert(setting(r, FieldId::DistanceMin) == setting(c, FieldId::DistanceMin));
    assert(setting(r, FieldId::DistanceMax) == setting(c, FieldId::DistanceMax));
    assert(setting(r, FieldId::YawMaxDeg) == setting(c, FieldId::YawMaxDeg));
    assert(setting(r, FieldId::PitchMaxDeg) == setting(c, FieldId::PitchMaxDeg));
    assert(setting(r, FieldId::RollMaxDeg) == setting(c, FieldId::RollMaxDeg));
    assert(setting(r, FieldId::LogLevel) == setting(c, FieldId::LogLevel));
    assert(setting(r, FieldId::NotifyEnabled) == setting(c, FieldId::NotifyEnabled));
    assert(setting(r, FieldId::NotifyTimeoutMs) == setting(c, FieldId::NotifyTimeoutMs));
}

/// Changing one row of the table changes one setting, to the value in the row.
pub proof fn one_row_changes_one_setting(
    c: Config,
    rows: Seq<Field>,
    at: int,
    new: Field,
    r: Config,
    id: FieldId,
)
    requires
        rows.len() == 20,
        forall|i: int| 0 <= i < 20 ==> shows(#[trigger] rows[i], c, all_fields()[i]),
        0 <= at < 20,
        new.id == rows[at].id,
        new.val@.same_kind(rows[at].val@),
        forall|j: FieldId| #[trigger]
            setting(r, j) == taken_over(rows.update(at, new), j, setting(c, j)),
    ensures
        id == new.id ==> setting(r, id) == new.val@,
        id != new.id ==> setting(r, id) == setting(c, id),
{
    let changed = rows.update(at, new);
    assert forall|k: int| 0 <= k < 20 implies (#[trigger] changed[k]).id == all_fields()[k] by {
        assert(shows(rows[k], c, all_fields()[k]));
    }
    assert forall|k: int| 0 <= k < 20 implies (#[trigger] changed[k]).val@.same_kind(
        setting(c, all_fields()[k]),
    ) by {
        assert(shows(rows[k], c, all_fields()[k]));
    }
    assert(shows(rows[at], c, all_fields()[at]));
    let i = lemma_table_value(changed, c, id);
    assert(shows(rows[i], c, all_fields()[i]));
    let p = lemma_all_fields(id);
    if id == new.id {
        assert(all_fields()[at] == id);
        assert(i == at);
    }
}

// Reading what was typed.

/// What a switch can be set by.
pub open spec fn switch_value(s: Seq<char>) -> Option<bool> {
    if s == "true"@ || s == "yes"@ || s == "1"@ || s == "on"@ {
        Some(true)
    } else if s == "false"@ || s == "no"@ || s == "0"@ || s == "off"@ {
        Some(false)
    } else {
        None
    }
}

/// The value that a text stands for, of the kind of `template`, or what is wrong with it.
/// `fraction` is the number with a fraction that the text writes, where it does.
pub open spec fn read_value(template: ValView, s: Seq<char>, fraction: Option<Scalar>) -> Result<
    ValView,
    Seq<char>,
> {
    match template {
        ValView::Str(_) => Ok(ValView::Str(s)),
        ValView::Bool(_) => match switch_value(s) {
            Some(b) => Ok(ValView::Bool(b)),
            None => Err("enter true or false"@),
        },
        ValView::F32(_) => match fraction {
            Some(x) => Ok(ValView::F32(x)),
            None => Err("expected decimal number (e.g. 0.70)"@),
        },
        ValView::U64(_) => match unsigned_value(s, 10, u64::MAX as nat) {
            Some(v) => Ok(ValView::U64(v as u64)),
            None => Err("expected non-negative integer"@),
        },
        ValView::U32(_) => match unsigned_value(s, 10, u32::MAX as nat) {
            Some(v) => Ok(ValView::U32(v as u32)),
            None => Err("expected non-negative integer"@),
        },
        ValView::I32(_) => match signed_value(s) {
            Some(v) => Ok(ValView::I32(v as i32)),
            None => Err("expected integer"@),
        },
    }
}

fn is_one_of(s: &str, a: &str, b: &str, c: &str, d: &str) -> (r: bool)
    ensures
        r == (s@ == a@ || s@ == b@ || s@ == c@ || s@ == d@),
{
    crate::text::same(s, a) || crate::text::same(s, b) || crate::text::same(s, c)
        || crate::text::same(s, d)
}

/// Reads a value of the kind of `template`.
pub fn parse_val(template: &Val, s: &str, fraction: Option<Scalar>) -> (r: Result<Val, String>)
    ensures
        match (r, read_value(template@, s@, fraction)) {
            (Ok(v), Ok(w)) => v@ == w,
            (Err(e), Err(t)) => e@ == t,
            _ => false,
        },
{
    match template {
        Val::Str(_) => Ok(Val::Str(s.to_owned())),
        Val::Bool(_) => if is_one_of(s, "true", "yes", "1", "on") {
            Ok(Val::Bool(true))
        } else if is_one_of(s, "false", "no", "0", "off") {
            Ok(Val::Bool(false))
        } else {
            Err("enter true or false".to_owned())
        },
        Val::F32(_) => match fraction {
            Some(x) => Ok(Val::F32(x)),
            None => Err("expected decimal number (e.g. 0.70)".to_owned()),
        },
        Val::U64(_) => match parse_unsigned(&chars_of(s), 10, u64::MAX) {
            Some(v) => Ok(Val::U64(v)),
            None => Err("expected non-negative integer".to_owned()),
        },
        Val::U32(_) => match parse_unsigned(&chars_of(s), 10, u32::MAX as u64) {
            Some(v) => Ok(Val::U32(v as u32)),
            None => Err("expected non-negative integer".to_owned()),
        },
        Val::I32(_) => match parse_signed(&chars_of(s)) {
            Some(v) => Ok(Val::I32(v)),
            None => Err("expected integer".to_owned()),
        },
    }
}

/// What is wrong with a value for a setting, where something is: a threshold lies between zero and
/// one, counts are at least one, and some texts are to be chosen from a list.
pub open spec fn objection(id: FieldId, v: ValView) -> Option<Seq<char>> {
    match (id, v) {
        (FieldId::Threshold, ValView::F32(x)) => if (Scalar { bits: 0 }).below(x) && x.below(
            Scalar { bits: 0x3f80_0000 },
        ) {
            None
        } else {
            Some("must be between 0.0 and 1.0"@)
        },
        (FieldId::FramesRequired, ValView::U32(0)) => Some("must be at least 1"@),
        (FieldId::SessionTimeoutS, ValView::U64(0)) => Some("must be at least 1"@),
        (FieldId::LogLevel, ValView::Str(s)) => if s == "error"@ || s == "warn"@ || s == "info"@ || s
            == "debug"@ || s == "trace"@ {
            None
        } else {
            Some("must be: error, warn, info, debug, trace"@)
        },
        (FieldId::ExecutionProvider, ValView::Str(s)) => if s == "cpu"@ || s == "rocm"@ || s
            == "cuda"@ || s == "xdna"@ {
            None
        } else {
            Some("must be: cpu, rocm, cuda, xdna"@)
        },
        _ => None,
    }
}

/// What is wrong with a value for a setting, where something is.
pub fn validate(id: FieldId, val: &Val) -> (r: Option<String>)
    ensures
        match (r, objection(id, val@)) {
            (Some(e), Some(t)) => e@ == t,
            (None, None) => true,
            _ => false,
        },
{
    match (id, val) {
        (FieldId::Threshold, Val::F32(x)) => {
            if x.gt(Scalar { bits: 0 }) && x.lt(Scalar { bits: 0x3f80_0000 }) {
                None
            } else {
                Some("must be between 0.0 and 1.0".to_owned())
            }
        },
        (FieldId::FramesRequired, Val::U32(0)) => Some("must be at least 1".to_owned()),
        (FieldId::SessionTimeoutS, Val::U64(0)) => Some("must be at least 1".to_owned()),
        (FieldId::LogLevel, Val::Str(s)) => {
            if is_one_of(s.as_str(), "error", "warn", "info", "debug") || crate::text::same(
                s.as_str(),
                "trace",
            ) {
                None
            } else {
                Some("must be: error, warn, info, debug, trace".to_owned())
            }
        },
        (FieldId::ExecutionProvider, Val::Str(s)) => {
            if is_one_of(s.as_str(), "cpu", "rocm", "cuda", "xdna") {
                None
            } else {
                Some("must be: cpu, rocm, cuda, xdna".to_owned())
            }
        },
        _ => None,
    }
}

// The editor.

/// A key that was pressed.
#[derive(Debug, Clone, Copy, PartialEq, Eq, Structural)]
pub enum Key {
    Esc,
    Enter,
    Backspace,
    Up,
    Down,
    Char(char),
    Other,
}

/// What the keyboard handling needs to know of numbers with a fraction.
#[derive(Debug)]
pub struct Fractions {
    /// The selected value to three digits, where it is such a number.
    pub shown: String,
    /// The number that the typed text writes, where it does.
    pub typed: Option<Scalar>,
}

/// What is to be done after a key.
#[derive(Debug, Clone, Copy, PartialEq, Eq, Structural)]
pub enum Flow {
    Continue,
    Save,
    Quit,
}

/// The editor.
#[derive(Debug)]
pub struct App {
    pub base_config: Config,
    pub fields: Vec<Field>,
    pub selected: usize,
    /// Whether a value is being typed.
    pub edit: bool,
    /// What has been typed.
    pub buf: Vec<char>,
    /// What is wrong with it.
    pub err: Option<String>,
    /// A message, and whether it is about an error.
    pub status: Option<(String, bool)>,
    pub dirty: bool,
}

/// A part of the editor as its contracts speak of it: what is selected and typed, and whether
/// anything was changed.
pub struct Cursor {
    pub selected: int,
    pub edit: bool,
    pub buf: Seq<char>,
    pub err: Option<Seq<char>>,
    pub status: Option<(Seq<char>, bool)>,
    pub dirty: bool,
}

pub open spec fn text_of(s: Option<String>) -> Option<Seq<char>> {
    match s {
        Some(t) => Some(t@),
        None => None,
    }
}

impl App {
    /// The part of the editor that the keys move.
    pub open spec fn cursor(self) -> Cursor {
        Cursor {
            selected: self.selected as int,
            edit: self.edit,
            buf: self.buf@,
            err: text_of(self.err),
            status: match self.status {
                Some((t, e)) => Some((t@, e)),
                None => None,
            },
            dirty: self.dirty,
        }
    }

    /// The rows, each as its setting and its two values.
    pub open spec fn rows(self) -> Seq<(FieldId, ValView, ValView)> {
        Seq::new(
            self.fields@.len(),
            |i: int| (self.fields@[i].id, self.fields@[i].val@, self.fields@[i].def@),
        )
    }

    /// The rows with another value for the selected setting.
    pub open spec fn rows_with(self, v: ValView) -> Seq<(FieldId, ValView, ValView)> {
        let i = self.selected as int;
        self.rows().update(i, (self.rows()[i].0, v, self.rows()[i].2))
    }

    /// What holds at any time: a row is selected, the rows are those of the table, and each value
    /// has the kind of its setting.
    pub open spec fn wf(self) -> bool {
        &&& self.fields@.len() == 20
        &&& self.selected < 20
        &&& forall|i: int|
            0 <= i < 20 ==> {
                &&& (#[trigger] self.fields@[i]).id == all_fields()[i]
                &&& self.fields@[i].val@.same_kind(setting(self.base_config, all_fields()[i]))
                &&& self.fields@[i].def@.same_kind(setting(self.base_config, all_fields()[i]))
            }
    }

    /// An editor for the settings.
    pub fn new(config: Config) -> (r: App)
        ensures
            r.wf(),
            r.base_config == config,
            forall|i: int| 0 <= i < 20 ==> shows(#[trigger] r.fields@[i], config, all_fields()[i]),
            r.cursor() == (Cursor {
                selected: 0,
                edit: false,
                buf: Seq::empty(),
                err: None,
                status: None,
                dirty: false,
            }),
    {
        let fields = to_fields(&config);
        let r = App {
            base_config: config,
            fields,
            selected: 0,
            edit: false,
            buf: Vec::new(),
            err: None,
            status: None,
            dirty: false,
        };
        let d = Config::default();
        assert forall|i: int| 0 <= i < 20 implies (#[trigger] r.fields@[i]).id == all_fields()[i]
            && r.fields@[i].val@.same_kind(setting(r.base_config, all_fields()[i]))
            && r.fields@[i].def@.same_kind(setting(r.base_config, all_fields()[i])) by {
            assert(shows(r.fields@[i], config, all_fields()[i]));
            assert(d.is_default());
        }
        r
    }

    /// Moves up a row.
    pub fn up(&mut self)
        requires
            old(self).wf(),
        ensures
            final(self).wf(),
            final(self).rows() == old(self).rows(),
            final(self).base_config == old(self).base_config,
            final(self).cursor() == if old(self).selected > 0 {
                Cursor { selected: old(self).selected - 1, status: None, ..old(self).cursor() }
            } else {
                old(self).cursor()
            },
    {
        if self.selected > 0 {
            self.selected = self.selected - 1;
            self.status = None;
        }
    }

    /// Moves down a row.
    pub fn down(&mut self)
        requires
            old(self).wf(),
        ensures
            final(self).wf(),
            final(self).rows() == old(self).rows(),
            final(self).base_config == old(self).base_config,
            final(self).cursor() == if old(self).selected + 1 < 20 {
                Cursor { selected: old(self).selected + 1, status: None, ..old(self).cursor() }
            } else {
                old(self).cursor()
            },
    {
        if self.selected + 1 < self.fields.len() {
            self.selected = self.selected + 1;
            self.status = None;
        }
    }

    /// Replaces the selected value.
    fn put(&mut self, v: Val)
        requires
            old(self).wf(),
            v@.same_kind(old(self).rows()[old(self).selected as int].1),
        ensures
            final(self).wf(),
            final(self).rows() == old(self).rows_with(v@),
            final(self).base_config == old(self).base_config,
            final(self).cursor() == old(self).cursor(),
    {
        let i: usize = self.selected;
        let ghost before = *self;
        let f = Field { id: self.fields[i].id, val: v, def: self.fields[i].def.copy() };
        self.fields.set(i, f);
        proof {
            assert(self.rows() =~= before.rows_with(v@));
        }
    }

    /// Turns the selected switch over, or begins to type another value. `fraction` is the
    /// selected value to three digits, where it is a number with a fraction.
    pub fn activate(&mut self, fraction: &str)
        requires
            old(self).wf(),
        ensures
            final(self).wf(),
            final(self).base_config == old(self).base_config,
            ({
                let v = old(self).rows()[old(self).selected as int].1;
                match v {
                    ValView::Bool(b) => {
                        &&& final(self).rows() == old(self).rows_with(ValView::Bool(!b))
                        &&& final(self).cursor() == (Cursor {
                            status: None,
                            dirty: true,
                            ..old(self).cursor()
                        })
                    },
                    _ => {
                        &&& final(self).rows() == old(self).rows()
                        &&& final(self).cursor() == (Cursor {
                            status: None,
                            edit: true,
                            buf: v.shown(fraction@),
                            err: None,
                            ..old(self).cursor()
                        })
                    },
                }
            }),
    {
        self.status = None;
        let i: usize = self.selected;
        let toggled: Option<bool> = match &self.fields[i].val {
            Val::Bool(b) => Some(!*b),
            _ => None,
        };
        match toggled {
            Some(b) => {
                self.put(Val::Bool(b));
                self.dirty = true;
            },
            None => {
                let shown = self.fields[i].val.display(fraction);
                self.buf = chars_of(shown.as_str());
                self.edit = true;
                self.err = None;
            },
        }
    }

    /// Gives up typing.
    pub fn cancel(&mut self)
        requires
            old(self).wf(),
        ensures
            final(self).wf(),
            final(self).rows() == old(self).rows(),
            final(self).base_config == old(self).base_config,
            final(self).cursor() == (Cursor {
                edit: false,
                buf: Seq::empty(),
                err: None,
                ..old(self).cursor()
            }),
    {
        self.edit = false;
        self.buf.clear();
        self.err = None;
    }

    /// What confirming comes to: the new value, or what is wrong.
    pub open spec fn confirmed(self, typed: Option<Scalar>) -> Result<ValView, Seq<char>> {
        let (id, v, _) = self.rows()[self.selected as int];
        match read_value(v, trim(self.buf@), typed) {
            Err(e) => Err(e),
            Ok(w) => match objection(id, w) {
                Some(e) => Err(e),
                None => Ok(w),
            },
        }
    }

    /// Takes over what was typed, unless something is wrong with it. `typed` is the number with a
    /// fraction that it writes, where it does.
    pub fn confirm(&mut self, typed: Option<Scalar>)
        requires
            old(self).wf(),
        ensures
            final(self).wf(),
            final(self).base_config == old(self).base_config,
            match old(self).confirmed(typed) {
                Err(e) => {
                    &&& final(self).rows() == old(self).rows()
                    &&& final(self).cursor() == (Cursor { err: Some(e), ..old(self).cursor() })
                },
                Ok(w) => {
                    &&& final(self).rows() == old(self).rows_with(w)
                    &&& final(self).cursor() == (Cursor {
                        edit: false,
                        buf: Seq::empty(),
                        err: None,
                        dirty: true,
                        ..old(self).cursor()
                    })
                },
            },
    {
        let i: usize = self.selected;
        let s = string_of(&trimmed(&self.buf));
        let parsed = parse_val(&self.fields[i].val, s.as_str(), typed);
        match parsed {
            Err(e) => {
                self.err = Some(e);
            },
            Ok(v) => {
                let id = self.fields[i].id;
                match validate(id, &v) {
                    Some(e) => {
                        self.err = Some(e);
                    },
                    None => {
                        self.put(v);
                        self.dirty = true;
                        self.edit = false;
                        self.buf.clear();
                        self.err = None;
                    },
                }
            },
        }
    }

    /// Puts the selected setting back to its default.
    pub fn reset_field(&mut self)
        requires
            old(self).wf(),
        ensures
            final(self).wf(),
            final(self).base_config == old(self).base_config,
            final(self).rows() == old(self).rows_with(old(self).rows()[old(self).selected as int].2),
            final(self).cursor() == (Cursor {
                dirty: true,
                status: Some(
                    (
                        key_text(old(self).rows()[old(self).selected as int].0)
                            + " reset to default"@,
                        false,
                    ),
                ),
                ..old(self).cursor()
            }),
    {
        let i: usize = self.selected;
        let def = self.fields[i].def.copy();
        let mut t: String = self.fields[i].id.key().to_owned();
        t.append(" reset to default");
        self.put(def);
        self.dirty = true;
        self.status = Some((t, false));
    }

    /// The settings to save.
    pub fn config(&self) -> (r: Config)
        ensures
            same_hidden(r, self.base_config),
            forall|id: FieldId| #[trigger]
                setting(r, id) == taken_over(self.fields@, id, setting(self.base_config, id)),
    {
        to_config(&self.base_config, &self.fields)
    }

    /// Notes how saving went. `Ok` holds what became of the daemon.
    pub fn saved(&mut self, result: Result<&str, String>)
        requires
            old(self).wf(),
        ensures
            final(self).wf(),
            final(self).rows() == old(self).rows(),
            final(self).base_config == old(self).base_config,
            final(self).cursor() == match result {
                Ok(m) => Cursor {
                    dirty: false,
                    status: Some(("Saved — "@ + m@, false)),
                    ..old(self).cursor()
                },
                Err(e) => Cursor { status: Some((e@, true)), ..old(self).cursor() },
            },
    {
        match result {
            Ok(m) => {
                let mut t: String = "Saved — ".to_owned();
                t.append(m);
                self.dirty = false;
                self.status = Some((t, false));
            },
            Err(e) => {
                self.status = Some((e, true));
            },
        }
    }

    /// The rows and the cursor after a key while a value is typed.
    pub open spec fn edited(self, key: Key, typed: Option<Scalar>) -> (
        Seq<(FieldId, ValView, ValView)>,
        Cursor,
    ) {
        let c = self.cursor();
        match key {
            Key::Esc => (self.rows(), Cursor { edit: false, buf: Seq::empty(), err: None, ..c }),
            Key::Enter => match self.confirmed(typed) {
                Err(e) => (self.rows(), Cursor { err: Some(e), ..c }),
                Ok(w) => (
                    self.rows_with(w),
                    Cursor { edit: false, buf: Seq::empty(), err: None, dirty: true, ..c },
                ),
            },
            Key::Char(x) => (self.rows(), Cursor { buf: c.buf.push(x), err: None, ..c }),
            Key::Backspace => (
                self.rows(),
                Cursor {
                    buf: if c.buf.len() > 0 {
                        c.buf.drop_last()
                    } else {
                        c.buf
                    },
                    err: None,
                    ..c
                },
            ),
            _ => (self.rows(), c),
        }
    }

    /// The rows and the cursor after a key while no value is typed. `shown` is the selected value
    /// to three digits, where it is a number with a fraction.
    pub open spec fn moved(self, key: Key, shown: Seq<char>) -> (
        Seq<(FieldId, ValView, ValView)>,
        Cursor,
    ) {
        let c = self.cursor();
        let (id, v, d) = self.rows()[c.selected];
        if (key == Key::Up || key == Key::Char('k')) && c.selected > 0 {
            (self.rows(), Cursor { selected: c.selected - 1, status: None, ..c })
        } else if (key == Key::Down || key == Key::Char('j')) && c.selected + 1 < 20 {
            (self.rows(), Cursor { selected: c.selected + 1, status: None, ..c })
        } else if key == Key::Enter || key == Key::Char('e') {
            match v {
                ValView::Bool(b) => (
                    self.rows_with(ValView::Bool(!b)),
                    Cursor { status: None, dirty: true, ..c },
                ),
                _ => (
                    self.rows(),
                    Cursor { status: None, edit: true, buf: v.shown(shown), err: None, ..c },
                ),
            }
        } else if key == Key::Char('r') {
            (
                self.rows_with(d),
                Cursor {
                    dirty: true,
                    status: Some((key_text(id) + " reset to default"@, false)),
                    ..c
                },
            )
        } else {
            (self.rows(), c)
        }
    }

    /// Takes in a key while a value is typed.
    fn edit_key(&mut self, key: Key, fractions: &Fractions)
        requires
            old(self).wf(),
            old(self).edit,
        ensures
            final(self).wf(),
            final(self).base_config == old(self).base_config,
            (final(self).rows(), final(self).cursor()) == old(self).edited(key, fractions.typed),
    {
        match key {
            Key::Esc => self.cancel(),
            Key::Enter => self.confirm(fractions.typed),
            Key::Char(c) => {
                self.buf.push(c);
                self.err = None;
            },
            Key::Backspace => {
                let _ = self.buf.pop();
                self.err = None;
            },
            _ => {},
        }
    }

    /// Takes in a key. While a value is typed, keys make its text; otherwise they move through the
    /// table, change the selected value, save or quit.
    pub fn on_key(&mut self, key: Key, fractions: &Fractions) -> (r: Flow)
        requires
            old(self).wf(),
        ensures
            final(self).wf(),
            final(self).base_config == old(self).base_config,
            r == if old(self).edit {
                Flow::Continue
            } else if key == Key::Esc || key == Key::Char('q') {
                Flow::Quit
            } else if key == Key::Char('s') {
                Flow::Save
            } else {
                Flow::Continue
            },
            (final(self).rows(), final(self).cursor()) == if old(self).edit {
                old(self).edited(key, fractions.typed)
            } else {
                old(self).moved(key, fractions.shown@)
            },
    {
        if self.edit {
            self.edit_key(key, fractions);
            return Flow::Continue;
        }
        match key {
            Key::Esc | Key::Char('q') => Flow::Quit,
            Key::Char('s') => Flow::Save,
            Key::Char('r') => {
                self.reset_field();
                Flow::Continue
            },
            Key::Up | Key::Char('k') => {
                self.up();
                Flow::Continue
            },
            Key::Down | Key::Char('j') => {
                self.down();
                Flow::Continue
            },
            Key::Enter | Key::Char('e') => {
                self.activate(fractions.shown.as_str());
                Flow::Continue
            },
            _ => Flow::Continue,
        }
    }

    /// The name of the section, in front of the first row of it alone.
    pub fn section_label(&self, i: usize) -> (r: &'static str)
        requires
            self.wf(),
            i < 20,
        ensures
            r@ == if i == 0 || section_text(self.fields@[i - 1].id) != section_text(
                self.fields@[i as int].id,
            ) {
                section_text(self.fields@[i as int].id)
            } else {
                ""@
            },
    {
        let here = self.fields[i].id.section();
        if i == 0 {
            return here;
        }
        let above = self.fields[i - 1].id.section();
        if crate::text::same(above, here) {
            ""
        } else {
            here
        }
    }
}

/// What is said of the daemon after the settings were saved, by whether the request to read them
/// again could be sent and went well.
pub fn reload_message(signal: Option<bool>) -> (r: &'static str)
    ensures
        r@ == match signal {
            Some(true) => "daemon reloaded"@,
            Some(false) => "saved (daemon not running — start with: systemctl start face-authd)"@,
            None => "saved (systemctl unavailable — restart daemon manually)"@,
        },
{
    match signal {
        Some(true) => "daemon reloaded",
        Some(false) => "saved (daemon not running — start with: systemctl start face-authd)",
        None => "saved (systemctl unavailable — restart daemon manually)",
    }
}

/// What a value looks like in the table: a switch gets a mark.
pub fn table_text(val: &Val, fraction: &str) -> (r: String)
    ensures
        r@ == match val@ {
            ValView::Bool(true) => "true  ✓"@,
            ValView::Bool(false) => "false ✗"@,
            v => v.shown(fraction@),
        },
{
    match val {
        Val::Bool(true) => "true  ✓".to_owned(),
        Val::Bool(false) => "false ✗".to_owned(),
        _ => val.display(fraction),
    }
}

/// How a line is coloured.
#[derive(Debug, Clone, Copy, PartialEq, Eq, Structural)]
pub enum Tone {
    Error,
    Edit,
    Good,
    Dim,
}

/// The line at the bottom.
#[derive(Debug)]
pub struct BottomLine {
    pub text: String,
    pub tone: Tone,
}

/// The words at the bottom: what is being typed, a message, or the keys.
pub open spec fn bottom_text(app: App) -> Seq<char> {
    let c = app.cursor();
    if c.edit {
        " "@ + key_text(app.rows()[c.selected].0) + " > ["@ + c.buf + "]"@ + match c.err {
            Some(e) => "  ! "@ + e,
            None => ""@,
        } + "  Esc=cancel  Enter=confirm"@
    } else {
        match c.status {
            Some((m, _)) => " "@ + m,
            None => if c.dirty {
                " ↑↓/jk  Navigate    Enter/e  Edit    r  Reset field    s  Save*    q  Quit"@
            } else {
                " ↑↓/jk  Navigate    Enter/e  Edit    r  Reset field    s  Save     q  Quit"@
            },
        }
    }
}

/// The line at the bottom.
pub fn bottom_line(app: &App) -> (r: BottomLine)
    requires
        app.wf(),
    ensures
        r.text@ == bottom_text(*app),
        r.tone == if app.edit {
            if app.err is Some {
                Tone::Error
            } else {
                Tone::Edit
            }
        } else {
            match app.status {
                Some((_, true)) => Tone::Error,
                Some((_, false)) => Tone::Good,
                None => Tone::Dim,
            }
        },
{
    if app.edit {
        let mut t: String = " ".to_owned();
        t.append(app.fields[app.selected].id.key());
        t.append(" > [");
        let typed = string_of(&app.buf);
        t.append(typed.as_str());
        t.append("]");
        let tone = match &app.err {
            Some(e) => {
                let mut suffix: String = "  ! ".to_owned();
                suffix.append(e.as_str());
                t.append(suffix.as_str());
                Tone::Error
            },
            None => {
                t.append("");
                Tone::Edit
            },
        };
        t.append("  Esc=cancel  Enter=confirm");
        return BottomLine { text: t, tone };
    }
    match &app.status {
        Some((m, is_err)) => {
            let mut t: String = " ".to_owned();
            t.append(m.as_str());
            let tone = if *is_err {
                Tone::Error
            } else {
                Tone::Good
            };
            BottomLine { text: t, tone }
        },
        None => {
            let t: String = if app.dirty {
                " ↑↓/jk  Navigate    Enter/e  Edit    r  Reset field    s  Save*    q  Quit".to_owned()
            } else {
                " ↑↓/jk  Navigate    Enter/e  Edit    r  Reset field    s  Save     q  Quit".to_owned()
            };
            BottomLine { text: t, tone: Tone::Dim }
        },
    }
}

/// A key changes the selected row at most, and of it the value alone. Where it changes anything, that
/// is remembered as not saved.
pub proof fn keys_change_the_selected_value(app: App, key: Key, typed: Option<Scalar>, shown: Seq<char>, i: int)
    requires
        app.wf(),
        0 <= i < 20,
    ensures
        ({
            let (rows, c) = if app.edit {
                app.edited(key, typed)
            } else {
                app.moved(key, shown)
            };
            &&& rows.len() == 20
            &&& rows[i].0 == app.rows()[i].0
            &&& rows[i].2 == app.rows()[i].2
            &&& i != app.selected ==> rows[i].1 == app.rows()[i].1
            &&& rows != app.rows() ==> c.dirty
            &&& app.dirty ==> c.dirty
            &&& 0 <= c.selected < 20
        }),
{
}

/// While a value is typed, characters are added at its end and taken away from there. Escape forgets
/// them all. The table stays as it is until the value is confirmed.
pub proof fn typing_makes_a_text(app: App, next: App, key: Key, x: char, typed: Option<Scalar>)
    requires
        app.edit,
        next.edit,
        next.cursor() == app.edited(Key::Char(x), typed).1,
    ensures
        next.cursor().buf == app.buf@.push(x),
        next.edited(Key::Backspace, typed).1.buf == app.buf@,
        key != Key::Enter ==> app.edited(key, typed).0 == app.rows() && app.edited(key, typed).1.selected
            == app.selected && app.edited(key, typed).1.dirty == app.dirty,
        app.buf@.len() == 0 ==> app.edited(Key::Backspace, typed).1.buf.len() == 0,
        ({
            let c = app.edited(Key::Esc, typed).1;
            !c.edit && c.buf.len() == 0 && c.err is None
        }),
        next.cursor().err is None,
        app.edited(Key::Backspace, typed).1.err is None,
        app.edited(Key::Up, typed) == (app.rows(), app.cursor()),
        app.edited(Key::Down, typed) == (app.rows(), app.cursor()),
{
    let pushed = app.buf@.push(x);
    assert(pushed.drop_last() =~= app.buf@);
}

/// Confirming takes the value over and ends the typing, or says what is wrong and goes on with it.
pub proof fn confirming_ends_or_objects(app: App, typed: Option<Scalar>)
    requires
        app.wf(),
        app.edit,
    ensures
        ({
            let i = app.selected as int;
            let (id, old_value, _) = app.rows()[i];
            let (rows, c) = app.edited(Key::Enter, typed);
            &&& c.edit ==> rows == app.rows() && c.buf == app.buf@ && c.err is Some && c.dirty
                == app.dirty
            &&& !c.edit ==> {
                &&& rows[i].1.same_kind(old_value)
                &&& objection(id, rows[i].1) is None
                &&& read_value(old_value, trim(app.buf@), typed) == Ok::<ValView, Seq<char>>(rows[i].1)
                &&& c.buf.len() == 0
                &&& c.err is None
                &&& c.dirty
            }
            &&& c.edit <==> read_value(old_value, trim(app.buf@), typed) is Err || objection(
                id,
                read_value(old_value, trim(app.buf@), typed)->Ok_0,
            ) is Some
        }),
{
}

/// Up and down move by one row, undo each other, and stop at the ends. The letters do what the arrows
/// do.
pub proof fn up_and_down_undo_each_other(app: App, next: App, shown: Seq<char>)
    requires
        app.wf(),
        next.wf(),
        !app.edit,
    ensures
        app.moved(Key::Up, shown) == app.moved(Key::Char('k'), shown),
        app.moved(Key::Down, shown) == app.moved(Key::Char('j'), shown),
        app.moved(Key::Enter, shown) == app.moved(Key::Char('e'), shown),
        app.moved(Key::Up, shown).0 == app.rows(),
        app.moved(Key::Down, shown).0 == app.rows(),
        app.selected < 19 ==> app.moved(Key::Down, shown).1.selected == app.selected + 1,
        app.selected == 19 ==> app.moved(Key::Down, shown).1.selected == 19,
        app.selected == 0 ==> app.moved(Key::Up, shown).1.selected == 0,
        app.selected < 19 && next.cursor() == app.moved(Key::Down, shown).1 ==> next.moved(
            Key::Up,
            shown,
        ).1.selected == app.selected,
{
}

/// A switch is turned over at once, and turned over twice is as it was. Any other value is typed,
/// beginning with the text that it is shown by.
pub proof fn switches_turn_over(app: App, next: App, shown: Seq<char>)
    requires
        app.wf(),
        next.wf(),
        next.rows() == app.moved(Key::Enter, shown).0,
        next.cursor() == app.moved(Key::Enter, shown).1,
    ensures
        ({
            let v = app.rows()[app.selected as int].1;
            &&& v is Bool ==> {
                &&& next.rows()[app.selected as int].1 == ValView::Bool(!v->Bool_0)
                &&& next.moved(Key::Enter, shown).0 == app.rows()
                &&& next.edit == app.edit
            }
            &&& v !is Bool ==> {
                &&& next.rows() == app.rows()
                &&& next.edit
                &&& next.buf@ == v.shown(shown)
                &&& next.dirty == app.dirty
            }
        }),
{
    let i = app.selected as int;
    let v = app.rows()[i].1;
    if v is Bool {
        assert(next.selected == app.selected);
        assert(next.rows()[i].1 == ValView::Bool(!v->Bool_0));
        assert(next.moved(Key::Enter, shown).0 =~= app.rows());
    }
}

/// Resetting gives a setting its default. Keys without a meaning do nothing.
pub proof fn reset_gives_the_default(app: App, key: Key, shown: Seq<char>)
    requires
        app.wf(),
        !app.edit,
    ensures
        ({
            let i = app.selected as int;
            let (rows, c) = app.moved(Key::Char('r'), shown);
            rows[i].1 == app.rows()[i].2 && c.dirty && c.selected == i && !c.edit
        }),
        !(key == Key::Up || key == Key::Down || key == Key::Enter || key == Key::Char('k') || key
            == Key::Char('j') || key == Key::Char('e') || key == Key::Char('r')) ==> app.moved(key, shown)
            == (app.rows(), app.cursor()),
{
}

/// What is accepted: a threshold between zero and one, at least one frame, at least one second, one of
/// five log levels, one of four providers. Everything else is accepted as it is.
pub proof fn sound_values_are_accepted(id: FieldId, x: Scalar, n: u32, t: u64, s: Seq<char>, v: ValView)
    ensures
        objection(FieldId::Threshold, ValView::F32(x)) is None <==> (Scalar { bits: 0 }).below(x)
            && x.below(Scalar { bits: 0x3f80_0000 }),
        objection(FieldId::FramesRequired, ValView::U32(n)) is None <==> n >= 1,
        objection(FieldId::SessionTimeoutS, ValView::U64(t)) is None <==> t >= 1,
        objection(FieldId::LogLevel, ValView::Str(s)) is None <==> seq![
            "error"@,
            "warn"@,
            "info"@,
            "debug"@,
            "trace"@,
        ].contains(s),
        objection(FieldId::ExecutionProvider, ValView::Str(s)) is None <==> seq![
            "cpu"@,
            "rocm"@,
            "cuda"@,
            "xdna"@,
        ].contains(s),
        id != FieldId::Threshold && id != FieldId::FramesRequired && id != FieldId::SessionTimeoutS && id
            != FieldId::LogLevel && id != FieldId::ExecutionProvider ==> objection(id, v) is None,
{
    let levels = seq!["error"@, "warn"@, "info"@, "debug"@, "trace"@];
    let providers = seq!["cpu"@, "rocm"@, "cuda"@, "xdna"@];
    assert(levels[0] == "error"@ && levels[1] == "warn"@ && levels[2] == "info"@ && levels[3]
        == "debug"@ && levels[4] == "trace"@);
    assert(providers[0] == "cpu"@ && providers[1] == "rocm"@ && providers[2] == "cuda"@
        && providers[3] == "xdna"@);
    assert(levels.contains(s) <==> s == "error"@ || s == "warn"@ || s == "info"@ || s == "debug"@ || s
        == "trace"@);
    assert(providers.contains(s) <==> s == "cpu"@ || s == "rocm"@ || s == "cuda"@ || s == "xdna"@);
}

/// The words for a switch: four for on and four for off, and none for both.
pub proof fn words_for_a_switch(s: Seq<char>)
    ensures
        switch_value(s) == Some(true) <==> s == "true"@ || s == "yes"@ || s == "1"@ || s == "on"@,
        switch_value(s) == Some(false) <==> s == "false"@ || s == "no"@ || s == "0"@ || s == "off"@,
{
    reveal_strlit("true");
    reveal_strlit("yes");
    reveal_strlit("1");
    reveal_strlit("on");
    reveal_strlit("false");
    reveal_strlit("no");
    reveal_strlit("0");
    reveal_strlit("off");
    assert("true"@.len() == 4 && "yes"@.len() == 3 && "1"@.len() == 1 && "on"@.len() == 2);
    assert("false"@.len() == 5 && "no"@.len() == 2 && "0"@.len() == 1 && "off"@.len() == 3);
    assert("1"@[0] != "0"@[0]);
    assert("on"@[0] != "no"@[0]);
    assert("yes"@[0] != "off"@[0]);
}

/// The text that a value is shown by is read as that value again.
pub proof fn shown_value_is_read_back(v: ValView, fraction: Seq<char>)
    ensures
        read_value(
            v,
            v.shown(fraction),
            if v is F32 {
                Some(v->F32_0)
            } else {
                None
            },
        ) == Ok::<ValView, Seq<char>>(v),
        forall|s: Seq<char>, f: Option<Scalar>|
            (#[trigger] read_value(v, s, f)) is Ok ==> read_value(v, s, f)->Ok_0.same_kind(v),
{
    match v {
        ValView::Bool(b) => {
            words_for_a_switch(v.shown(fraction));
        },
        ValView::U64(n) => {
            crate::text::decimal_reads_back(n as nat);
        },
        ValView::U32(n) => {
            crate::text::decimal_reads_back(n as nat);
        },
        ValView::I32(n) => {
            if n < 0 {
                let s = signed_decimal(n as int);
                crate::text::decimal_reads_back((-n) as nat);
                assert(s.drop_first() =~= decimal((-n) as nat));
            } else {
                crate::text::decimal_reads_back(n as nat);
                crate::text::decimal_has_no_leading_zero(n as nat);
            }
        },
        _ => {},
    }
}

/// Two configurations hold the same settings exactly where every row of the table shows the same value
/// and what the table does not show is the same.
pub proof fn same_settings_show_the_same(a: Config, b: Config)
    ensures
        a.same(b) <==> same_hidden(a, b) && forall|id: FieldId| #[trigger]
            setting(a, id) == setting(b, id),
{
    if same_hidden(a, b) && forall|id: FieldId| #[trigger] setting(a, id) == setting(b, id) {
        assert(setting(a, FieldId::SessionTimeoutS) == setting(b, FieldId::SessionTimeoutS));
        assert(setting(a, FieldId::IdleUnloadS) == setting(b, FieldId::IdleUnloadS));
        assert(setting(a, FieldId::ExecutionProvider) == setting(b, FieldId::ExecutionProvider));
        assert(setting(a, FieldId::DevicePath) == setting(b, FieldId::DevicePath));
        assert(setting(a, FieldId::FlushFrames) == setting(b, FieldId::FlushFrames));
        assert(setting(a, FieldId::Threshold) == setting(b, FieldId::Threshold));
        assert(setting(a, FieldId::FramesRequired) == setting(b, FieldId::FramesRequired));
        assert(setting(a, FieldId::MaxEnrollment) == setting(b, FieldId::MaxEnrollment));
        assert(setting(a, FieldId::LivenessEnabled) == setting(b, FieldId::LivenessEnabled));
        assert(setting(a, FieldId::LbpEntropyMin) == setting(b, FieldId::LbpEntropyMin));
        assert(setting(a, FieldId::ContrastCvMin) == setting(b, FieldId::ContrastCvMin));
        assert(setting(a, FieldId::ContrastCvMax) == setting(b, FieldId::ContrastCvMax));
        assert(setting(a, FieldId::DistanceMin) == setting(b, FieldId::DistanceMin));
        assert(setting(a, FieldId::DistanceMax) == setting(b, FieldId::DistanceMax));
        assert(setting(a, FieldId::YawMaxDeg) == setting(b, FieldId::YawMaxDeg));
        assert(setting(a, FieldId::PitchMaxDeg) == setting(b, FieldId::PitchMaxDeg));
        assert(setting(a, FieldId::RollMaxDeg) == setting(b, FieldId::RollMaxDeg));
        assert(setting(a, FieldId::LogLevel) == setting(b, FieldId::LogLevel));
        assert(setting(a, FieldId::NotifyEnabled) == setting(b, FieldId::NotifyEnabled));
        assert(setting(a, FieldId::NotifyTimeoutMs) == setting(b, FieldId::NotifyTimeoutMs));
    }
}

/// The default of every setting in the table is one that would be accepted, and of two limits the lower
/// is the smaller. There is one set of defaults.
pub proof fn defaults_are_sound(c: Config, d: Config, id: FieldId)
    requires
        c.is_default(),
        d.is_default(),
    ensures
        objection(id, setting(c, id)) is None,
        c.geometry.distance_min.below(c.geometry.distance_max),
        c.liveness.local_contrast_cv_min.below(c.liveness.local_contrast_cv_max),
        c.same(d),
{
}

/// The defaults that the table shows.
pub proof fn defaults_of_the_table(c: Config)
    requires
        c.is_default(),
    ensures
        setting(c, FieldId::SessionTimeoutS) == ValView::U64(7),
        setting(c, FieldId::IdleUnloadS) == ValView::U64(0),
        setting(c, FieldId::ExecutionProvider) == ValView::Str("cpu"@),
        setting(c, FieldId::DevicePath) == ValView::Str(Seq::empty()),
        setting(c, FieldId::FlushFrames) == ValView::U32(0),
        setting(c, FieldId::Threshold) == ValView::F32(Scalar { bits: 0x3f33_3333 }),
        setting(c, FieldId::FramesRequired) == ValView::U32(2),
        setting(c, FieldId::MaxEnrollment) == ValView::U32(20),
        setting(c, FieldId::LivenessEnabled) == ValView::Bool(true),
        setting(c, FieldId::LbpEntropyMin) == ValView::F32(Scalar { bits: 0x40b0_0000 }),
        setting(c, FieldId::ContrastCvMin) == ValView::F32(Scalar { bits: 0x3e4c_cccd }),
        setting(c, FieldId::ContrastCvMax) == ValView::F32(Scalar { bits: 0x3f4c_cccd }),
        setting(c, FieldId::DistanceMin) == ValView::F32(Scalar { bits: 0x3d75_c28f }),
        setting(c, FieldId::DistanceMax) == ValView::F32(Scalar { bits: 0x3f0c_cccd }),
        setting(c, FieldId::YawMaxDeg) == ValView::F32(Scalar { bits: 0x4234_0000 }),
        setting(c, FieldId::PitchMaxDeg) == ValView::F32(Scalar { bits: 0x4234_0000 }),
        setting(c, FieldId::RollMaxDeg) == ValView::F32(Scalar { bits: 0x420c_0000 }),
        setting(c, FieldId::LogLevel) == ValView::Str("info"@),
        setting(c, FieldId::NotifyEnabled) == ValView::Bool(false),
        setting(c, FieldId::NotifyTimeoutMs) == ValView::I32(3000),
{
}

/// Every setting has one row of the table.
pub proof fn each_setting_has_one_row(id: FieldId)
    ensures
        all_fields().len() == 20,
        exists|i: int|
            0 <= i < 20 && #[trigger] all_fields()[i] == id && forall|k: int|
                0 <= k < 20 && #[trigger] all_fields()[k] == id ==> k == i,
{
    let i = lemma_row_of(id);
    assert(all_fields()[i] == id);
}

proof fn lemma_row_of(id: FieldId) -> (i: int)
    ensures
        0 <= i < 20,
        all_fields()[i] == id,
{
    match id {
        FieldId::SessionTimeoutS => 0,
        FieldId::IdleUnloadS => 1,
        FieldId::ExecutionProvider => 2,
        FieldId::DevicePath => 3,
        FieldId::FlushFrames => 4,
        FieldId::Threshold => 5,
        FieldId::FramesRequired => 6,
        FieldId::MaxEnrollment => 7,
        FieldId::LivenessEnabled => 8,
        FieldId::LbpEntropyMin => 9,
        FieldId::ContrastCvMin => 10,
        FieldId::ContrastCvMax => 11,
        FieldId::DistanceMin => 12,
        FieldId::DistanceMax => 13,
        FieldId::YawMaxDeg => 14,
        FieldId::PitchMaxDeg => 15,
        FieldId::RollMaxDeg => 16,
        FieldId::LogLevel => 17,
        FieldId::NotifyEnabled => 18,
        FieldId::NotifyTimeoutMs => 19,
    }
}

/// No two settings have the same name in the same section.
pub proof fn names_tell_settings_apart(a: FieldId, b: FieldId)
    requires
        section_text(a) == section_text(b),
        key_text(a) == key_text(b),
    ensures
        a == b,
{
    reveal_strlit("daemon");
    reveal_strlit("camera");
    reveal_strlit("recognition");
    reveal_strlit("liveness");
    reveal_strlit("geometry");
    reveal_strlit("logging");
    reveal_strlit("notify");
    assert("daemon"@.len() == 6 && "camera"@.len() == 6 && "notify"@.len() == 6);
    assert("recognition"@.len() == 11 && "liveness"@.len() == 8 && "geometry"@.len() == 8
        && "logging"@.len() == 7);
    assert("daemon"@[0] == 'd' && "camera"@[0] == 'c' && "notify"@[0] == 'n');
    assert("liveness"@[0] == 'l' && "geometry"@[0] == 'g');
    reveal_strlit("session_timeout_s");
    reveal_strlit("idle_unload_s");
    reveal_strlit("execution_provider");
    reveal_strlit("device_path");
    reveal_strlit("flush_frames");
    reveal_strlit("threshold");
    reveal_strlit("frames_required");
    reveal_strlit("max_enrollment");
    reveal_strlit("enabled");
    reveal_strlit("lbp_entropy_min");
    reveal_strlit("contrast_cv_min");
    reveal_strlit("contrast_cv_max");
    reveal_strlit("distance_min");
    reveal_strlit("distance_max");
    reveal_strlit("yaw_max_deg");
    reveal_strlit("pitch_max_deg");
    reveal_strlit("roll_max_deg");
    reveal_strlit("level");
    reveal_strlit("timeout_ms");
    assert("session_timeout_s"@.len() == 17 && "idle_unload_s"@.len() == 13
        && "execution_provider"@.len() == 18);
    assert("device_path"@.len() == 11 && "flush_frames"@.len() == 12);
    assert("threshold"@.len() == 9 && "frames_required"@.len() == 15 && "max_enrollment"@.len() == 14);
    assert("enabled"@.len() == 7 && "lbp_entropy_min"@.len() == 15 && "contrast_cv_min"@.len() == 15
        && "contrast_cv_max"@.len() == 15);
    assert("lbp_entropy_min"@[0] == 'l' && "contrast_cv_min"@[0] == 'c' && "contrast_cv_max"@[0]
        == 'c');
    assert("contrast_cv_min"@[13] == 'i' && "contrast_cv_max"@[13] == 'a');
    assert("distance_min"@.len() == 12 && "distance_max"@.len() == 12 && "yaw_max_deg"@.len() == 11
        && "pitch_max_deg"@.len() == 13 && "roll_max_deg"@.len() == 12);
    assert("distance_min"@[0] == 'd' && "distance_max"@[0] == 'd' && "roll_max_deg"@[0] == 'r');
    assert("distance_min"@[10] == 'i' && "distance_max"@[10] == 'a');
    assert("timeout_ms"@.len() == 10);
}

/// The line at the bottom shows what is typed and what is wrong with it. Otherwise it shows the
/// message, where there is one, and else the keys, with a mark where there is something to save.
pub proof fn bottom_shows_what_matters(app: App, err: Seq<char>, message: Seq<char>)
    requires
        app.wf(),
    ensures
        app.edit ==> crate::text::contains(bottom_text(app), seq!['['] + app.buf@ + seq![']']),
        app.edit && app.cursor().err == Some(err) ==> crate::text::contains(bottom_text(app), err),
        app.edit ==> crate::text::starts_with(
            bottom_text(app),
            " "@ + key_text(app.rows()[app.selected as int].0),
        ),
        !app.edit && (app.cursor().status is Some) && (app.cursor().status->0).0 == message
            ==> bottom_text(app) == " "@ + message,
        !app.edit && app.cursor().status is None ==> (app.dirty <==> crate::text::contains(
            bottom_text(app),
            "Save*"@,
        )),
{
    let s = bottom_text(app);
    let front = " "@ + key_text(app.rows()[app.selected as int].0);
    reveal_strlit(" > [");
    reveal_strlit("]");
    if app.edit {
        let typed = seq!['['] + app.buf@ + seq![']'];
        let head = front + " > ["@;
        assert(s.skip(head.len() - 1).take(typed.len() as int) =~= typed);
        assert(s.take(front.len() as int) =~= front);
        if app.cursor().err == Some(err) {
            let shown = head + app.buf@ + "]"@ + "  ! "@;
            assert(s.skip(shown.len() as int).take(err.len() as int) =~= err);
        }
    } else if app.cursor().status is None {
        lemma_save_mark();
    }
}

proof fn lemma_save_mark()
    ensures
        crate::text::contains(
            " ↑↓/jk  Navigate    Enter/e  Edit    r  Reset field    s  Save*    q  Quit"@,
            "Save*"@,
        ),
        !crate::text::contains(
            " ↑↓/jk  Navigate    Enter/e  Edit    r  Reset field    s  Save     q  Quit"@,
            "Save*"@,
        ),
{
    reveal_strlit(" ↑↓/jk  Navigate    Enter/e  Edit    r  Reset field    s  Save*    q  Quit");
    reveal_strlit(" ↑↓/jk  Navigate    Enter/e  Edit    r  Reset field    s  Save     q  Quit");
    reveal_strlit("Save*");
    let marked = " ↑↓/jk  Navigate    Enter/e  Edit    r  Reset field    s  Save*    q  Quit"@;
    let plain = " ↑↓/jk  Navigate    Enter/e  Edit    r  Reset field    s  Save     q  Quit"@;
    assert(marked.skip(58).take(5) =~= "Save*"@);
    assert forall|k: int| 0 <= k < plain.len() implies plain[k] != '*' by {}
    if crate::text::contains(plain, "Save*"@) {
        let i = choose|i: int|
            0 <= i && i + "Save*"@.len() <= plain.len() && #[trigger] plain.skip(i).take(
                "Save*"@.len() as int,
            ) == "Save*"@;
        assert(plain.skip(i).take(5)[4] == plain[i + 4]);
        assert("Save*"@[4] == '*');
    }
}

} // verus!
