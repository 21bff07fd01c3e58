//! The tab of the graphical interface in which the settings are changed.
use crate::config::Config;
use crate::scalar::Scalar;
use vstd::prelude::*;

verus! {

/// A setting that the tab shows.
#[derive(Debug, Clone, Copy, PartialEq, Eq, Structural)]
pub enum Setting {
    Threshold,
    FramesRequired,
    MaxEnrollment,
    SessionTimeoutS,
    ExecutionProvider,
    LivenessEnabled,
    LbpEntropyMin,
    ContrastCvMin,
    ContrastCvMax,
    DevicePath,
    CropRightFraction,
    NotifyEnabled,
    NotifyTimeoutMs,
    DistanceMin,
    DistanceMax,
    YawMaxDeg,
    PitchMaxDeg,
    RollMaxDeg,
}

/// How a setting is changed.
#[derive(Debug, Clone, Copy, PartialEq, Eq, Structural)]
pub enum Control {
    /// A number with a fraction, changed by dragging.
    Drag { min: Scalar, max: Scalar, speed: Scalar, decimals: usize },
    /// A number with a fraction, changed on a scale.
    Slider { min: Scalar, max: Scalar, decimals: usize },
    /// A whole number.
    Whole { least: i32, most: i32 },
    /// A switch.
    Switch,
    /// One of the execution providers.
    Choice,
    /// A line of text.
    Text,
}

/// All settings of the tab, in order.
pub open spec fn all_settings() -> Seq<Setting> {
    seq![
        Setting::Threshold,
        Setting::FramesRequired,
        Setting::MaxEnrollment,
        Setting::SessionTimeoutS,
        Setting::ExecutionProvider,
        Setting::LivenessEnabled,
        Setting::LbpEntropyMin,
        Setting::ContrastCvMin,
        Setting::ContrastCvMax,
        Setting::DevicePath,
        Setting::CropRightFraction,
        Setting::NotifyEnabled,
        Setting::NotifyTimeoutMs,
        Setting::DistanceMin,
        Setting::DistanceMax,
        Setting::YawMaxDeg,
        Setting::PitchMaxDeg,
        Setting::RollMaxDeg,
    ]
}

/// The section in which a setting stands.
pub open spec fn section_text(s: Setting) -> Seq<char> {
    match s {
        Setting::Threshold => "Recognition"@,
        Setting::FramesRequired => "Recognition"@,
        Setting::MaxEnrollment => "Recognition"@,
        Setting::SessionTimeoutS => "Daemon"@,
        Setting::ExecutionProvider => "Daemon"@,
        Setting::LivenessEnabled => "Liveness"@,
        Setting::LbpEntropyMin => "Liveness"@,
        Setting::ContrastCvMin => "Liveness"@,
        Setting::ContrastCvMax => "Liveness"@,
        Setting::DevicePath => "Camera"@,
        Setting::CropRightFraction => "Camera"@,
        Setting::NotifyEnabled => "Notifications"@,
        Setting::NotifyTimeoutMs => "Notifications"@,
        Setting::DistanceMin => "Geometry"@,
        Setting::DistanceMax => "Geometry"@,
        Setting::YawMaxDeg => "Geometry"@,
        Setting::PitchMaxDeg => "Geometry"@,
        Setting::RollMaxDeg => "Geometry"@,
    }
}

/// What stands in front of a setting.
pub open spec fn label_text(s: Setting) -> Seq<char> {
    match s {
        Setting::Threshold => "Threshold"@,
        Setting::FramesRequired => "Frames required"@,
        Setting::MaxEnrollment => "Max enrollment"@,
        Setting::SessionTimeoutS => "Session timeout (s)"@,
        Setting::ExecutionProvider => "Execution provider"@,
        Setting::LivenessEnabled => "Enabled"@,
        Setting::LbpEntropyMin => "LBP entropy min"@,
        Setting::ContrastCvMin => "Contrast CV min"@,
        Setting::ContrastCvMax => "Contrast CV max"@,
        Setting::DevicePath => "Device path"@,
        Setting::CropRightFraction => "Crop right fraction"@,
        Setting::NotifyEnabled => "Enabled"@,
        Setting::NotifyTimeoutMs => "Timeout (ms)"@,
        Setting::DistanceMin => "Distance min"@,
        Setting::DistanceMax => "Distance max"@,
        Setting::YawMaxDeg => "Yaw max (°)"@,
        Setting::PitchMaxDeg => "Pitch max (°)"@,
        Setting::RollMaxDeg => "Roll max (°)"@,
    }
}

/// How a setting is changed, and within which limits.
pub open spec fn control_of(s: Setting) -> Control {
    match s {
        Setting::Threshold => Control::Drag {
            min: Scalar { bits: 0x3e99_999a },
            max: Scalar { bits: 0x3f7d_70a4 },
            speed: Scalar { bits: 0x3ba3_d70a },
            decimals: 3,
        },
        Setting::FramesRequired => Control::Whole { least: 1, most: 10 },
        Setting::MaxEnrollment => Control::Whole { least: 1, most: 100 },
        Setting::SessionTimeoutS => Control::Whole { least: 3, most: 60 },
        Setting::ExecutionProvider => Control::Choice,
        Setting::LivenessEnabled => Control::Switch,
        Setting::LbpEntropyMin => Control::Drag {
            min: Scalar { bits: 0x0000_0000 },
            max: Scalar { bits: 0x4100_0000 },
            speed: Scalar { bits: 0x3d4c_cccd },
            decimals: 2,
        },
        Setting::ContrastCvMin => Control::Drag {
            min: Scalar { bits: 0x0000_0000 },
            max: Scalar { bits: 0x3f80_0000 },
            speed: Scalar { bits: 0x3ba3_d70a },
            decimals: 3,
        },
        Setting::ContrastCvMax => Control::Drag {
            min: Scalar { bits: 0x0000_0000 },
            max: Scalar { bits: 0x3fc0_0000 },
            speed: Scalar { bits: 0x3ba3_d70a },
            decimals: 3,
        },
        Setting::DevicePath => Control::Text,
        Setting::CropRightFraction => Control::Slider {
            min: Scalar { bits: 0x3dcc_cccd },
            max: Scalar { bits: 0x3f80_0000 },
            decimals: 2,
        },
        Setting::NotifyEnabled => Control::Switch,
        Setting::NotifyTimeoutMs => Control::Whole { least: 0, most: 30000 },
        Setting::DistanceMin => Control::Drag {
            min: Scalar { bits: 0x3c23_d70a },
            max: Scalar { bits: 0x3f00_0000 },
            speed: Scalar { bits: 0x3ba3_d70a },
            decimals: 3,
        },
        Setting::DistanceMax => Control::Drag {
            min: Scalar { bits: 0x3dcc_cccd },
            max: Scalar { bits: 0x4000_0000 },
            speed: Scalar { bits: 0x3ba3_d70a },
            decimals: 3,
        },
        Setting::YawMaxDeg => Control::Drag {
            min: Scalar { bits: 0x4120_0000 },
            max: Scalar { bits: 0x42b4_0000 },
            speed: Scalar { bits: 0x3f80_0000 },
            decimals: 0,
        },
        Setting::PitchMaxDeg => Control::Drag {
            min: Scalar { bits: 0x4120_0000 },
            max: Scalar { bits: 0x42b4_0000 },
            speed: Scalar { bits: 0x3f80_0000 },
            decimals: 0,
        },
        Setting::RollMaxDeg => Control::Drag {
            min: Scalar { bits: 0x40a0_0000 },
            max: Scalar { bits: 0x4270_0000 },
            speed: Scalar { bits: 0x3f80_0000 },
            decimals: 0,
        },
    }
}

impl Setting {
    /// All settings of the tab, in order.
    pub fn all() -> (r: Vec<Setting>)
        ensures
            r@ == all_settings(),
    {
        vec![
            Setting::Threshold,
            Setting::FramesRequired,
            Setting::MaxEnrollment,
            Setting::SessionTimeoutS,
            Setting::ExecutionProvider,
            Setting::LivenessEnabled,
            Setting::LbpEntropyMin,
            Setting::ContrastCvMin,
            Setting::ContrastCvMax,
            Setting::DevicePath,
            Setting::CropRightFraction,
            Setting::NotifyEnabled,
            Setting::NotifyTimeoutMs,
            Setting::DistanceMin,
            Setting::DistanceMax,
            Setting::YawMaxDeg,
            Setting::PitchMaxDeg,
            Setting::RollMaxDeg,
        ]
    }

    /// The section in which the setting stands.
    pub fn section(self) -> (r: &'static str)
        ensures
            r@ == section_text(self),
    {
        match self {
            Setting::Threshold => "Recognition",
            Setting::FramesRequired => "Recognition",
            Setting::MaxEnrollment => "Recognition",
            Setting::SessionTimeoutS => "Daemon",
            Setting::ExecutionProvider => "Daemon",
            Setting::LivenessEnabled => "Liveness",
            Setting::LbpEntropyMin => "Liveness",
            Setting::ContrastCvMin => "Liveness",
            Setting::ContrastCvMax => "Liveness",
            Setting::DevicePath => "Camera",
            Setting::CropRightFraction => "Camera",
            Setting::NotifyEnabled => "Notifications",
            Setting::NotifyTimeoutMs => "Notifications",
            Setting::DistanceMin => "Geometry",
            Setting::DistanceMax => "Geometry",
            Setting::YawMaxDeg => "Geometry",
            Setting::PitchMaxDeg => "Geometry",
            Setting::RollMaxDeg => "Geometry",
        }
    }

    /// What stands in front of the setting.
    pub fn label(self) -> (r: &'static str)
        ensures
            r@ == label_text(self),
    {
        match self {
            Setting::Threshold => "Threshold",
            Setting::FramesRequired => "Frames required",
            Setting::MaxEnrollment => "Max enrollment",
            Setting::SessionTimeoutS => "Session timeout (s)",
            Setting::ExecutionProvider => "Execution provider",
            Setting::LivenessEnabled => "Enabled",
            Setting::LbpEntropyMin => "LBP entropy min",
            Setting::ContrastCvMin => "Contrast CV min",
            Setting::ContrastCvMax => "Contrast CV max",
            Setting::DevicePath => "Device path",
            Setting::CropRightFraction => "Crop right fraction",
            Setting::NotifyEnabled => "Enabled",
            Setting::NotifyTimeoutMs => "Timeout (ms)",
            Setting::DistanceMin => "Distance min",
            Setting::DistanceMax => "Distance max",
            Setting::YawMaxDeg => "Yaw max (°)",
            Setting::PitchMaxDeg => "Pitch max (°)",
            Setting::RollMaxDeg => "Roll max (°)",
        }
    }

    /// How the setting is changed, and within which limits.
    pub fn control(self) -> (r: Control)
        ensures
            r == control_of(self),
    {
        match self {
            Setting::Threshold => Control::Drag {
                min: Scalar { bits: 0x3e99_999a },
                max: Scalar { bits: 0x3f7d_70a4 },
                speed: Scalar { bits: 0x3ba3_d70a },
                decimals: 3,
            },
            Setting::FramesRequired => Control::Whole { least: 1, most: 10 },
            Setting::MaxEnrollment => Control::Whole { least: 1, most: 100 },
            Setting::SessionTimeoutS => Control::Whole { least: 3, most: 60 },
            Setting::ExecutionProvider => Control::Choice,
            Setting::LivenessEnabled => Control::Switch,
            Setting::LbpEntropyMin => Control::Drag {
                min: Scalar { bits: 0x0000_0000 },
                max: Scalar { bits: 0x4100_0000 },
                speed: Scalar { bits: 0x3d4c_cccd },
                decimals: 2,
            },
            Setting::ContrastCvMin => Control::Drag {
                min: Scalar { bits: 0x0000_0000 },
                max: Scalar { bits: 0x3f80_0000 },
                speed: Scalar { bits: 0x3ba3_d70a },
                decimals: 3,
            },
            Setting::ContrastCvMax => Control::Drag {
                min: Scalar { bits: 0x0000_0000 },
                max: Scalar { bits: 0x3fc0_0000 },
                speed: Scalar { bits: 0x3ba3_d70a },
                decimals: 3,
            },
            Setting::DevicePath => Control::Text,
            Setting::CropRightFraction => Control::Slider {
                min: Scalar { bits: 0x3dcc_cccd },
                max: Scalar { bits: 0x3f80_0000 },
                decimals: 2,
            },
            Setting::NotifyEnabled => Control::Switch,
            Setting::NotifyTimeoutMs => Control::Whole { least: 0, most: 30000 },
            Setting::DistanceMin => Control::Drag {
                min: Scalar { bits: 0x3c23_d70a },
                max: Scalar { bits: 0x3f00_0000 },
                speed: Scalar { bits: 0x3ba3_d70a },
                decimals: 3,
            },
            Setting::DistanceMax => Control::Drag {
                min: Scalar { bits: 0x3dcc_cccd },
                max: Scalar { bits: 0x4000_0000 },
                speed: Scalar { bits: 0x3ba3_d70a },
                decimals: 3,
            },
            Setting::YawMaxDeg => Control::Drag {
                min: Scalar { bits: 0x4120_0000 },
                max: Scalar { bits: 0x42b4_0000 },
                speed: Scalar { bits: 0x3f80_0000 },
                decimals: 0,
            },
            Setting::PitchMaxDeg => Control::Drag {
                min: Scalar { bits: 0x4120_0000 },
                max: Scalar { bits: 0x42b4_0000 },
                speed: Scalar { bits: 0x3f80_0000 },
                decimals: 0,
            },
            Setting::RollMaxDeg => Control::Drag {
                min: Scalar { bits: 0x40a0_0000 },
                max: Scalar { bits: 0x4270_0000 },
                speed: Scalar { bits: 0x3f80_0000 },
                decimals: 0,
            },
        }
    }
}

/// The execution providers to choose from.
pub fn provider_choices() -> (r: Vec<&'static str>)
    ensures
        r@.len() == 4,
        r@[0]@ == "cpu"@,
        r@[1]@ == "rocm"@,
        r@[2]@ == "cuda"@,
        r@[3]@ == "xdna"@,
{
    vec!["cpu", "rocm", "cuda", "xdna"]
}

/// The limits of every number are in order.
pub proof fn limits_are_in_order(s: Setting)
    ensures
        match control_of(s) {
            Control::Drag { min, max, .. } => min.below(max),
            Control::Slider { min, max, .. } => min.below(max),
            Control::Whole { least, most } => least < most,
            _ => true,
        },
{
}

/// The tab.
#[derive(Debug)]
pub struct ConfigureTab {
    /// Whether there are changes that are not saved.
    pub dirty: bool,
    /// How the last saving went.
    pub save_status: Option<Result<String, String>>,
}

/// Why the settings could not be saved.
#[derive(Debug)]
pub enum SaveError {
    Serialize(String),
    Write(String),
}

/// Whether the two hold different values of a setting that counts as a change. The geometry does
/// not count.
pub open spec fn changed(a: Config, b: Config) -> bool {
    ||| a.recognition.threshold.spec_differs(b.recognition.threshold)
    ||| a.recognition.frames_required != b.recognition.frames_required
    ||| a.recognition.max_enrollment != b.recognition.max_enrollment
    ||| a.daemon.session_timeout_s != b.daemon.session_timeout_s
    ||| a.daemon.execution_provider@ != b.daemon.execution_provider@
    ||| a.liveness.enabled != b.liveness.enabled
    ||| a.liveness.lbp_entropy_min.spec_differs(b.liveness.lbp_entropy_min)
    ||| a.liveness.local_contrast_cv_min.spec_differs(b.liveness.local_contrast_cv_min)
    ||| a.liveness.local_contrast_cv_max.spec_differs(b.liveness.local_contrast_cv_max)
    ||| a.camera.crop_right_fraction.spec_differs(b.camera.crop_right_fraction)
    ||| a.camera.device_path@ != b.camera.device_path@
    ||| a.notify.enabled != b.notify.enabled
    ||| a.notify.timeout_ms != b.notify.timeout_ms
}

fn is_changed(a: &Config, b: &Config) -> (r: bool)
    ensures
        r == changed(*a, *b),
{
    a.recognition.threshold.differs(b.recognition.threshold) || a.recognition.frames_required
        != b.recognition.frames_required || a.recognition.max_enrollment
        != b.recognition.max_enrollment || a.daemon.session_timeout_s != b.daemon.session_timeout_s
        || !crate::text::same(
        a.daemon.execution_provider.as_str(),
        b.daemon.execution_provider.as_str(),
    ) || a.liveness.enabled != b.liveness.enabled || a.liveness.lbp_entropy_min.differs(
        b.liveness.lbp_entropy_min,
    ) || a.liveness.local_contrast_cv_min.differs(b.liveness.local_contrast_cv_min)
        || a.liveness.local_contrast_cv_max.differs(b.liveness.local_contrast_cv_max)
        || a.camera.crop_right_fraction.differs(b.camera.crop_right_fraction)
        || !crate::text::same(a.camera.device_path.as_str(), b.camera.device_path.as_str())
        || a.notify.enabled != b.notify.enabled || a.notify.timeout_ms != b.notify.timeout_ms
}

impl ConfigureTab {
    /// A tab without changes.
    pub fn new() -> (r: ConfigureTab)
        ensures
            !r.dirty,
            r.save_status is None,
    {
        ConfigureTab { dirty: false, save_status: None }
    }

    /// Notes what the person has changed.
    pub fn edited(&mut self, prev: &Config, config: &Config)
        ensures
            if changed(*config, *prev) {
                final(self).dirty && final(self).save_status is None
            } else {
                *final(self) == *old(self)
            },
    {
        if is_changed(config, prev) {
            self.dirty = true;
            self.save_status = None;
        }
    }

    /// What stands on the button.
    pub fn save_label(&self) -> (r: &'static str)
        ensures
            r@ == if self.dirty {
                "Save *"@
            } else {
                "Save"@
            },
    {
        if self.dirty {
            "Save *"
        } else {
            "Save"
        }
    }

    /// Notes how saving went.
    pub fn saved(&mut self, result: Result<(), SaveError>)
        ensures
            match result {
                Ok(()) => !final(self).dirty && (final(self).save_status matches Some(Ok(t)) && t@
                    == "Saved to /etc/face-auth/config.toml"@),
                Err(SaveError::Serialize(e)) => final(self).dirty == old(self).dirty && (final(self).save_status matches Some(Err(t)) && t@ == "Serialize failed: "@ + e@),
                Err(SaveError::Write(e)) => final(self).dirty == old(self).dirty && (final(self).save_status matches Some(Err(t)) && t@ == "Write failed: "@ + e@
                    + "\n(Need root — run with sudo)"@),
            },
    {
        match result {
            Ok(()) => {
                self.save_status = Some(Ok("Saved to /etc/face-auth/config.toml".to_owned()));
                self.dirty = false;
            },
            Err(SaveError::Serialize(e)) => {
                let mut t: String = "Serialize failed: ".to_owned();
                t.append(e.as_str());
                self.save_status = Some(Err(t));
            },
            Err(SaveError::Write(e)) => {
                let mut t: String = "Write failed: ".to_owned();
                t.append(e.as_str());
                t.append("\n(Need root — run with sudo)");
                self.save_status = Some(Err(t));
            },
        }
    }
}

/// Whether two values of a setting are alike. Numbers with a fraction are where they stand for the
/// same number.
pub open spec fn alike(a: crate::configure::ValView, b: crate::configure::ValView) -> bool {
    match (a, b) {
        (crate::configure::ValView::F32(x), crate::configure::ValView::F32(y)) => !x.spec_differs(y),
        _ => a == b,
    }
}

/// Whether a change of a setting counts: not in the geometry, and not where the tab does not show it.
pub open spec fn counts(id: crate::configure::FieldId) -> bool {
    &&& crate::configure::section_text(id) != "geometry"@
    &&& crate::configure::section_text(id) != "logging"@
    &&& id != crate::configure::FieldId::IdleUnloadS
    &&& id != crate::configure::FieldId::FlushFrames
}

/// The settings have changed exactly where one that counts has, or the part of the picture that is
/// kept.
pub proof fn each_setting_counts(a: Config, b: Config)
    ensures
        changed(a, b) <==> a.camera.crop_right_fraction.spec_differs(b.camera.crop_right_fraction)
            || exists|id: crate::configure::FieldId|
            counts(id) && !alike(
                #[trigger] crate::configure::setting(a, id),
                crate::configure::setting(b, id),
            ),
{
    reveal_strlit("daemon");
    reveal_strlit("camera");
    reveal_strlit("recognition");
    reveal_strlit("liveness");
    reveal_strlit("geometry");
    reveal_strlit("logging");
    reveal_strlit("notify");
    assert("daemon"@.len() == 6 && "camera"@.len() == 6 && "recognition"@.len() == 11 && "notify"@.len()
        == 6);
    assert("liveness"@.len() == 8 && "geometry"@.len() == 8 && "logging"@.len() == 7);
    assert("liveness"@[0] != "geometry"@[0]);
    assert(crate::configure::setting(a, crate::configure::FieldId::Threshold) is F32);
    assert(crate::configure::setting(a, crate::configure::FieldId::FramesRequired) is U32);
    assert(crate::configure::setting(a, crate::configure::FieldId::MaxEnrollment) is U32);
    assert(crate::configure::setting(a, crate::configure::FieldId::SessionTimeoutS) is U64);
    assert(crate::configure::setting(a, crate::configure::FieldId::ExecutionProvider) is Str);
    assert(crate::configure::setting(a, crate::configure::FieldId::LivenessEnabled) is Bool);
    assert(crate::configure::setting(a, crate::configure::FieldId::LbpEntropyMin) is F32);
    assert(crate::configure::setting(a, crate::configure::FieldId::ContrastCvMin) is F32);
    assert(crate::configure::setting(a, crate::configure::FieldId::ContrastCvMax) is F32);
    assert(crate::configure::setting(a, crate::configure::FieldId::DevicePath) is Str);
    assert(crate::configure::setting(a, crate::configure::FieldId::NotifyEnabled) is Bool);
    assert(crate::configure::setting(a, crate::configure::FieldId::NotifyTimeoutMs) is I32);
}

/// The value of a setting that is a number with a fraction, where it is.
pub open spec fn fraction_of(c: Config, s: Setting) -> Option<Scalar> {
    match s {
        Setting::Threshold => Some(c.recognition.threshold),
        Setting::LbpEntropyMin => Some(c.liveness.lbp_entropy_min),
        Setting::ContrastCvMin => Some(c.liveness.local_contrast_cv_min),
        Setting::ContrastCvMax => Some(c.liveness.local_contrast_cv_max),
        Setting::CropRightFraction => Some(c.camera.crop_right_fraction),
        Setting::DistanceMin => Some(c.geometry.distance_min),
        Setting::DistanceMax => Some(c.geometry.distance_max),
        Setting::YawMaxDeg => Some(c.geometry.yaw_max_deg),
        Setting::PitchMaxDeg => Some(c.geometry.pitch_max_deg),
        Setting::RollMaxDeg => Some(c.geometry.roll_max_deg),
        _ => None,
    }
}

/// The value of a setting that is a whole number, where it is.
pub open spec fn whole_of(c: Config, s: Setting) -> Option<int> {
    match s {
        Setting::FramesRequired => Some(c.recognition.frames_required as int),
        Setting::MaxEnrollment => Some(c.recognition.max_enrollment as int),
        Setting::SessionTimeoutS => Some(c.daemon.session_timeout_s as int),
        Setting::NotifyTimeoutMs => Some(c.notify.timeout_ms as int),
        _ => None,
    }
}

/// Every setting is changed in the way that suits its value, within limits that its default keeps.
pub proof fn defaults_lie_within_the_limits(c: Config, s: Setting)
    requires
        c.is_default(),
    ensures
        fraction_of(c, s) is Some <==> control_of(s) is Drag || control_of(s) is Slider,
        whole_of(c, s) is Some <==> control_of(s) is Whole,
        control_of(s) matches Control::Drag { min, max, speed, .. } ==> fraction_of(c, s)->0.reaches(min)
            && max.reaches(fraction_of(c, s)->0) && (Scalar { bits: 0 }).below(speed),
        control_of(s) matches Control::Slider { min, max, .. } ==> fraction_of(c, s)->0.reaches(min)
            && max.reaches(fraction_of(c, s)->0),
        control_of(s) matches Control::Whole { least, most } ==> least <= whole_of(c, s)->0 <= most,
        control_of(s) is Switch <==> s == Setting::LivenessEnabled || s == Setting::NotifyEnabled,
        control_of(s) is Choice <==> s == Setting::ExecutionProvider,
        control_of(s) is Text <==> s == Setting::DevicePath,
{
}

} // verus!
