//! The settings of the service and their defaults.
use crate::scalar::Scalar;
use vstd::prelude::*;

verus! {

/// All settings.
#[derive(Debug)]
pub struct Config {
    pub platform: PlatformConfig,
    pub daemon: DaemonConfig,
    pub camera: CameraConfig,
    pub recognition: RecognitionConfig,
    pub liveness: LivenessConfig,
    pub geometry: GeometryConfig,
    pub logging: LoggingConfig,
    pub notify: NotifyConfig,
}

#[derive(Debug)]
pub struct PlatformConfig {
    pub display_manager: String,
    pub init_system: String,
    pub selinux: bool,
}

#[derive(Debug)]
pub struct DaemonConfig {
    pub socket_path: String,
    pub ui_socket_path: String,
    pub session_timeout_s: u64,
    pub idle_unload_s: u64,
    pub max_concurrent: u32,
    /// ONNX Runtime execution provider: "cpu", "rocm", "cuda", "xdna".
    pub execution_provider: String,
}

#[derive(Debug)]
pub struct CameraConfig {
    pub device_path: String,
    pub flush_frames: u32,
    /// The part of the frame's width that is used, from the left.
    pub crop_right_fraction: Scalar,
}

#[derive(Debug)]
pub struct RecognitionConfig {
    pub model: String,
    pub threshold: Scalar,
    pub frames_required: u32,
    pub max_enrollment: u32,
}

#[derive(Debug)]
pub struct LivenessConfig {
    pub enabled: bool,
    /// Least entropy of the local binary patterns of a live face.
    pub lbp_entropy_min: Scalar,
    /// Least variation of local contrast of a live face.
    pub local_contrast_cv_min: Scalar,
    /// Greatest variation of local contrast of a live face.
    pub local_contrast_cv_max: Scalar,
    /// Whether the anti-spoofing model runs too (for colour cameras).
    pub model_enabled: bool,
    pub model: String,
    pub model_threshold: Scalar,
}

#[derive(Debug, Clone, Copy, PartialEq, Eq, Structural)]
pub struct GeometryConfig {
    pub distance_min: Scalar,
    pub distance_max: Scalar,
    pub yaw_max_deg: Scalar,
    pub pitch_max_deg: Scalar,
    pub roll_max_deg: Scalar,
    pub guidance_debounce_ms: u64,
}

#[derive(Debug)]
pub struct LoggingConfig {
    pub level: String,
}

#[derive(Debug, Clone, Copy, PartialEq, Eq, Structural)]
pub struct NotifyConfig {
    /// Whether a desktop notification follows a successful authentication.
    pub enabled: bool,
    /// How long the notification stays, in milliseconds (0: as the server likes).
    pub timeout_ms: i32,
}

impl PlatformConfig {
    /// Whether these are the default settings.
    pub open spec fn is_default(self) -> bool {
        &&& self.display_manager@ == "sddm"@
        &&& self.init_system@ == "systemd"@
        &&& self.selinux
    }

    /// Whether the two hold the same settings.
    pub open spec fn same(self, other: PlatformConfig) -> bool {
        &&& self.display_manager@ == other.display_manager@
        &&& self.init_system@ == other.init_system@
        &&& self.selinux == other.selinux
    }
}

impl Clone for PlatformConfig {
    fn clone(&self) -> (r: Self)
        ensures
            self.same(r),
    {
        PlatformConfig {
            display_manager: self.display_manager.clone(),
            init_system: self.init_system.clone(),
            selinux: self.selinux,
        }
    }
}

impl Default for PlatformConfig {
    fn default() -> (r: Self)
        ensures
            r.is_default(),
    {
        PlatformConfig {
            display_manager: "sddm".to_owned(),
            init_system: "systemd".to_owned(),
            selinux: true,
        }
    }
}

impl DaemonConfig {
    /// Whether these are the default settings.
    pub open spec fn is_default(self) -> bool {
        &&& self.socket_path@ == "/run/face-auth/pam.sock"@
        &&& self.ui_socket_path@ == "/run/face-auth/ui.sock"@
        &&& self.session_timeout_s == 7
        &&& self.idle_unload_s == 0
        &&& self.max_concurrent == 1
        &&& self.execution_provider@ == "cpu"@
    }

    /// Whether the two hold the same settings.
    pub open spec fn same(self, other: DaemonConfig) -> bool {
        &&& self.socket_path@ == other.socket_path@
        &&& self.ui_socket_path@ == other.ui_socket_path@
        &&& self.session_timeout_s == other.session_timeout_s
        &&& self.idle_unload_s == other.idle_unload_s
        &&& self.max_concurrent == other.max_concurrent
        &&& self.execution_provider@ == other.execution_provider@
    }
}

impl Clone for DaemonConfig {
    fn clone(&self) -> (r: Self)
        ensures
            self.same(r),
    {
        DaemonConfig {
            socket_path: self.socket_path.clone(),
            ui_socket_path: self.ui_socket_path.clone(),
            session_timeout_s: self.session_timeout_s,
            idle_unload_s: self.idle_unload_s,
            max_concurrent: self.max_concurrent,
            execution_provider: self.execution_provider.clone(),
        }
    }
}

impl Default for DaemonConfig {
    fn default() -> (r: Self)
        ensures
            r.is_default(),
    {
        DaemonConfig {
            socket_path: "/run/face-auth/pam.sock".to_owned(),
            ui_socket_path: "/run/face-auth/ui.sock".to_owned(),
            session_timeout_s: 7,
            idle_unload_s: 0,
            max_concurrent: 1,
            execution_provider: "cpu".to_owned(),
        }
    }
}

impl CameraConfig {
    /// Whether these are the default settings: detect the camera, skip no frame, use the whole
    /// width (1.0).
    pub open spec fn is_default(self) -> bool {
        &&& self.device_path@ == Seq::<char>::empty()
        &&& self.flush_frames == 0
        &&& self.crop_right_fraction.bits == 0x3f80_0000
    }

    /// Whether the two hold the same settings.
    pub open spec fn same(self, other: CameraConfig) -> bool {
        &&& self.device_path@ == other.device_path@
        &&& self.flush_frames == other.flush_frames
        &&& self.crop_right_fraction == other.crop_right_fraction
    }
}

impl Clone for CameraConfig {
    fn clone(&self) -> (r: Self)
        ensures
            self.same(r),
    {
        CameraConfig {
            device_path: self.device_path.clone(),
            flush_frames: self.flush_frames,
            crop_right_fraction: self.crop_right_fraction,
        }
    }
}

impl Default for CameraConfig {
    fn default() -> (r: Self)
        ensures
            r.is_default(),
    {
        CameraConfig {
            device_path: String::new(),
            flush_frames: 0,
            crop_right_fraction: Scalar { bits: 0x3f80_0000 },
        }
    }
}

impl RecognitionConfig {
    /// Whether these are the default settings: threshold 0.70, two frames, twenty models.
    pub open spec fn is_default(self) -> bool {
        &&& self.model@ == "arcface_r50"@
        &&& self.threshold.bits == 0x3f33_3333
        &&& self.frames_required == 2
        &&& self.max_enrollment == 20
    }

    /// Whether the two hold the same settings.
    pub open spec fn same(self, other: RecognitionConfig) -> bool {
        &&& self.model@ == other.model@
        &&& self.threshold == other.threshold
        &&& self.frames_required == other.frames_required
        &&& self.max_enrollment == other.max_enrollment
    }
}

impl Clone for RecognitionConfig {
    fn clone(&self) -> (r: Self)
        ensures
            self.same(r),
    {
        RecognitionConfig {
            model: self.model.clone(),
            threshold: self.threshold,
            frames_required: self.frames_required,
            max_enrollment: self.max_enrollment,
        }
    }
}

impl Default for RecognitionConfig {
    fn default() -> (r: Self)
        ensures
            r.is_default(),
    {
        RecognitionConfig {
            model: "arcface_r50".to_owned(),
            threshold: Scalar { bits: 0x3f33_3333 },
            frames_required: 2,
            max_enrollment: 20,
        }
    }
}

impl LivenessConfig {
    /// Whether these are the default settings: entropy from 5.5, contrast variation from 0.20
    /// to 0.80, the model off with threshold 0.5.
    pub open spec fn is_default(self) -> bool {
        &&& self.enabled
        &&& self.lbp_entropy_min.bits == 0x40b0_0000
        &&& self.local_contrast_cv_min.bits == 0x3e4c_cccd
        &&& self.local_contrast_cv_max.bits == 0x3f4c_cccd
        &&& !self.model_enabled
        &&& self.model@ == "minifasnet_v2"@
        &&& self.model_threshold.bits == 0x3f00_0000
    }

    /// Whether the two hold the same settings.
    pub open spec fn same(self, other: LivenessConfig) -> bool {
        &&& self.enabled == other.enabled
        &&& self.lbp_entropy_min == other.lbp_entropy_min
        &&& self.local_contrast_cv_min == other.local_contrast_cv_min
        &&& self.local_contrast_cv_max == other.local_contrast_cv_max
        &&& self.model_enabled == other.model_enabled
        &&& self.model@ == other.model@
        &&& self.model_threshold == other.model_threshold
    }
}

impl Clone for LivenessConfig {
    fn clone(&self) -> (r: Self)
        ensures
            self.same(r),
    {
        LivenessConfig {
            enabled: self.enabled,
            lbp_entropy_min: self.lbp_entropy_min,
            local_contrast_cv_min: self.local_contrast_cv_min,
            local_contrast_cv_max: self.local_contrast_cv_max,
            model_enabled: self.model_enabled,
            model: self.model.clone(),
            model_threshold: self.model_threshold,
        }
    }
}

impl Default for LivenessConfig {
    fn default() -> (r: Self)
        ensures
            r.is_default(),
    {
        LivenessConfig {
            enabled: true,
            lbp_entropy_min: Scalar { bits: 0x40b0_0000 },
            local_contrast_cv_min: Scalar { bits: 0x3e4c_cccd },
            local_contrast_cv_max: Scalar { bits: 0x3f4c_cccd },
            model_enabled: false,
            model: "minifasnet_v2".to_owned(),
            model_threshold: Scalar { bits: 0x3f00_0000 },
        }
    }
}

impl GeometryConfig {
    /// Whether these are the default settings: width ratio from 0.06 to 0.55, yaw and pitch up
    /// to 45, roll up to 35 degrees, 100 ms between two pieces of guidance.
    pub open spec fn is_default(self) -> bool {
        &&& self.distance_min.bits == 0x3d75_c28f
        &&& self.distance_max.bits == 0x3f0c_cccd
        &&& self.yaw_max_deg.bits == 0x4234_0000
        &&& self.pitch_max_deg.bits == 0x4234_0000
        &&& self.roll_max_deg.bits == 0x420c_0000
        &&& self.guidance_debounce_ms == 100
    }
}

impl Default for GeometryConfig {
    fn default() -> (r: Self)
        ensures
            r.is_default(),
    {
        GeometryConfig {
            distance_min: Scalar { bits: 0x3d75_c28f },
            distance_max: Scalar { bits: 0x3f0c_cccd },
            yaw_max_deg: Scalar { bits: 0x4234_0000 },
            pitch_max_deg: Scalar { bits: 0x4234_0000 },
            roll_max_deg: Scalar { bits: 0x420c_0000 },
            guidance_debounce_ms: 100,
        }
    }
}

impl LoggingConfig {
    /// Whether these are the default settings.
    pub open spec fn is_default(self) -> bool {
        self.level@ == "info"@
    }

    /// Whether the two hold the same settings.
    pub open spec fn same(self, other: LoggingConfig) -> bool {
        self.level@ == other.level@
    }
}

impl Clone for LoggingConfig {
    fn clone(&self) -> (r: Self)
        ensures
            self.same(r),
    {
        LoggingConfig {
            level: self.level.clone(),
        }
    }
}

impl Default for LoggingConfig {
    fn default() -> (r: Self)
        ensures
            r.is_default(),
    {
        LoggingConfig { level: "info".to_owned() }
    }
}

impl NotifyConfig {
    /// Whether these are the default settings: off, three seconds.
    pub open spec fn is_default(self) -> bool {
        &&& !self.enabled
        &&& self.timeout_ms == 3000
    }
}

impl Default for NotifyConfig {
    fn default() -> (r: Self)
        ensures
            r.is_default(),
    {
        NotifyConfig { enabled: false, timeout_ms: 3000 }
    }
}

impl Config {
    /// Whether these are the default settings.
    pub open spec fn is_default(self) -> bool {
        &&& self.platform.is_default()
        &&& self.daemon.is_default()
        &&& self.camera.is_default()
        &&& self.recognition.is_default()
        &&& self.liveness.is_default()
        &&& self.geometry.is_default()
        &&& self.logging.is_default()
        &&& self.notify.is_default()
    }

    /// Whether the two hold the same settings.
    pub open spec fn same(self, other: Config) -> bool {
        &&& self.platform.same(other.platform)
        &&& self.daemon.same(other.daemon)
        &&& self.camera.same(other.camera)
        &&& self.recognition.same(other.recognition)
        &&& self.liveness.same(other.liveness)
        &&& self.geometry == other.geometry
        &&& self.logging.same(other.logging)
        &&& self.notify == other.notify
    }

    /// The settings to use, given what the settings file held: the defaults where there is no
    /// file, else what was read from it.
    pub fn load(file: Option<Result<Config, String>>) -> (r: Result<Config, ConfigError>)
        ensures
            match file {
                None => r matches Ok(c) && c.is_default(),
                Some(Ok(c)) => r == Ok::<Config, ConfigError>(c),
                Some(Err(e)) => r matches Err(ConfigError::Parse(t)) && t == e,
            },
    {
        match file {
            None => Ok(Config::default()),
            Some(Ok(c)) => Ok(c),
            Some(Err(e)) => Err(ConfigError::Parse(e)),
        }
    }

    /// Where the settings file of the system is.
    pub fn system_path() -> (r: &'static str)
        ensures
            r@ == "/etc/face-auth/config.toml"@,
    {
        "/etc/face-auth/config.toml"
    }
}

impl Clone for Config {
    fn clone(&self) -> (r: Self)
        ensures
            self.same(r),
    {
        Config {
            platform: self.platform.clone(),
            daemon: self.daemon.clone(),
            camera: self.camera.clone(),
            recognition: self.recognition.clone(),
            liveness: self.liveness.clone(),
            geometry: self.geometry,
            logging: self.logging.clone(),
            notify: self.notify,
        }
    }
}

impl Default for Config {
    fn default() -> (r: Self)
        ensures
            r.is_default(),
    {
        Config {
            platform: PlatformConfig::default(),
            daemon: DaemonConfig::default(),
            camera: CameraConfig::default(),
            recognition: RecognitionConfig::default(),
            liveness: LivenessConfig::default(),
            geometry: GeometryConfig::default(),
            logging: LoggingConfig::default(),
            notify: NotifyConfig::default(),
        }
    }
}

/// Why the settings could not be read.
#[derive(Debug)]
pub enum ConfigError {
    Parse(String),
}

impl ConfigError {
    /// The error in words.
    pub fn message(&self) -> (r: String)
        ensures
            match self {
                ConfigError::Parse(e) => r@ == "failed to parse config: "@ + e@,
            },
    {
        match self {
            ConfigError::Parse(e) => {
                let mut r: String = "failed to parse config: ".to_owned();
                r.append(e.as_str());
                r
            },
        }
    }
}

/// What a reload of the settings changes.
#[derive(Debug, Clone, Copy, PartialEq, Eq, Structural)]
pub enum Reload {
    /// The file could not be read: the settings in force stay.
    Keep,
    /// The new settings take effect.
    Swap {
        /// Whether the models have to be loaded again for another execution provider.
        reload_models: bool,
    },
}

/// Decides what a reload changes, given the settings in force and those that were read.
pub fn plan_reload(current: &Config, loaded: &Result<Config, ConfigError>) -> (r: Reload)
    ensures
        match loaded {
            Err(_) => r == Reload::Keep,
            Ok(new) => r == (Reload::Swap {
                reload_models: new.daemon.execution_provider@ != current.daemon.execution_provider@,
            }),
        },
{
    match loaded {
        Err(_) => Reload::Keep,
        Ok(new) => {
            let same = crate::text::same(
                new.daemon.execution_provider.as_str(),
                current.daemon.execution_provider.as_str(),
            );
            Reload::Swap { reload_models: !same }
        },
    }
}

/// A file that cannot be read changes nothing. The models are loaded again exactly where the provider
/// changes.
pub proof fn reload_follows_the_provider(current: Config, loaded: Result<Config, ConfigError>, r: Reload)
    requires
        call_ensures(plan_reload, (&current, &loaded), r),
    ensures
        loaded is Err <==> r == Reload::Keep,
        loaded is Ok ==> (r == Reload::Swap { reload_models: false } <==> current.daemon.execution_provider@
            == loaded->Ok_0.daemon.execution_provider@),
{
}

} // verus!
