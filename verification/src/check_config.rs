//! The check of an installation: what is reported of each part.
use crate::config::Config;
use crate::enrollment::ENROLLMENT_VERSION;
use crate::models::{file_name, Model};
use crate::scalar::Scalar;
use crate::text::{decimal, decimal_of};
use vstd::prelude::*;

verus! {

/// How grave a line of the report is.
#[derive(Debug, Clone, Copy, PartialEq, Eq, Structural)]
pub enum Level {
    Pass,
    Fail,
    Warn,
    Skip,
}

/// A line of the report.
#[derive(Debug)]
pub struct Line {
    pub level: Level,
    pub text: String,
}

/// A line of the report with its text as a sequence of characters.
pub type LineView = (Level, Seq<char>);

impl View for Line {
    type V = LineView;

    open spec fn view(&self) -> LineView {
        (self.level, self.text@)
    }
}

/// The lines of a report.
pub open spec fn views(ls: Seq<Line>) -> Seq<LineView> {
    Seq::new(ls.len(), |i: int| ls[i]@)
}

/// What stands in front of a line on a terminal.
pub fn tag(level: Level) -> (r: &'static str)
    ensures
        r@ == match level {
            Level::Pass => "\x1b[32m[OK]\x1b[0m "@,
            Level::Fail => "\x1b[31m[FAIL]\x1b[0m "@,
            Level::Warn => "\x1b[33m[WARN]\x1b[0m "@,
            Level::Skip => "\x1b[90m[SKIP]\x1b[0m "@,
        },
{
    match level {
        Level::Pass => "\x1b[32m[OK]\x1b[0m ",
        Level::Fail => "\x1b[31m[FAIL]\x1b[0m ",
        Level::Warn => "\x1b[33m[WARN]\x1b[0m ",
        Level::Skip => "\x1b[90m[SKIP]\x1b[0m ",
    }
}

/// What was found of the settings file.
#[derive(Debug)]
pub enum ConfigFile {
    Missing,
    Loaded,
    /// It could not be read; the text says why.
    Broken(String),
}

/// What was found of the camera.
#[derive(Debug)]
pub enum CameraCheck {
    Works { path: String, width: u32, height: u32 },
    NoFormat { path: String, error: String },
    NoOpen { path: String, error: String },
    NotFound(String),
}

/// What was found of the emitter's configuration.
#[derive(Debug)]
pub enum EmitterCheck {
    Found { path: String, unit: u8, selector: u8 },
    /// It could not be read; the text says why.
    Broken(String),
    Missing,
}

/// What was found of an installation.
#[derive(Debug)]
pub struct Facts {
    pub config_file: ConfigFile,
    pub detection_model: bool,
    pub recognition_model: bool,
    pub liveness_model: bool,
    pub camera: CameraCheck,
    pub emitter: EmitterCheck,
    /// The number of embeddings and their version, where there are any.
    pub enrollment: Option<(usize, u32)>,
    pub socket_exists: bool,
    pub pam_module: bool,
    pub username: String,
    /// The threshold to two digits.
    pub threshold_text: String,
}

// What is reported of each part.

pub open spec fn config_line(f: ConfigFile) -> LineView {
    match f {
        ConfigFile::Loaded => (Level::Pass, "Config: /etc/face-auth/config.toml"@),
        ConfigFile::Broken(e) => (Level::Fail, "Config parse error: "@ + e@),
        ConfigFile::Missing => (
            Level::Warn,
            "Config not found at /etc/face-auth/config.toml (using defaults)"@,
        ),
    }
}

/// What a model is called.
pub open spec fn model_name(m: Model) -> Seq<char> {
    match m {
        Model::Detection => "SCRFD detection"@,
        Model::Recognition => "ArcFace recognition"@,
        Model::AntiSpoof => "liveness"@,
    }
}

pub open spec fn model_line(m: Model, found: bool) -> LineView {
    if found {
        (Level::Pass, "Model: "@ + model_name(m) + " ("@ + file_name(m) + ")"@)
    } else {
        (Level::Fail, "Model not found: "@ + file_name(m) + " ("@ + model_name(m) + ")"@)
    }
}

pub open spec fn liveness_model_line(enabled: bool, found: bool) -> LineView {
    if !enabled {
        (Level::Skip, "Model: liveness (model_enabled=false)"@)
    } else if found {
        (Level::Pass, "Model: liveness (antispoof_q.onnx)"@)
    } else {
        (
            Level::Fail,
            "Model not found: antispoof_q.onnx (liveness enabled but model missing)"@,
        )
    }
}

pub open spec fn camera_line(c: CameraCheck) -> LineView {
    match c {
        CameraCheck::Works { path, width, height } => (
            Level::Pass,
            "Camera: "@ + path@ + " ("@ + decimal(width as nat) + "x"@ + decimal(height as nat)
                + ")"@,
        ),
        CameraCheck::NoFormat { path, error } => (
            Level::Fail,
            "Camera "@ + path@ + ": cannot get format: "@ + error@,
        ),
        CameraCheck::NoOpen { path, error } => (Level::Fail, "Camera "@ + path@ + ": "@ + error@),
        CameraCheck::NotFound(e) => (Level::Fail, "Camera: "@ + e@),
    }
}

pub open spec fn emitter_line(e: EmitterCheck) -> LineView {
    match e {
        EmitterCheck::Found { path, unit, selector } => (
            Level::Pass,
            "IR emitter: "@ + path@ + " (unit="@ + decimal(unit as nat) + ", selector="@ + decimal(
                selector as nat,
            ) + ")"@,
        ),
        EmitterCheck::Broken(e) => (Level::Warn, "IR emitter config parse error: "@ + e@),
        EmitterCheck::Missing => (
            Level::Warn,
            "IR emitter config not found (may work without it)"@,
        ),
    }
}

pub open spec fn enrollment_line(user: Seq<char>, e: Option<(usize, u32)>) -> LineView {
    match e {
        Some((n, v)) => if v < ENROLLMENT_VERSION {
            (
                Level::Warn,
                "Enrollment: "@ + user + " ("@ + decimal(n as nat) + " embeddings, format v"@
                    + decimal(v as nat) + " — stale, re-enroll for best accuracy)"@,
            )
        } else {
            (
                Level::Pass,
                "Enrollment: "@ + user + " ("@ + decimal(n as nat) + " embeddings, v"@ + decimal(
                    v as nat,
                ) + ")"@,
            )
        },
        None => (Level::Warn, "Enrollment: no data for '"@ + user + "'"@),
    }
}

pub open spec fn socket_line(path: Seq<char>, exists_: bool) -> LineView {
    if exists_ {
        (Level::Pass, "Daemon: socket exists ("@ + path + ")"@)
    } else {
        (Level::Warn, "Daemon: socket not found (is face-authd running?)"@)
    }
}

pub open spec fn pam_line(found: bool) -> LineView {
    if found {
        (Level::Pass, "PAM module: installed"@)
    } else {
        (Level::Warn, "PAM module: not found (run 'make install')"@)
    }
}

/// What is reported of unusual values: a threshold below 0.5 or above 0.95, a session of less than
/// three seconds.
pub open spec fn sanity_lines(c: Config, threshold_text: Seq<char>) -> Seq<LineView> {
    let low = if c.recognition.threshold.below(Scalar { bits: 0x3f00_0000 }) {
        seq![
            (
                Level::Warn,
                "Threshold "@ + threshold_text + " is low — may allow spoofs"@,
            ),
        ]
    } else {
        Seq::empty()
    };
    let high = if (Scalar { bits: 0x3f73_3333 }).below(c.recognition.threshold) {
        seq![
            (
                Level::Warn,
                "Threshold "@ + threshold_text + " is very high — may reject real faces"@,
            ),
        ]
    } else {
        Seq::empty()
    };
    let short = if c.daemon.session_timeout_s < 3 {
        seq![
            (
                Level::Warn,
                "Timeout "@ + decimal(c.daemon.session_timeout_s as nat) + "s is very short"@,
            ),
        ]
    } else {
        Seq::empty()
    };
    low + high + short
}

/// The whole report.
pub open spec fn report_lines(f: Facts, c: Config) -> Seq<LineView> {
    seq![
        config_line(f.config_file),
        model_line(Model::Detection, f.detection_model),
        model_line(Model::Recognition, f.recognition_model),
        liveness_model_line(c.liveness.model_enabled, f.liveness_model),
        camera_line(f.camera),
        emitter_line(f.emitter),
        enrollment_line(f.username@, f.enrollment),
        socket_line(c.daemon.socket_path@, f.socket_exists),
        pam_line(f.pam_module),
    ] + sanity_lines(c, f.threshold_text@)
}

/// How many lines are as grave as this.
pub open spec fn count_of(ls: Seq<LineView>, level: Level) -> nat
    decreases ls.len(),
{
    if ls.len() == 0 {
        0
    } else {
        count_of(ls.drop_last(), level) + if ls.last().0 == level {
            1nat
        } else {
            0nat
        }
    }
}

fn line(level: Level, text: String) -> (r: Line)
    ensures
        r@ == (level, text@),
{
    Line { level, text }
}

fn say(level: Level, text: &str) -> (r: Line)
    ensures
        r@ == (level, text@),
{
    Line { level, text: text.to_owned() }
}

/// A text made of three.
fn three(a: &str, b: &str, c: &str) -> (r: String)
    ensures
        r@ == a@ + b@ + c@,
{
    let mut r: String = a.to_owned();
    r.append(b);
    r.append(c);
    r
}

fn check_config_file(f: &ConfigFile) -> (r: Line)
    ensures
        r@ == config_line(*f),
{
    match f {
        ConfigFile::Loaded => say(Level::Pass, "Config: /etc/face-auth/config.toml"),
        ConfigFile::Broken(e) => {
            let mut t: String = "Config parse error: ".to_owned();
            t.append(e.as_str());
            line(Level::Fail, t)
        },
        ConfigFile::Missing => say(
            Level::Warn,
            "Config not found at /etc/face-auth/config.toml (using defaults)",
        ),
    }
}

fn name_of(m: Model) -> (r: &'static str)
    ensures
        r@ == model_name(m),
{
    match m {
        Model::Detection => "SCRFD detection",
        Model::Recognition => "ArcFace recognition",
        Model::AntiSpoof => "liveness",
    }
}

fn check_model(m: Model, found: bool) -> (r: Line)
    ensures
        r@ == model_line(m, found),
{
    let (level, mut t, a, b) = if found {
        (Level::Pass, "Model: ".to_owned(), name_of(m), m.file())
    } else {
        (Level::Fail, "Model not found: ".to_owned(), m.file(), name_of(m))
    };
    t.append(a);
    t.append(" (");
    t.append(b);
    t.append(")");
    line(level, t)
}

fn check_liveness_model(enabled: bool, found: bool) -> (r: Line)
    ensures
        r@ == liveness_model_line(enabled, found),
{
    if !enabled {
        say(Level::Skip, "Model: liveness (model_enabled=false)")
    } else if found {
        say(Level::Pass, "Model: liveness (antispoof_q.onnx)")
    } else {
        say(
            Level::Fail,
            "Model not found: antispoof_q.onnx (liveness enabled but model missing)",
        )
    }
}

fn check_camera(c: &CameraCheck) -> (r: Line)
    ensures
        r@ == camera_line(*c),
{
    match c {
        CameraCheck::Works { path, width, height } => {
            let mut t: String = "Camera: ".to_owned();
            let w = decimal_of(*width as u64);
            let h = decimal_of(*height as u64);
            t.append(path.as_str());
            t.append(" (");
            t.append(w.as_str());
            t.append("x");
            t.append(h.as_str());
            t.append(")");
            line(Level::Pass, t)
        },
        CameraCheck::NoFormat { path, error } => {
            let mut t = three("Camera ", path.as_str(), ": cannot get format: ");
            t.append(error.as_str());
            line(Level::Fail, t)
        },
        CameraCheck::NoOpen { path, error } => {
            let mut t = three("Camera ", path.as_str(), ": ");
            t.append(error.as_str());
            line(Level::Fail, t)
        },
        CameraCheck::NotFound(e) => {
            let mut t: String = "Camera: ".to_owned();
            t.append(e.as_str());
            line(Level::Fail, t)
        },
    }
}

fn check_emitter(e: &EmitterCheck) -> (r: Line)
    ensures
        r@ == emitter_line(*e),
{
    match e {
        EmitterCheck::Found { path, unit, selector } => {
            let mut t: String = "IR emitter: ".to_owned();
            let u = decimal_of(*unit as u64);
            let s = decimal_of(*selector as u64);
            t.append(path.as_str());
            t.append(" (unit=");
            t.append(u.as_str());
            t.append(", selector=");
            t.append(s.as_str());
            t.append(")");
            line(Level::Pass, t)
        },
        EmitterCheck::Broken(e) => {
            let mut t: String = "IR emitter config parse error: ".to_owned();
            t.append(e.as_str());
            line(Level::Warn, t)
        },
        EmitterCheck::Missing => say(
            Level::Warn,
            "IR emitter config not found (may work without it)",
        ),
    }
}

fn check_enrollment(user: &str, e: Option<(usize, u32)>) -> (r: Line)
    ensures
        r@ == enrollment_line(user@, e),
{
    match e {
        Some((n, v)) => {
            let mut t: String = "Enrollment: ".to_owned();
            let count = decimal_of(n as u64);
            let version = decimal_of(v as u64);
            t.append(user);
            t.append(" (");
            t.append(count.as_str());
            if v < ENROLLMENT_VERSION {
                t.append(" embeddings, format v");
                t.append(version.as_str());
                t.append(" — stale, re-enroll for best accuracy)");
                line(Level::Warn, t)
            } else {
                t.append(" embeddings, v");
                t.append(version.as_str());
                t.append(")");
                line(Level::Pass, t)
            }
        },
        None => line(Level::Warn, three("Enrollment: no data for '", user, "'")),
    }
}

fn check_socket(path: &str, exists_: bool) -> (r: Line)
    ensures
        r@ == socket_line(path@, exists_),
{
    if exists_ {
        line(Level::Pass, three("Daemon: socket exists (", path, ")"))
    } else {
        say(Level::Warn, "Daemon: socket not found (is face-authd running?)")
    }
}

fn check_pam(found: bool) -> (r: Line)
    ensures
        r@ == pam_line(found),
{
    if found {
        say(Level::Pass, "PAM module: installed")
    } else {
        say(Level::Warn, "PAM module: not found (run 'make install')")
    }
}

/// The report of an installation, and how many errors and warnings it holds.
#[derive(Debug)]
pub struct Report {
    pub lines: Vec<Line>,
    pub errors: usize,
    pub warnings: usize,
}

fn count(ls: &Vec<Line>, level: Level) -> (n: usize)
    ensures
        n == count_of(views(ls@), level),
{
    let ghost vs = views(ls@);
    let mut n: usize = 0;
    let mut i: usize = 0;
    assert(vs.take(0) == Seq::<LineView>::empty());
    while i < ls.len()
        invariant
            i <= ls@.len(),
            n <= i,
            vs == views(ls@),
            n == count_of(vs.take(i as int), level),
        decreases ls.len() - i,
    {
        proof {
            let now = vs.take(i + 1);
            assert(now.drop_last() == vs.take(i as int));
            assert(now.last() == ls@[i as int]@);
        }
        if ls[i].level == level {
            n += 1;
        }
        i += 1;
    }
    assert(vs.take(vs.len() as int) == vs);
    n
}

/// Makes the report.
pub fn check_config(facts: &Facts, config: &Config) -> (r: Report)
    ensures
        views(r.lines@) == report_lines(*facts, *config),
        r.errors == count_of(report_lines(*facts, *config), Level::Fail),
        r.warnings == count_of(report_lines(*facts, *config), Level::Warn),
{
    let mut lines: Vec<Line> = Vec::new();
    lines.push(check_config_file(&facts.config_file));
    lines.push(check_model(Model::Detection, facts.detection_model));
    lines.push(check_model(Model::Recognition, facts.recognition_model));
    lines.push(check_liveness_model(config.liveness.model_enabled, facts.liveness_model));
    lines.push(check_camera(&facts.camera));
    lines.push(check_emitter(&facts.emitter));
    lines.push(check_enrollment(facts.username.as_str(), facts.enrollment));
    lines.push(check_socket(config.daemon.socket_path.as_str(), facts.socket_exists));
    lines.push(check_pam(facts.pam_module));
    let ghost first = views(lines@);
    let text = facts.threshold_text.as_str();
    if config.recognition.threshold.lt(Scalar { bits: 0x3f00_0000 }) {
        lines.push(line(Level::Warn, three("Threshold ", text, " is low — may allow spoofs")));
    }
    if config.recognition.threshold.gt(Scalar { bits: 0x3f73_3333 }) {
        lines.push(
            line(Level::Warn, three("Threshold ", text, " is very high — may reject real faces")),
        );
    }
    if config.daemon.session_timeout_s < 3 {
        let seconds = decimal_of(config.daemon.session_timeout_s);
        lines.push(line(Level::Warn, three("Timeout ", seconds.as_str(), "s is very short")));
    }
    proof {
        assert(views(lines@) =~= first + sanity_lines(*config, facts.threshold_text@));
        assert(views(lines@) =~= report_lines(*facts, *config));
    }
    let errors: usize = count(&lines, Level::Fail);
    let warnings: usize = count(&lines, Level::Warn);
    Report { lines, errors, warnings }
}

/// The last words of the report.
pub open spec fn summary_text(errors: nat, warnings: nat) -> Seq<char> {
    if errors == 0 && warnings == 0 {
        "\x1b[32mAll checks passed.\x1b[0m"@
    } else if errors == 0 {
        "\x1b[32mNo errors.\x1b[0m "@ + decimal(warnings) + " warning(s)."@
    } else {
        "\x1b[31m"@ + decimal(errors) + " error(s)\x1b[0m, "@ + decimal(warnings) + " warning(s)."@
    }
}

impl Report {
    /// The last words of the report.
    pub fn summary(&self) -> (r: String)
        ensures
            r@ == summary_text(self.errors as nat, self.warnings as nat),
    {
        let w = decimal_of(self.warnings as u64);
        if self.errors == 0 && self.warnings == 0 {
            "\x1b[32mAll checks passed.\x1b[0m".to_owned()
        } else if self.errors == 0 {
            three("\x1b[32mNo errors.\x1b[0m ", w.as_str(), " warning(s).")
        } else {
            let e = decimal_of(self.errors as u64);
            let mut t: String = "\x1b[31m".to_owned();
            t.append(e.as_str());
            t.append(" error(s)\x1b[0m, ");
            t.append(w.as_str());
            t.append(" warning(s).");
            t
        }
    }

    /// The exit code: one where there is an error, zero otherwise.
    pub fn exit_code(&self) -> (r: i32)
        ensures
            r == if self.errors > 0 {
                1int
            } else {
                0int
            },
    {
        if self.errors > 0 {
            1
        } else {
            0
        }
    }
}

/// The check fails exactly where one of the lines is about a failure.
pub proof fn check_fails_for_a_reason(ls: Seq<LineView>)
    ensures
        count_of(ls, Level::Fail) > 0 <==> exists|i: int|
            0 <= i < ls.len() && (#[trigger] ls[i]).0 == Level::Fail,
    decreases ls.len(),
{
    if ls.len() > 0 {
        let prior = ls.drop_last();
        check_fails_for_a_reason(prior);
        if ls.last().0 == Level::Fail {
            assert(ls[ls.len() - 1].0 == Level::Fail);
        }
        if exists|i: int| 0 <= i < prior.len() && (#[trigger] prior[i]).0 == Level::Fail {
            let i = choose|i: int| 0 <= i < prior.len() && (#[trigger] prior[i]).0 == Level::Fail;
            assert(ls[i].0 == Level::Fail);
        }
        if exists|i: int| 0 <= i < ls.len() && (#[trigger] ls[i]).0 == Level::Fail {
            let i = choose|i: int| 0 <= i < ls.len() && (#[trigger] ls[i]).0 == Level::Fail;
            if i < prior.len() {
                assert(prior[i].0 == Level::Fail);
            }
        }
    }
}

// The shorter report of the graphical interface.

/// What the graphical interface reports.
pub open spec fn short_lines(f: Facts, socket_path: Seq<char>) -> Seq<LineView> {
    let model = |m: Model, found: bool|
        if found {
            (Level::Pass, "[OK] Model: "@ + model_name(m))
        } else {
            (Level::Fail, "[FAIL] Model not found: "@ + file_name(m))
        };
    seq![
        match f.config_file {
            ConfigFile::Loaded => (Level::Pass, "[OK] Config: /etc/face-auth/config.toml"@),
            ConfigFile::Broken(e) => (Level::Fail, "[FAIL] Config: "@ + e@),
            ConfigFile::Missing => (
                Level::Warn,
                "[WARN] Config not found: /etc/face-auth/config.toml"@,
            ),
        },
        model(Model::Detection, f.detection_model),
        model(Model::Recognition, f.recognition_model),
        if f.socket_exists {
            (Level::Pass, "[OK] Daemon socket: "@ + socket_path)
        } else {
            (Level::Warn, "[WARN] Daemon socket not found (is face-authd running?)"@)
        },
        if f.pam_module {
            (Level::Pass, "[OK] PAM module installed"@)
        } else {
            (Level::Warn, "[WARN] PAM module not found"@)
        },
    ]
}

fn short_model(m: Model, found: bool) -> (r: Line)
    ensures
        r@ == if found {
            (Level::Pass, "[OK] Model: "@ + model_name(m))
        } else {
            (Level::Fail, "[FAIL] Model not found: "@ + file_name(m))
        },
{
    if found {
        let mut t: String = "[OK] Model: ".to_owned();
        t.append(name_of(m));
        line(Level::Pass, t)
    } else {
        let mut t: String = "[FAIL] Model not found: ".to_owned();
        t.append(m.file());
        line(Level::Fail, t)
    }
}

/// The tab that shows the shorter report.
#[derive(Debug)]
pub struct CheckConfigTab {
    pub output: Vec<Line>,
    pub ran: bool,
}

impl CheckConfigTab {
    /// A tab without a report.
    pub fn new() -> (r: CheckConfigTab)
        ensures
            r.output@.len() == 0,
            !r.ran,
    {
        CheckConfigTab { output: Vec::new(), ran: false }
    }

    /// Makes the report.
    pub fn run_checks(&mut self, facts: &Facts, socket_path: &str)
        ensures
            final(self).ran,
            views(final(self).output@) == short_lines(*facts, socket_path@),
    {
        let mut out: Vec<Line> = Vec::new();
        out.push(
            match &facts.config_file {
                ConfigFile::Loaded => say(Level::Pass, "[OK] Config: /etc/face-auth/config.toml"),
                ConfigFile::Broken(e) => {
                    let mut t: String = "[FAIL] Config: ".to_owned();
                    t.append(e.as_str());
                    line(Level::Fail, t)
                },
                ConfigFile::Missing => say(
                    Level::Warn,
                    "[WARN] Config not found: /etc/face-auth/config.toml",
                ),
            },
        );
        out.push(short_model(Model::Detection, facts.detection_model));
        out.push(short_model(Model::Recognition, facts.recognition_model));
        out.push(
            if facts.socket_exists {
                let mut t: String = "[OK] Daemon socket: ".to_owned();
                t.append(socket_path);
                line(Level::Pass, t)
            } else {
                say(Level::Warn, "[WARN] Daemon socket not found (is face-authd running?)")
            },
        );
        out.push(
            if facts.pam_module {
                say(Level::Pass, "[OK] PAM module installed")
            } else {
                say(Level::Warn, "[WARN] PAM module not found")
            },
        );
        assert(views(out@) =~= short_lines(*facts, socket_path@));
        self.output = out;
        self.ran = true;
    }
}

/// Which lines are as grave as this.
pub open spec fn places_of(ls: Seq<LineView>, level: Level) -> Set<int> {
    Set::new(|i: int| 0 <= i < ls.len() && ls[i].0 == level)
}

/// Every line counts once, for how grave it is.
pub proof fn each_line_counts_once(ls: Seq<LineView>, level: Level)
    ensures
        places_of(ls, level).finite(),
        count_of(ls, level) == places_of(ls, level).len(),
    decreases ls.len(),
{
    if ls.len() == 0 {
        assert(places_of(ls, level) =~= Set::<int>::empty());
    } else {
        let prior = ls.drop_last();
        each_line_counts_once(prior, level);
        assert(!places_of(prior, level).contains(ls.len() - 1));
        if ls.last().0 == level {
            assert(places_of(ls, level) =~= places_of(prior, level).insert(ls.len() - 1));
        } else {
            assert(places_of(ls, level) =~= places_of(prior, level));
        }
    }
}

/// An installation fails the check exactly where it cannot work: its settings cannot be read, a model
/// that is wanted is missing, or the camera does not work.
pub proof fn what_fails_the_check(f: Facts, c: Config)
    ensures
        count_of(report_lines(f, c), Level::Fail) > 0 <==> {
            ||| f.config_file is Broken
            ||| !f.detection_model
            ||| !f.recognition_model
            ||| c.liveness.model_enabled && !f.liveness_model
            ||| f.camera !is Works
        },
{
    let ls = report_lines(f, c);
    let s = sanity_lines(c, f.threshold_text@);
    check_fails_for_a_reason(ls);
    assert(forall|i: int| 0 <= i < s.len() ==> (#[trigger] s[i]).0 == Level::Warn);
    assert forall|i: int| 9 <= i < ls.len() implies (#[trigger] ls[i]).0 == Level::Warn by {
        assert(ls[i] == s[i - 9]);
    }
    assert(ls[0] == config_line(f.config_file));
    assert(ls[1] == model_line(Model::Detection, f.detection_model));
    assert(ls[2] == model_line(Model::Recognition, f.recognition_model));
    assert(ls[3] == liveness_model_line(c.liveness.model_enabled, f.liveness_model));
    assert(ls[4] == camera_line(f.camera));
    assert(ls[5] == emitter_line(f.emitter));
    assert(ls[6] == enrollment_line(f.username@, f.enrollment));
    assert(ls[7] == socket_line(c.daemon.socket_path@, f.socket_exists));
    assert(ls[8] == pam_line(f.pam_module));
}

/// What is warned of: a part that is missing without being needed, embeddings of an old version, and
/// values that are unusual.
pub proof fn what_is_warned_of(f: Facts, c: Config)
    ensures
        (exists|i: int|
            0 <= i < report_lines(f, c).len() && (#[trigger] report_lines(f, c)[i]).0 == Level::Warn)
            <==> {
            ||| f.config_file is Missing
            ||| f.emitter !is Found
            ||| f.enrollment is None
            ||| f.enrollment is Some && (f.enrollment->0).1 < 2
            ||| !f.socket_exists
            ||| !f.pam_module
            ||| c.recognition.threshold.below(Scalar { bits: 0x3f00_0000 })
            ||| (Scalar { bits: 0x3f73_3333 }).below(c.recognition.threshold)
            ||| c.daemon.session_timeout_s <= 2
        },
{
    let ls = report_lines(f, c);
    let s = sanity_lines(c, f.threshold_text@);
    assert(forall|i: int| 0 <= i < s.len() ==> (#[trigger] s[i]).0 == Level::Warn);
    assert forall|i: int| 9 <= i < ls.len() implies (#[trigger] ls[i]).0 == Level::Warn by {
        assert(ls[i] == s[i - 9]);
    }
    if s.len() > 0 {
        assert(ls[9] == s[0]);
    }
    assert(ls[0] == config_line(f.config_file));
    assert(ls[1] == model_line(Model::Detection, f.detection_model));
    assert(ls[2] == model_line(Model::Recognition, f.recognition_model));
    assert(ls[3] == liveness_model_line(c.liveness.model_enabled, f.liveness_model));
    assert(ls[4] == camera_line(f.camera));
    assert(ls[5] == emitter_line(f.emitter));
    assert(ls[6] == enrollment_line(f.username@, f.enrollment));
    assert(ls[7] == socket_line(c.daemon.socket_path@, f.socket_exists));
    assert(ls[8] == pam_line(f.pam_module));
}

/// There is a line for each of the nine parts, and one for each value that is unusual.
pub proof fn each_part_is_reported(f: Facts, c: Config)
    ensures
        report_lines(f, c).len() == 9 + (if c.recognition.threshold.below(
            Scalar { bits: 0x3f00_0000 },
        ) {
            1int
        } else {
            0
        }) + (if (Scalar { bits: 0x3f73_3333 }).below(c.recognition.threshold) {
            1int
        } else {
            0
        }) + (if c.daemon.session_timeout_s < 3 {
            1int
        } else {
            0
        }),
{
}

/// The shorter report fails an installation where its settings cannot be read or a model is missing.
pub proof fn what_fails_the_shorter_check(f: Facts, socket_path: Seq<char>)
    ensures
        count_of(short_lines(f, socket_path), Level::Fail) > 0 <==> f.config_file is Broken
            || !f.detection_model || !f.recognition_model,
        count_of(short_lines(f, socket_path), Level::Warn) == (if f.config_file is Missing {
            1int
        } else {
            0
        }) + (if f.socket_exists {
            0int
        } else {
            1
        }) + (if f.pam_module {
            0int
        } else {
            1
        }),
{
    let ls = short_lines(f, socket_path);
    check_fails_for_a_reason(ls);
    reveal_with_fuel(count_of, 6);
    assert(ls.len() == 5);
    let a = ls[0];
    let b = ls[1];
    let c = ls[2];
    let d = ls[3];
    let e = ls[4];
    assert(ls =~= seq![a, b, c, d, e]);
    assert(ls.drop_last() =~= seq![a, b, c, d]);
    assert(ls.drop_last().drop_last() =~= seq![a, b, c]);
    assert(ls.drop_last().drop_last().drop_last() =~= seq![a, b]);
    assert(ls.drop_last().drop_last().drop_last().drop_last() =~= seq![a]);
}

/// The last words tell how many errors and warnings there are.
pub proof fn summary_tells_the_numbers(errors: nat, warnings: nat)
    ensures
        errors == 0 && warnings == 0 ==> crate::text::contains(
            summary_text(errors, warnings),
            "All checks passed"@,
        ),
        errors > 0 ==> crate::text::contains(
            summary_text(errors, warnings),
            decimal(errors) + " error(s)"@,
        ),
        errors > 0 || warnings > 0 ==> crate::text::contains(
            summary_text(errors, warnings),
            decimal(warnings) + " warning(s)"@,
        ),
{
    let s = summary_text(errors, warnings);
    reveal_strlit("\x1b[32mAll checks passed.\x1b[0m");
    reveal_strlit("All checks passed");
    reveal_strlit(" error(s)\x1b[0m, ");
    reveal_strlit(" error(s)");
    reveal_strlit(" warning(s).");
    reveal_strlit(" warning(s)");
    if errors == 0 && warnings == 0 {
        assert(s.skip(5).take(17) =~= "All checks passed"@);
    } else if errors == 0 {
        let front = "\x1b[32mNo errors.\x1b[0m "@;
        let told = decimal(warnings) + " warning(s)"@;
        assert(s.skip(front.len() as int).take(told.len() as int) =~= told);
    } else {
        let front = "\x1b[31m"@;
        let told = decimal(errors) + " error(s)"@;
        assert(s.skip(front.len() as int).take(told.len() as int) =~= told);
        let all = front + decimal(errors) + " error(s)\x1b[0m, "@;
        let warned = decimal(warnings) + " warning(s)"@;
        assert(s.skip(all.len() as int).take(warned.len() as int) =~= warned);
    }
}

} // verus!
