//! The graphical interface: its tabs and its words.
use crate::camera::Frame;
use crate::geometry::{AuthState, StateMachine};
use crate::protocol::FeedbackState;
use crate::scalar::Scalar;
use crate::text::{decimal, decimal_of};
use vstd::prelude::*;

verus! {

/// A tab of the window.
#[derive(Debug, Clone, Copy, PartialEq, Eq, Structural)]
pub enum Tab {
    Enroll,
    ReEnroll,
    Status,
    TestAuth,
    CheckConfig,
    Configure,
    TestCamera,
}

impl Tab {
    /// What stands on the tab.
    pub fn label(self) -> (r: &'static str)
        ensures
            r@ == match self {
                Tab::Enroll => "Enroll"@,
                Tab::ReEnroll => "Re-enroll"@,
                Tab::Status => "Status"@,
                Tab::TestAuth => "Test Auth"@,
                Tab::CheckConfig => "Check Config"@,
                Tab::Configure => "Configure"@,
                Tab::TestCamera => "Test Camera"@,
            },
    {
        match self {
            Tab::Enroll => "Enroll",
            Tab::ReEnroll => "Re-enroll",
            Tab::Status => "Status",
            Tab::TestAuth => "Test Auth",
            Tab::CheckConfig => "Check Config",
            Tab::Configure => "Configure",
            Tab::TestCamera => "Test Camera",
        }
    }

    /// All tabs, from left to right.
    pub fn all() -> (r: Vec<Tab>)
        ensures
            r@ == seq![
                Tab::Enroll,
                Tab::ReEnroll,
                Tab::Status,
                Tab::TestAuth,
                Tab::CheckConfig,
                Tab::Configure,
                Tab::TestCamera,
            ],
    {
        vec![
            Tab::Enroll,
            Tab::ReEnroll,
            Tab::Status,
            Tab::TestAuth,
            Tab::CheckConfig,
            Tab::Configure,
            Tab::TestCamera,
        ]
    }

    /// Whether the tab holds something that has to be given back when it is left.
    pub open spec fn spec_holds_resources(self) -> bool {
        self == Tab::Enroll || self == Tab::ReEnroll || self == Tab::TestCamera || self
            == Tab::TestAuth
    }
}

/// What changing from one tab to another comes to: `None` where it is the same tab; otherwise
/// the tab to deactivate first, where the old one holds anything.
pub fn switch_tab(active: Tab, new_tab: Tab) -> (r: Option<Option<Tab>>)
    ensures
        r == if active == new_tab {
            None
        } else if active.spec_holds_resources() {
            Some(Some(active))
        } else {
            Some(None)
        },
{
    if active == new_tab {
        return None;
    }
    match active {
        Tab::Enroll | Tab::ReEnroll | Tab::TestCamera | Tab::TestAuth => Some(Some(active)),
        Tab::Status | Tab::CheckConfig | Tab::Configure => Some(None),
    }
}

/// The tab for enrolling.
#[derive(Debug, Clone, Copy, PartialEq, Eq, Structural)]
pub struct EnrollTab {
    pub append: bool,
}

impl EnrollTab {
    /// A tab that starts over, or one that adds to what there is.
    pub fn new(append: bool) -> (r: EnrollTab)
        ensures
            r.append == append,
    {
        EnrollTab { append }
    }

    /// Leaves the tab. There is nothing to give back.
    pub fn deactivate(&mut self)
        ensures
            *final(self) == *old(self),
    {
    }

    /// What the tab shows.
    pub fn label(&self) -> (r: &'static str)
        ensures
            r@ == if self.append {
                "Re-enroll — coming soon"@
            } else {
                "Enroll — coming soon"@
            },
    {
        if self.append {
            "Re-enroll — coming soon"
        } else {
            "Enroll — coming soon"
        }
    }
}

/// The tab that shows how things stand.
#[derive(Debug, Clone, Copy, PartialEq, Eq, Structural)]
pub struct StatusTab;

impl StatusTab {
    /// The tab.
    pub fn new() -> (r: StatusTab)
        ensures
            r == StatusTab,
    {
        StatusTab
    }

    /// What the tab shows.
    pub fn label(&self) -> (r: &'static str)
        ensures
            r@ == "Status — coming in next task"@,
    {
        "Status — coming in next task"
    }
}

/// The tab that shows the camera's picture.
#[derive(Debug)]
pub struct TestCameraTab {
    /// Whether the camera is open.
    pub camera: bool,
    pub latest_frame: Option<Frame>,
    pub error: Option<String>,
}

/// What the camera tab shows.
#[derive(Debug)]
pub enum CameraView {
    Error(String),
    /// The latest frame, and a line about it.
    Picture(String),
    Waiting,
}

impl TestCameraTab {
    /// A tab with the camera closed.
    pub fn new() -> (r: TestCameraTab)
        ensures
            !r.camera,
            r.latest_frame is None,
            r.error is None,
    {
        TestCameraTab { camera: false, latest_frame: None, error: None }
    }

    /// Leaves the tab: the camera is closed and its picture forgotten.
    pub fn deactivate(&mut self)
        ensures
            !final(self).camera,
            final(self).latest_frame is None,
            final(self).error == old(self).error,
    {
        self.camera = false;
        self.latest_frame = None;
    }

    /// Notes how opening the camera went. It is tried only while the camera is closed.
    pub fn opened(&mut self, result: Result<(), String>)
        requires
            !old(self).camera,
        ensures
            final(self).latest_frame == old(self).latest_frame,
            match result {
                Ok(()) => final(self).camera && final(self).error is None,
                Err(e) => !final(self).camera && (final(self).error matches Some(t) && t@
                    == "Camera error: "@ + e@),
            },
    {
        match result {
            Ok(()) => {
                self.camera = true;
                self.error = None;
            },
            Err(e) => {
                let mut t: String = "Camera error: ".to_owned();
                t.append(e.as_str());
                self.error = Some(t);
            },
        }
    }

    /// Takes in a frame.
    pub fn show(&mut self, frame: Frame)
        ensures
            final(self).camera == old(self).camera,
            final(self).error == old(self).error,
            final(self).latest_frame == Some(frame),
    {
        self.latest_frame = Some(frame);
    }

    /// What the tab shows: an error before a picture before the request to wait.
    pub fn view(&self) -> (r: CameraView)
        ensures
            match (self.error, self.latest_frame) {
                (Some(e), _) => r matches CameraView::Error(t) && t@ == e@,
                (None, Some(f)) => r matches CameraView::Picture(t) && t@ == "Resolution: "@
                    + decimal(f.width as nat) + "×"@ + decimal(f.height as nat)
                    + "  Format: GREY (IR grayscale)"@,
                (None, None) => r is Waiting,
            },
    {
        match (&self.error, &self.latest_frame) {
            (Some(e), _) => CameraView::Error(e.clone()),
            (None, Some(f)) => {
                let mut t: String = "Resolution: ".to_owned();
                let w = decimal_of(f.width as u64);
                let h = decimal_of(f.height as u64);
                t.append(w.as_str());
                t.append("×");
                t.append(h.as_str());
                t.append("  Format: GREY (IR grayscale)");
                CameraView::Picture(t)
            },
            (None, None) => CameraView::Waiting,
        }
    }
}

/// The pixels of a frame in colour: red, green and blue alike, and opaque.
pub open spec fn rgba(data: Seq<u8>) -> Seq<u8> {
    Seq::new(
        4 * data.len(),
        |k: int| if k % 4 == 3 {
            255u8
        } else {
            data[k / 4]
        },
    )
}

/// The pixels of a frame in colour.
pub fn frame_to_rgba(frame: &Frame) -> (r: Vec<u8>)
    ensures
        r@ == rgba(frame.data@),
{
    let mut r: Vec<u8> = Vec::new();
    let mut i: usize = 0;
    while i < frame.data.len()
        invariant
            i <= frame.data@.len(),
            r@.len() == 4 * i,
            forall|k: int| 0 <= k < r@.len() ==> #[trigger] r@[k] == rgba(frame.data@)[k],
        decreases frame.data.len() - i,
    {
        let g: u8 = frame.data[i];
        r.push(g);
        r.push(g);
        r.push(g);
        r.push(255);
        i += 1;
    }
    assert(r@ =~= rgba(frame.data@));
    r
}

/// Every pixel of a frame becomes four bytes.
pub proof fn rgba_has_four_bytes_per_pixel(data: Seq<u8>)
    ensures
        rgba(data).len() == 4 * data.len(),
{
}

/// The colour of something shown.
#[derive(Debug, Clone, Copy, PartialEq, Eq, Structural)]
pub enum Light {
    Green,
    Yellow,
    Red,
    Blue,
}

/// The colour of a similarity: green from the threshold on, yellow from a little below it on.
/// `near` is the threshold less 0.15.
pub fn sim_color(sim: Scalar, threshold: Scalar, near: Scalar) -> (r: Light)
    ensures
        r == if sim.reaches(threshold) {
            Light::Green
        } else if sim.reaches(near) {
            Light::Yellow
        } else {
            Light::Red
        },
{
    if sim.ge(threshold) {
        Light::Green
    } else if sim.ge(near) {
        Light::Yellow
    } else {
        Light::Red
    }
}

/// Bit pattern of the similarity from which a face's rectangle is green, 0.60.
pub const GREEN_BOX: u32 = 0x3f19_999a;

/// Whether the person is being guided: something about the face is to be changed.
pub open spec fn is_adjusting(s: AuthState) -> bool {
    s matches AuthState::Guidance(f) && f != FeedbackState::Scanning
}

/// Whether the person is being guided.
pub fn adjusting(sm: &StateMachine) -> (r: bool)
    ensures
        r == is_adjusting(sm.state),
{
    match sm.state {
        AuthState::Guidance(f) => f != FeedbackState::Scanning,
        _ => false,
    }
}

/// The colour of the rectangle round a face: green where it is live or resembles an enrolled one,
/// yellow while the person is being guided, and blue while the face is being looked at.
pub fn box_color(sim: Option<Scalar>, liveness_pass: bool, adjusting: bool) -> (r: Light)
    ensures
        r == if liveness_pass || (sim matches Some(s) && s.reaches(Scalar { bits: GREEN_BOX })) {
            Light::Green
        } else if adjusting {
            Light::Yellow
        } else {
            Light::Blue
        },
{
    let close = match sim {
        Some(s) => s.ge(Scalar { bits: GREEN_BOX }),
        None => false,
    };
    if liveness_pass || close {
        Light::Green
    } else if adjusting {
        Light::Yellow
    } else {
        Light::Blue
    }
}

/// What is shown for a state of the machine.
pub open spec fn state_text(s: AuthState) -> Seq<char> {
    match s {
        AuthState::Idle => "Scanning..."@,
        AuthState::Guidance(_) => "Scanning..."@,
        AuthState::Authenticating => "Authenticating..."@,
        AuthState::Done => "Done"@,
    }
}

/// What is shown for a state of the machine.
pub fn state_label(sm: &StateMachine) -> (r: &'static str)
    ensures
        r@ == state_text(sm.state),
{
    match sm.state {
        AuthState::Idle => "Scanning...",
        AuthState::Guidance(_) => "Scanning...",
        AuthState::Authenticating => "Authenticating...",
        AuthState::Done => "Done",
    }
}

/// What is shown for a piece of guidance.
pub open spec fn feedback_text(f: FeedbackState) -> Seq<char> {
    match f {
        FeedbackState::Scanning => "Scanning..."@,
        FeedbackState::TooFar => "Move closer"@,
        FeedbackState::TooClose => "Move back"@,
        FeedbackState::TurnLeft => "Turn left"@,
        FeedbackState::TurnRight => "Turn right"@,
        FeedbackState::TiltUp => "Tilt up"@,
        FeedbackState::TiltDown => "Tilt down"@,
        FeedbackState::IRSaturated => "Too much IR glare — move back"@,
        FeedbackState::EyesNotVisible => "Eyes not visible"@,
        FeedbackState::LookAtCamera => "Look at camera"@,
        FeedbackState::Authenticating => "Authenticating..."@,
    }
}

/// What is shown for a piece of guidance.
pub fn feedback_str(f: &FeedbackState) -> (r: &'static str)
    ensures
        r@ == feedback_text(*f),
{
    match f {
        FeedbackState::Scanning => "Scanning...",
        FeedbackState::TooFar => "Move closer",
        FeedbackState::TooClose => "Move back",
        FeedbackState::TurnLeft => "Turn left",
        FeedbackState::TurnRight => "Turn right",
        FeedbackState::TiltUp => "Tilt up",
        FeedbackState::TiltDown => "Tilt down",
        FeedbackState::IRSaturated => "Too much IR glare — move back",
        FeedbackState::EyesNotVisible => "Eyes not visible",
        FeedbackState::LookAtCamera => "Look at camera",
        FeedbackState::Authenticating => "Authenticating...",
    }
}

/// Every pixel becomes four bytes: its gray three times, then full opacity.
pub proof fn pixels_turn_gray_and_opaque(data: Seq<u8>, i: int)
    requires
        0 <= i < data.len(),
    ensures
        rgba(data)[4 * i] == data[i],
        rgba(data)[4 * i + 1] == data[i],
        rgba(data)[4 * i + 2] == data[i],
        rgba(data)[4 * i + 3] == 255,
{
}

/// The tabs that use the camera hold something, and no others.
pub proof fn camera_tabs_hold_something(t: Tab)
    ensures
        t.spec_holds_resources() <==> t != Tab::Status && t != Tab::CheckConfig && t != Tab::Configure,
{
}

/// The words point the way: each piece of guidance names what is to be done.
pub proof fn words_point_the_way(f: FeedbackState)
    ensures
        f == FeedbackState::TooFar ==> crate::text::contains(feedback_text(f), "closer"@),
        f == FeedbackState::TooClose ==> crate::text::contains(feedback_text(f), "back"@),
        f == FeedbackState::TurnLeft ==> crate::text::contains(feedback_text(f), "left"@),
        f == FeedbackState::TurnRight ==> crate::text::contains(feedback_text(f), "right"@),
        f == FeedbackState::TiltUp ==> crate::text::contains(feedback_text(f), "up"@),
        f == FeedbackState::TiltDown ==> crate::text::contains(feedback_text(f), "down"@),
        f == FeedbackState::EyesNotVisible ==> crate::text::contains(feedback_text(f), "Eyes"@),
        f == FeedbackState::LookAtCamera ==> crate::text::contains(feedback_text(f), "camera"@),
        f == FeedbackState::Scanning ==> crate::text::contains(feedback_text(f), "Scanning"@),
        f == FeedbackState::Authenticating ==> crate::text::contains(feedback_text(f), "Authenticating"@),
{
    reveal_strlit("Move closer");
    reveal_strlit("closer");
    reveal_strlit("Move back");
    reveal_strlit("back");
    reveal_strlit("Turn left");
    reveal_strlit("left");
    reveal_strlit("Turn right");
    reveal_strlit("right");
    reveal_strlit("Tilt up");
    reveal_strlit("up");
    reveal_strlit("Tilt down");
    reveal_strlit("down");
    reveal_strlit("Eyes not visible");
    reveal_strlit("Eyes");
    reveal_strlit("Look at camera");
    reveal_strlit("camera");
    reveal_strlit("Scanning...");
    reveal_strlit("Scanning");
    reveal_strlit("Authenticating...");
    reveal_strlit("Authenticating");
    assert("Move closer"@.skip(5).take(6) =~= "closer"@);
    assert("Move back"@.skip(5).take(4) =~= "back"@);
    assert("Turn left"@.skip(5).take(4) =~= "left"@);
    assert("Turn right"@.skip(5).take(5) =~= "right"@);
    assert("Tilt up"@.skip(5).take(2) =~= "up"@);
    assert("Tilt down"@.skip(5).take(4) =~= "down"@);
    assert("Eyes not visible"@.skip(0).take(4) =~= "Eyes"@);
    assert("Look at camera"@.skip(8).take(6) =~= "camera"@);
    assert("Scanning..."@.skip(0).take(8) =~= "Scanning"@);
    assert("Authenticating..."@.skip(0).take(14) =~= "Authenticating"@);
}

/// The person is being guided exactly where something other than scanning was asked of them.
pub proof fn guided_means_asked(s: AuthState, f: FeedbackState)
    ensures
        is_adjusting(AuthState::Guidance(f)) <==> f != FeedbackState::Scanning,
        !is_adjusting(AuthState::Idle),
        !is_adjusting(AuthState::Authenticating),
        !is_adjusting(AuthState::Done),
        state_text(s) == "Scanning..."@ || state_text(s) == "Authenticating..."@ || state_text(s)
            == "Done"@,
        s == AuthState::Authenticating ==> state_text(s) == feedback_text(FeedbackState::Authenticating),
        s == AuthState::Idle || s is Guidance ==> state_text(s) == feedback_text(
            FeedbackState::Scanning,
        ),
        s == AuthState::Done ==> state_text(s) == "Done"@,
{
}

/// A similarity is green from the threshold on, yellow from a little below, and red otherwise. A face
/// that is alive or much like an enrolled one is green, else yellow while its owner is guided.
pub proof fn lights_tell_how_it_stands(
    sim: Scalar,
    threshold: Scalar,
    near: Scalar,
    light: Light,
    alive: bool,
    guided: bool,
    with_sim: Light,
    without: Light,
)
    requires
        call_ensures(sim_color, (sim, threshold, near), light),
        call_ensures(box_color, (Some(sim), alive, guided), with_sim),
        call_ensures(box_color, (None, alive, guided), without),
    ensures
        light == Light::Green <==> sim.reaches(threshold),
        light == Light::Yellow <==> !sim.reaches(threshold) && sim.reaches(near),
        light != Light::Blue,
        with_sim == Light::Green <==> alive || sim.reaches(Scalar { bits: 0x3f19_999a }),
        without == Light::Green <==> alive,
        without == Light::Yellow <==> !alive && guided,
        without == Light::Blue <==> !alive && !guided,
        with_sim != Light::Green ==> with_sim == without,
{
}

/// A tab is left exactly where another is chosen, and gives back what it holds.
pub proof fn left_tab_gives_back(active: Tab, next: Tab, r: Option<Option<Tab>>)
    requires
        call_ensures(switch_tab, (active, next), r),
    ensures
        r is None <==> active == next,
        r == Some(Some(active)) <==> active != next && (active == Tab::Enroll || active == Tab::ReEnroll
            || active == Tab::TestCamera || active == Tab::TestAuth),
        r matches Some(Some(t)) ==> t == active,
{
}

} // verus!
