//! The enrollment command: what its arguments ask for, and what it says.
use crate::enroll::{grade, grade_text};
use crate::enrollment::ENROLLMENT_VERSION;
use crate::scalar::Scalar;
use crate::text::{decimal, decimal_of, same};
use vstd::prelude::*;

verus! {

/// What the command is asked to do.
#[derive(Debug, Clone, Copy, PartialEq, Eq, Structural)]
pub enum Command {
    Help,
    TestCamera,
    Delete,
    Status,
    Configure,
    CheckConfig,
    TestAuth,
    TestAuthDebug,
    Install,
    Uninstall,
    Enroll,
    EnrollDebug,
}

/// Whether an argument is among those given.
pub open spec fn given(args: Seq<String>, flag: Seq<char>) -> bool {
    exists|i: int| 0 <= i < args.len() && (#[trigger] args[i])@ == flag
}

fn is_given(args: &Vec<String>, flag: &str) -> (r: bool)
    ensures
        r == given(args@, flag@),
{
    let mut i: usize = 0;
    while i < args.len()
        invariant
            i <= args@.len(),
            forall|k: int| 0 <= k < i ==> (#[trigger] args@[k])@ != flag@,
        decreases args.len() - i,
    {
        if same(args[i].as_str(), flag) {
            assert(args@[i as int]@ == flag@);
            return true;
        }
        i += 1;
    }
    false
}

/// Whether an enrollment is to keep the embeddings that are there and add to them.
pub fn appends(args: &Vec<String>) -> (r: bool)
    ensures
        r == given(args@, "--append"@),
{
    is_given(args, "--append")
}

/// The argument behind the first occurrence of `flag`.
pub open spec fn value_behind(args: Seq<String>, flag: Seq<char>) -> Option<Seq<char>>
    decreases args.len(),
{
    if args.len() < 2 {
        None
    } else if args[0]@ == flag {
        Some(args[1]@)
    } else {
        value_behind(args.drop_first(), flag)
    }
}

/// The user whose enrollment is to be removed: the one named behind `--user`, or else the user who
/// runs the command.
pub fn user_to_delete(args: &Vec<String>, current: String) -> (r: String)
    ensures
        r@ == match value_behind(args@, "--user"@) {
            Some(u) => u,
            None => current@,
        },
{
    let mut i: usize = 0;
    assert(args@.skip(0) == args@);
    while i < args.len()
        invariant
            i <= args@.len(),
            value_behind(args@.skip(i as int), "--user"@) == value_behind(args@, "--user"@),
        decreases args.len() - i,
    {
        let ghost rest = args@.skip(i as int);
        assert(rest.drop_first() == args@.skip(i + 1));
        if same(args[i].as_str(), "--user") && i + 1 < args.len() {
            assert(rest[1] == args@[i + 1]);
            return args[i + 1].clone();
        }
        i += 1;
    }
    current
}

/// What the arguments ask for. Where they ask for several things, the first of this list counts.
pub open spec fn asked(args: Seq<String>) -> Command {
    if given(args, "--help"@) || given(args, "-h"@) {
        Command::Help
    } else if given(args, "--test-camera"@) {
        Command::TestCamera
    } else if given(args, "--delete"@) {
        Command::Delete
    } else if given(args, "--status"@) {
        Command::Status
    } else if given(args, "--configure"@) {
        Command::Configure
    } else if given(args, "--check-config"@) {
        Command::CheckConfig
    } else if given(args, "--test-auth"@) {
        if given(args, "--debug"@) {
            Command::TestAuthDebug
        } else {
            Command::TestAuth
        }
    } else if given(args, "--install"@) {
        Command::Install
    } else if given(args, "--uninstall"@) {
        Command::Uninstall
    } else if given(args, "--debug"@) {
        Command::EnrollDebug
    } else {
        Command::Enroll
    }
}

/// What the arguments ask for.
pub fn command(args: &Vec<String>) -> (r: Command)
    ensures
        r == asked(args@),
{
    if is_given(args, "--help") || is_given(args, "-h") {
        Command::Help
    } else if is_given(args, "--test-camera") {
        Command::TestCamera
    } else if is_given(args, "--delete") {
        Command::Delete
    } else if is_given(args, "--status") {
        Command::Status
    } else if is_given(args, "--configure") {
        Command::Configure
    } else if is_given(args, "--check-config") {
        Command::CheckConfig
    } else if is_given(args, "--test-auth") {
        if is_given(args, "--debug") {
            Command::TestAuthDebug
        } else {
            Command::TestAuth
        }
    } else if is_given(args, "--install") {
        Command::Install
    } else if is_given(args, "--uninstall") {
        Command::Uninstall
    } else if is_given(args, "--debug") {
        Command::EnrollDebug
    } else {
        Command::Enroll
    }
}

/// The order of the arguments does not matter.
pub proof fn order_does_not_matter(a: Seq<String>, b: Seq<String>)
    requires
        forall|flag: Seq<char>| given(a, flag) <==> given(b, flag),
    ensures
        asked(a) == asked(b),
{
}

/// The user whose face is meant, by the variables `SUDO_USER`, `USER` and `LOGNAME` where they are
/// set.
pub fn whoami(sudo_user: Option<String>, user: Option<String>, logname: Option<String>) -> (r: String)
    ensures
        r@ == match (sudo_user, user, logname) {
            (Some(s), _, _) => s@,
            (None, Some(u), _) => u@,
            (None, None, Some(l)) => l@,
            (None, None, None) => "unknown"@,
        },
{
    match sudo_user {
        Some(s) => s,
        None => match user {
            Some(u) => u,
            None => match logname {
                Some(l) => l,
                None => "unknown".to_owned(),
            },
        },
    }
}

/// The line with the grade, where the embeddings are enough to judge.
pub open spec fn quality_text(quality: Option<Scalar>) -> Seq<char> {
    match quality {
        Some(q) => "\nQuality: "@ + grade_text(q),
        None => ""@,
    }
}

/// What is said of a user's enrollment: the number of embeddings and their version, where there
/// are any, and how alike they are on average, where that is known.
pub open spec fn status_text(
    user: Seq<char>,
    enrolled: Option<(usize, u32)>,
    quality: Option<Scalar>,
    dir: Seq<char>,
) -> Seq<char> {
    match enrolled {
        None => "User: "@ + user + "\nEnrolled: no\n"@,
        Some((n, v)) => {
            let facts = "User: "@ + user + "\nEnrolled: yes\nEmbeddings: "@ + decimal(n as nat)
                + quality_text(quality) + "\nFormat version: "@ + decimal(v as nat) + " (current: "@ + decimal(
                ENROLLMENT_VERSION as nat,
            ) + ")\nPath: "@ + dir + "\n"@;
            if v < ENROLLMENT_VERSION {
                facts + "\n\x1b[33mWarning: enrollment uses old format (v"@ + decimal(v as nat)
                    + ").\x1b[0m\nRe-enroll for best accuracy: sudo face-enroll\n"@
            } else {
                facts
            }
        },
    }
}

/// What is said of a user's enrollment.
pub fn status_report(
    user: &str,
    enrolled: Option<(usize, u32)>,
    quality: Option<Scalar>,
    dir: &str,
) -> (r: String)
    ensures
        r@ == status_text(user@, enrolled, quality, dir@),
{
    let mut t: String = "User: ".to_owned();
    t.append(user);
    match enrolled {
        None => {
            t.append("\nEnrolled: no\n");
        },
        Some((n, v)) => {
            let count = decimal_of(n as u64);
            let version = decimal_of(v as u64);
            let current = decimal_of(ENROLLMENT_VERSION as u64);
            t.append("\nEnrolled: yes\nEmbeddings: ");
            t.append(count.as_str());
            let mut graded: String = "".to_owned();
            if let Some(q) = quality {
                graded = "\nQuality: ".to_owned();
                graded.append(grade(q));
            }
            t.append(graded.as_str());
            t.append("\nFormat version: ");
            t.append(version.as_str());
            t.append(" (current: ");
            t.append(current.as_str());
            t.append(")\nPath: ");
            t.append(dir);
            t.append("\n");
            if v < ENROLLMENT_VERSION {
                t.append("\n\x1b[33mWarning: enrollment uses old format (v");
                t.append(version.as_str());
                t.append(").\x1b[0m\nRe-enroll for best accuracy: sudo face-enroll\n");
            }
        },
    }
    t
}

/// The value of a flag is what stands behind its first occurrence. A flag that is not given, or stands
/// at the very end alone, has none.
pub proof fn value_stands_behind_the_flag(args: Seq<String>, flag: Seq<char>, i: int)
    requires
        0 <= i < args.len(),
        args[i]@ == flag,
        forall|k: int| 0 <= k < i ==> (#[trigger] args[k])@ != flag,
    ensures
        i + 1 < args.len() ==> value_behind(args, flag) == Some(args[i + 1]@),
        i + 1 == args.len() ==> value_behind(args, flag) is None,
    decreases args.len(),
{
    if i > 0 {
        let rest = args.drop_first();
        assert(args[0]@ != flag);
        assert forall|k: int| 0 <= k < i - 1 implies (#[trigger] rest[k])@ != flag by {
            assert(rest[k] == args[k + 1]);
        }
        assert(rest[i - 1] == args[i]);
        value_stands_behind_the_flag(rest, flag, i - 1);
    }
}

/// A flag that is not given has no value.
pub proof fn missing_flag_has_no_value(args: Seq<String>, flag: Seq<char>)
    requires
        !given(args, flag),
    ensures
        value_behind(args, flag) is None,
    decreases args.len(),
{
    if args.len() >= 2 {
        let rest = args.drop_first();
        assert(args[0]@ != flag);
        assert forall|k: int| 0 <= k < rest.len() implies (#[trigger] rest[k])@ != flag by {
            assert(rest[k] == args[k + 1]);
        }
        missing_flag_has_no_value(rest, flag);
    }
}

/// Help comes before all, and each command is run exactly where it is asked for and none that comes
/// before it. Without any, a face is enrolled.
pub proof fn earlier_commands_come_first(args: Seq<String>)
    ensures
        ({
            let help = given(args, "--help"@) || given(args, "-h"@);
            let camera = given(args, "--test-camera"@);
            let delete = given(args, "--delete"@);
            let status = given(args, "--status"@);
            let configure = given(args, "--configure"@);
            let check = given(args, "--check-config"@);
            let test = given(args, "--test-auth"@);
            let install = given(args, "--install"@);
            let uninstall = given(args, "--uninstall"@);
            let debug = given(args, "--debug"@);
            let c = asked(args);
            &&& c == Command::Help <==> help
            &&& c == Command::TestCamera <==> camera && !help
            &&& c == Command::Delete <==> delete && !help && !camera
            &&& c == Command::Status <==> status && !help && !camera && !delete
            &&& c == Command::Configure <==> configure && !help && !camera && !delete && !status
            &&& c == Command::CheckConfig <==> check && !help && !camera && !delete && !status
                && !configure
            &&& c == Command::TestAuth || c == Command::TestAuthDebug <==> test && !help && !camera
                && !delete && !status && !configure && !check
            &&& c == Command::Install <==> install && !help && !camera && !delete && !status
                && !configure && !check && !test
            &&& c == Command::Uninstall <==> uninstall && !help && !camera && !delete && !status
                && !configure && !check && !test && !install
            &&& c == Command::TestAuthDebug || c == Command::EnrollDebug ==> debug
            &&& c == Command::TestAuth || c == Command::Enroll ==> !debug
        }),
{
}

/// What is said of an enrollment: that there is none, or first how many embeddings there are and last
/// where they are. Behind that comes a warning where they are of a version before the second.
pub proof fn status_tells_how_it_stands(
    user: Seq<char>,
    n: usize,
    v: u32,
    quality: Option<Scalar>,
    dir: Seq<char>,
)
    ensures
        status_text(user, None, quality, dir) == "User: "@ + user + "\nEnrolled: no\n"@,
        ({
            let s = status_text(user, Some((n, v)), quality, dir);
            &&& crate::text::starts_with(
                s,
                "User: "@ + user + "\nEnrolled: yes\nEmbeddings: "@ + decimal(n as nat),
            )
            &&& v >= 2 ==> s.len() > dir.len() && s.skip(s.len() - dir.len() - 1) == dir.push('\n')
            &&& v < 2 ==> crate::text::contains(
                s,
                "Warning: enrollment uses old format (v"@ + decimal(v as nat),
            )
        }),
{
    let s = status_text(user, Some((n, v)), quality, dir);
    let counted = "User: "@ + user + "\nEnrolled: yes\nEmbeddings: "@ + decimal(n as nat);
    assert(s.take(counted.len() as int) =~= counted);
    reveal_strlit("\n");
    if v >= 2 {
        assert(s.skip(s.len() - dir.len() - 1) =~= dir.push('\n'));
    } else {
        reveal_strlit("\n\x1b[33mWarning: enrollment uses old format (v");
        reveal_strlit("Warning: enrollment uses old format (v");
        let facts = counted + quality_text(quality) + "\nFormat version: "@ + decimal(v as nat)
            + " (current: "@ + decimal(2) + ")\nPath: "@ + dir + "\n"@;
        let told = "Warning: enrollment uses old format (v"@ + decimal(v as nat);
        assert(s.skip(facts.len() as int + 6).take(told.len() as int) =~= told);
    }
}

} // verus!
