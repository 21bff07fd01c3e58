//! Installing and removing the service: where files go, and how PAM files change.
use crate::text::{
    begins_with, chars_of, contains, decimal, decimal_of, ended_lines, holds, lines, lines_of, part, starts_with,
    string_of, texts, trim, trimmed, with_line_ends,
};
use vstd::prelude::*;

verus! {

/// Where the parts of the service are.
#[derive(Debug)]
pub struct InstallLayout {
    pub libexecdir: String,
    pub pamdir: String,
    pub datadir: String,
    /// How PAM files name the module.
    pub pam_module_path: String,
}

/// The layout on a system whose `/usr` cannot be written to (`atomic`), and on any other.
pub fn install_layout(atomic: bool) -> (r: InstallLayout)
    ensures
        if atomic {
            &&& r.libexecdir@ == "/var/lib/face-auth/bin"@
            &&& r.pamdir@ == "/var/lib/face-auth"@
            &&& r.datadir@ == "/var/lib/face-auth"@
            &&& r.pam_module_path@ == "/var/lib/face-auth/pam_face.so"@
        } else {
            &&& r.libexecdir@ == "/usr/libexec"@
            &&& r.pamdir@ == "/usr/lib64/security"@
            &&& r.datadir@ == "/usr/share/face-auth"@
            &&& r.pam_module_path@ == "pam_face.so"@
        },
{
    if atomic {
        InstallLayout {
            libexecdir: "/var/lib/face-auth/bin".to_owned(),
            pamdir: "/var/lib/face-auth".to_owned(),
            datadir: "/var/lib/face-auth".to_owned(),
            pam_module_path: "/var/lib/face-auth/pam_face.so".to_owned(),
        }
    } else {
        InstallLayout {
            libexecdir: "/usr/libexec".to_owned(),
            pamdir: "/usr/lib64/security".to_owned(),
            datadir: "/usr/share/face-auth".to_owned(),
            pam_module_path: "pam_face.so".to_owned(),
        }
    }
}

fn joined(a: &str, b: &str) -> (r: String)
    ensures
        r@ == a@ + b@,
{
    let mut r: String = a.to_owned();
    r.append(b);
    r
}

impl InstallLayout {
    /// The files that must be there: the daemon, the enrollment command and the module.
    pub fn required_files(&self) -> (r: Vec<String>)
        ensures
            r@.len() == 3,
            r@[0]@ == self.libexecdir@ + "/face-authd"@,
            r@[1]@ == self.libexecdir@ + "/face-enroll"@,
            r@[2]@ == self.pamdir@ + "/pam_face.so"@,
    {
        let mut r: Vec<String> = Vec::new();
        r.push(joined(self.libexecdir.as_str(), "/face-authd"));
        r.push(joined(self.libexecdir.as_str(), "/face-enroll"));
        r.push(joined(self.pamdir.as_str(), "/pam_face.so"));
        r
    }

    /// The directory of the models.
    pub fn model_dir(&self) -> (r: String)
        ensures
            r@ == self.datadir@ + "/models"@,
    {
        joined(self.datadir.as_str(), "/models")
    }

    /// The source of the SELinux policy.
    pub fn selinux_source(&self) -> (r: String)
        ensures
            r@ == self.datadir@ + "/selinux/face_auth.te"@,
    {
        joined(self.datadir.as_str(), "/selinux/face_auth.te")
    }

    /// The line that puts the module into a PAM file.
    pub fn pam_line(&self) -> (r: String)
        ensures
            r@ == "auth    sufficient  "@ + self.pam_module_path@,
    {
        joined("auth    sufficient  ", self.pam_module_path.as_str())
    }
}

/// Whether there are models enough: one for detection and one for recognition.
pub fn enough_models(count: usize) -> (r: bool)
    ensures
        r == (count >= 2),
{
    count >= 2
}

// The services.

/// The services for which the module is recommended.
pub open spec fn recommended_services() -> Seq<Seq<char>> {
    seq![
        "sddm"@,
        "gdm"@,
        "lightdm"@,
        "login"@,
        "kde"@,
        "kde-fingerprint"@,
        "kscreensaver"@,
        "kscreenlocker"@,
        "xscreensaver"@,
        "sudo"@,
        "su"@,
        "polkit-1"@,
        "xfce4-screensaver"@,
        "cinnamon-screensaver"@,
        "mate-screensaver"@,
    ]
}

/// The services that are passed over: nobody sits at the camera there.
pub open spec fn skip_services() -> Seq<Seq<char>> {
    seq![
        "sddm-greeter"@,
        "sddm-autologin"@,
        "other"@,
        "password-auth"@,
        "system-auth"@,
        "smartcard-auth"@,
        "fingerprint-auth"@,
        "postlogin"@,
        "config-util"@,
        "runuser"@,
        "runuser-l"@,
        "remote"@,
        "crond"@,
        "atd"@,
        "cups"@,
        "httpd"@,
        "cockpit"@,
        "vlock"@,
        "systemd-user"@,
    ]
}

/// The texts of a list of literals.
pub open spec fn literals(list: Seq<&'static str>) -> Seq<Seq<char>> {
    Seq::new(list.len(), |i: int| list[i]@)
}

fn listed(name: &str, list: &Vec<&'static str>) -> (r: bool)
    ensures
        r == literals(list@).contains(name@),
{
    let mut i: usize = 0;
    while i < list.len()
        invariant
            i <= list@.len(),
            forall|k: int| 0 <= k < i ==> (#[trigger] list@[k])@ != name@,
        decreases list.len() - i,
    {
        if crate::text::same(list[i], name) {
            assert(literals(list@)[i as int] == name@);
            return true;
        }
        i += 1;
    }
    assert(!literals(list@).contains(name@)) by {
        if literals(list@).contains(name@) {
            let k = choose|k: int| 0 <= k < literals(list@).len() && literals(list@)[k] == name@;
            assert(list@[k]@ == name@);
        }
    }
    false
}

/// Whether the module is recommended for a service.
pub fn is_recommended(service: &str) -> (r: bool)
    ensures
        r == recommended_services().contains(service@),
{
    let list: Vec<&'static str> = vec![
        "sddm",
        "gdm",
        "lightdm",
        "login",
        "kde",
        "kde-fingerprint",
        "kscreensaver",
        "kscreenlocker",
        "xscreensaver",
        "sudo",
        "su",
        "polkit-1",
        "xfce4-screensaver",
        "cinnamon-screensaver",
        "mate-screensaver",
    ];
    assert(literals(list@) =~= recommended_services());
    listed(service, &list)
}

/// Whether a service is passed over.
pub fn is_skipped(service: &str) -> (r: bool)
    ensures
        r == skip_services().contains(service@),
{
    let list: Vec<&'static str> = vec![
        "sddm-greeter",
        "sddm-autologin",
        "other",
        "password-auth",
        "system-auth",
        "smartcard-auth",
        "fingerprint-auth",
        "postlogin",
        "config-util",
        "runuser",
        "runuser-l",
        "remote",
        "crond",
        "atd",
        "cups",
        "httpd",
        "cockpit",
        "vlock",
        "systemd-user",
    ];
    assert(literals(list@) =~= skip_services());
    listed(service, &list)
}

/// Whether a line belongs to the authentication part of a PAM file.
pub open spec fn auth_line(line: Seq<char>) -> bool {
    starts_with(line, "auth"@) || starts_with(line, "-auth"@)
}

/// Whether a line names the module.
pub open spec fn names_module(line: Seq<char>) -> bool {
    contains(line, "pam_face.so"@)
}

/// The index of the first line of the authentication part, or the number of lines.
pub open spec fn first_auth(ls: Seq<Seq<char>>) -> nat
    decreases ls.len(),
{
    if ls.len() == 0 || auth_line(ls[0]) {
        0
    } else {
        1 + first_auth(ls.drop_first())
    }
}

fn find_auth(all: &Vec<Vec<char>>) -> (r: usize)
    ensures
        r == first_auth(texts(all@)),
        r <= all@.len(),
{
    let ghost ls = texts(all@);
    let mut i: usize = 0;
    assert(ls.skip(0) == ls);
    while i < all.len() && !(begins_with(&all[i], "auth") || begins_with(&all[i], "-auth"))
        invariant
            i <= all@.len(),
            ls == texts(all@),
            first_auth(ls) == i + first_auth(ls.skip(i as int)),
        decreases all.len() - i,
    {
        proof {
            assert(ls.skip(i as int)[0] == all@[i as int]@);
            assert(ls.skip(i as int).drop_first() == ls.skip(i + 1));
        }
        i += 1;
    }
    proof {
        if i < all@.len() {
            assert(ls.skip(i as int)[0] == all@[i as int]@);
        }
    }
    i
}

/// What is done about a service.
#[derive(Debug, Clone, Copy, PartialEq, Eq, Structural)]
pub enum ServiceAction {
    /// It is passed over, and counted.
    Skip,
    /// It has no authentication part, or cannot be read.
    Ignore,
    /// It has the module already.
    Already,
    /// Someone is asked.
    Ask { recommended: bool },
}

/// What is done about a service, by its name and the content of its file.
pub open spec fn service_plan(name: Seq<char>, content: Option<Seq<char>>) -> ServiceAction {
    if skip_services().contains(name) {
        ServiceAction::Skip
    } else {
        match content {
            None => ServiceAction::Ignore,
            Some(c) => if first_auth(lines(c)) >= lines(c).len() {
                ServiceAction::Ignore
            } else if names_module(c) {
                ServiceAction::Already
            } else {
                ServiceAction::Ask { recommended: recommended_services().contains(name) }
            },
        }
    }
}

/// What is done about a service, by its name and the content of its file.
pub fn classify_service(service: &str, content: &Option<String>) -> (r: ServiceAction)
    ensures
        r == service_plan(
            service@,
            match content {
                Some(c) => Some(c@),
                None => None,
            },
        ),
{
    if is_skipped(service) {
        return ServiceAction::Skip;
    }
    match content {
        None => ServiceAction::Ignore,
        Some(c) => {
            let text = chars_of(c.as_str());
            let all = lines_of(&text);
            assert(texts(all@).len() == all@.len());
            if find_auth(&all) >= all.len() {
                ServiceAction::Ignore
            } else if holds(&text, "pam_face.so") {
                ServiceAction::Already
            } else {
                ServiceAction::Ask { recommended: is_recommended(service) }
            }
        },
    }
}

/// Whether an answer to a question means yes. To a recommendation nothing typed means yes too.
pub open spec fn means_yes(answer: Seq<char>, recommended: bool) -> bool {
    let a = trim(answer);
    if a.len() == 0 {
        recommended
    } else {
        a[0] == 'y' || a[0] == 'Y'
    }
}

/// Whether an answer to a question means yes.
pub fn accepts(answer: &str, recommended: bool) -> (r: bool)
    ensures
        r == means_yes(answer@, recommended),
{
    let a = trimmed(&chars_of(answer));
    if a.len() == 0 {
        recommended
    } else {
        a[0] == 'y' || a[0] == 'Y'
    }
}

/// Whether an answer confirms a deletion: a single `y`, small or capital.
pub fn confirms(answer: &str) -> (r: bool)
    ensures
        r == (trim(answer@).len() == 1 && (trim(answer@)[0] == 'y' || trim(answer@)[0] == 'Y')),
{
    let a = trimmed(&chars_of(answer));
    a.len() == 1 && (a[0] == 'y' || a[0] == 'Y')
}

/// The lines with one more in front of the authentication part, or in front of all lines where
/// there is none.
pub open spec fn inserted(ls: Seq<Seq<char>>, line: Seq<char>) -> Seq<Seq<char>> {
    let i = first_auth(ls) as int;
    if i >= ls.len() {
        seq![line] + ls
    } else {
        ls.take(i) + seq![line] + ls.skip(i)
    }
}

fn copy_line(line: &Vec<char>) -> (r: Vec<char>)
    ensures
        r@ == line@,
{
    let r = part(line, 0, line.len());
    assert(line@.subrange(0, line@.len() as int) == line@);
    r
}

/// The content of a PAM file with the module's line in it.
pub open spec fn with_module(content: Seq<char>, line: Seq<char>) -> Seq<char> {
    with_line_ends(inserted(lines(content), line))
}

/// The content of a PAM file with the module's line in it.
pub fn insert_pam_line(content: &str, pam_line: &str) -> (r: String)
    ensures
        r@ == with_module(content@, pam_line@),
{
    let all = lines_of(&chars_of(content));
    let ghost ls = texts(all@);
    let found: usize = find_auth(&all);
    let at: usize = if found >= all.len() {
        0
    } else {
        found
    };
    let mut out: Vec<Vec<char>> = Vec::new();
    let mut i: usize = 0;
    while i < all.len()
        invariant
            i <= all@.len(),
            ls == texts(all@),
            at <= all@.len(),
            texts(out@) == if i <= at {
                ls.take(i as int)
            } else {
                ls.take(at as int) + seq![pam_line@] + ls.subrange(at as int, i as int)
            },
        decreases all.len() - i,
    {
        let ghost before = texts(out@);
        if i == at {
            out.push(chars_of(pam_line));
            assert(texts(out@) =~= before.push(pam_line@));
        }
        let ghost middle = texts(out@);
        out.push(copy_line(&all[i]));
        proof {
            assert(texts(out@) =~= middle.push(ls[i as int]));
            if i < at {
                assert(texts(out@) =~= ls.take(i + 1));
            } else {
                assert(texts(out@) =~= ls.take(at as int) + seq![pam_line@] + ls.subrange(
                    at as int,
                    i + 1,
                ));
            }
        }
        i += 1;
    }
    if all.len() == 0 {
        out.push(chars_of(pam_line));
    }
    proof {
        assert(texts(out@) =~= inserted(ls, pam_line@));
    }
    ended_lines(&out)
}

/// The lines without those that name the module.
pub open spec fn without_module(ls: Seq<Seq<char>>) -> Seq<Seq<char>>
    decreases ls.len(),
{
    if ls.len() == 0 {
        Seq::empty()
    } else {
        let prior = without_module(ls.drop_last());
        if names_module(ls.last()) {
            prior
        } else {
            prior.push(ls.last())
        }
    }
}

/// The content of a PAM file without the lines that name the module. A file of which nothing is left
/// keeps an empty line, and one that does not name the module stays as it is.
pub open spec fn cleaned(content: Seq<char>) -> Seq<char> {
    let rest = without_module(lines(content));
    if !names_module(content) {
        content
    } else if rest.len() == 0 {
        seq!['\n']
    } else {
        with_line_ends(rest)
    }
}

/// The content of a PAM file without the lines that name the module; `None` where none does.
pub fn remove_pam_lines(content: &str) -> (r: Option<String>)
    ensures
        match r {
            None => !names_module(content@),
            Some(t) => names_module(content@) && t@ == cleaned(content@),
        },
{
    let text = chars_of(content);
    if !holds(&text, "pam_face.so") {
        return None;
    }
    let all = lines_of(&text);
    let ghost ls = texts(all@);
    let mut out: Vec<Vec<char>> = Vec::new();
    let mut i: usize = 0;
    assert(ls.take(0) == Seq::<Seq<char>>::empty());
    assert(texts(out@) == Seq::<Seq<char>>::empty());
    while i < all.len()
        invariant
            i <= all@.len(),
            ls == texts(all@),
            texts(out@) == without_module(ls.take(i as int)),
        decreases all.len() - i,
    {
        let ghost before = texts(out@);
        proof {
            let now = ls.take(i + 1);
            assert(now.drop_last() == ls.take(i as int));
            assert(now.last() == all@[i as int]@);
        }
        if !holds(&all[i], "pam_face.so") {
            out.push(copy_line(&all[i]));
            assert(texts(out@) =~= before.push(all@[i as int]@));
        }
        i += 1;
    }
    assert(ls.take(ls.len() as int) == ls);
    assert(texts(out@).len() == out@.len());
    if out.len() == 0 {
        let mut t = String::new();
        t.push('\n');
        assert(t@ =~= seq!['\n']);
        Some(t)
    } else {
        Some(ended_lines(&out))
    }
}

/// Taking out what was put in gives back the lines that were there: none is lost, changed or
/// moved.
pub proof fn removal_undoes_insertion(ls: Seq<Seq<char>>, line: Seq<char>)
    requires
        names_module(line),
        forall|i: int| 0 <= i < ls.len() ==> !names_module(#[trigger] ls[i]),
    ensures
        without_module(inserted(ls, line)) == ls,
{
    let i = first_auth(ls) as int;
    let (a, b) = if i >= ls.len() {
        (Seq::<Seq<char>>::empty(), ls)
    } else {
        (ls.take(i), ls.skip(i))
    };
    assert(inserted(ls, line) =~= a + seq![line] + b);
    assert(a + b =~= ls);
    lemma_without(a, line, b);
}

proof fn lemma_without(a: Seq<Seq<char>>, line: Seq<char>, b: Seq<Seq<char>>)
    requires
        names_module(line),
        forall|i: int| 0 <= i < a.len() ==> !names_module(#[trigger] a[i]),
        forall|i: int| 0 <= i < b.len() ==> !names_module(#[trigger] b[i]),
    ensures
        without_module(a + seq![line] + b) == a + b,
    decreases b.len(),
{
    let all = a + seq![line] + b;
    if b.len() == 0 {
        assert(all.drop_last() =~= a);
        lemma_nothing_to_remove(a);
        assert(a + b =~= a);
    } else {
        let c = b.drop_last();
        assert(all.drop_last() =~= a + seq![line] + c);
        assert forall|i: int| 0 <= i < c.len() implies !names_module(#[trigger] c[i]) by {
            assert(c[i] == b[i]);
        }
        lemma_without(a, line, c);
        assert(!names_module(b[b.len() - 1]));
        assert((a + c).push(b.last()) =~= a + b);
    }
}

proof fn lemma_nothing_to_remove(ls: Seq<Seq<char>>)
    requires
        forall|i: int| 0 <= i < ls.len() ==> !names_module(#[trigger] ls[i]),
    ensures
        without_module(ls) == ls,
    decreases ls.len(),
{
    if ls.len() > 0 {
        let prior = ls.drop_last();
        assert forall|i: int| 0 <= i < prior.len() implies !names_module(#[trigger] prior[i]) by {
            assert(prior[i] == ls[i]);
        }
        lemma_nothing_to_remove(prior);
        assert(!names_module(ls[ls.len() - 1]));
        assert(prior.push(ls.last()) =~= ls);
    }
}

/// After insertion the module is asked before every line of the authentication part.
pub proof fn module_is_asked_first(ls: Seq<Seq<char>>, line: Seq<char>)
    requires
        auth_line(line),
    ensures
        ({
            let out = inserted(ls, line);
            &&& out.len() == ls.len() + 1
            &&& out[first_auth(out) as int] == line
        }),
{
    let out = inserted(ls, line);
    let i = first_auth(ls) as int;
    lemma_first_auth(ls);
    if i >= ls.len() {
        assert(out[0] == line);
    } else {
        assert forall|k: int| 0 <= k < i implies !auth_line(#[trigger] out[k]) by {
            assert(out[k] == ls[k]);
        }
        assert(out[i] == line);
        lemma_first_auth_is(out, i);
    }
}

proof fn lemma_first_auth(ls: Seq<Seq<char>>)
    ensures
        first_auth(ls) <= ls.len(),
        forall|k: int| 0 <= k < first_auth(ls) ==> !auth_line(#[trigger] ls[k]),
    decreases ls.len(),
{
    if ls.len() > 0 && !auth_line(ls[0]) {
        lemma_first_auth(ls.drop_first());
        assert forall|k: int| 0 <= k < first_auth(ls) implies !auth_line(#[trigger] ls[k]) by {
            if k > 0 {
                assert(ls.drop_first()[k - 1] == ls[k]);
            }
        }
    }
}

proof fn lemma_first_auth_is(ls: Seq<Seq<char>>, i: int)
    requires
        0 <= i < ls.len(),
        auth_line(ls[i]),
        forall|k: int| 0 <= k < i ==> !auth_line(#[trigger] ls[k]),
    ensures
        first_auth(ls) == i,
    decreases ls.len(),
{
    if i > 0 {
        assert(!auth_line(ls[0]));
        let rest = ls.drop_first();
        assert forall|k: int| 0 <= k < i - 1 implies !auth_line(#[trigger] rest[k]) by {
            assert(rest[k] == ls[k + 1]);
        }
        lemma_first_auth_is(rest, i - 1);
    }
}

/// Whether a line can be written to a file and read back.
pub open spec fn clean(line: Seq<char>) -> bool {
    &&& forall|k: int| 0 <= k < line.len() ==> line[k] != '\n'
    &&& line.len() == 0 || line.last() != '\r'
}

/// Clean lines that were written to a file are read back.
pub proof fn written_lines_are_read(ls: Seq<Seq<char>>)
    requires
        forall|i: int| 0 <= i < ls.len() ==> clean(#[trigger] ls[i]),
    ensures
        lines(with_line_ends(ls)) == ls,
    decreases ls.len(),
{
    if ls.len() == 0 {
        assert(lines(Seq::<char>::empty()) =~= ls);
    } else {
        let first = ls[0];
        let rest = ls.drop_first();
        lemma_front(ls);
        assert forall|i: int| 0 <= i < rest.len() implies clean(#[trigger] rest[i]) by {
            assert(rest[i] == ls[i + 1]);
        }
        written_lines_are_read(rest);
        let s = with_line_ends(ls);
        let n = first.len() as int;
        assert(s == first.push('\n') + with_line_ends(rest));
        assert(clean(ls[0]));
        crate::text::lemma_find_is(s, '\n', n as nat);
        assert(s.take(n) =~= first);
        assert(s.skip(n + 1) =~= with_line_ends(rest));
        assert(lines(s) =~= seq![first] + lines(with_line_ends(rest)));
        assert(seq![first] + rest =~= ls);
    }
}

proof fn lemma_front(ls: Seq<Seq<char>>)
    requires
        ls.len() > 0,
    ensures
        with_line_ends(ls) == ls[0].push('\n') + with_line_ends(ls.drop_first()),
{
    crate::text::lines_are_written_in_order(seq![ls[0]], ls.drop_first(), ls[0]);
    assert(ls =~= seq![ls[0]] + ls.drop_first());
}

/// A file that had no line of the module, got one, and lost it again has the lines that it had.
pub proof fn uninstall_restores_the_file(content: Seq<char>, line: Seq<char>)
    requires
        names_module(line),
        clean(line),
        forall|i: int|
            0 <= i < lines(content).len() ==> !names_module(#[trigger] lines(content)[i]) && clean(
                lines(content)[i],
            ),
    ensures
        without_module(lines(with_line_ends(inserted(lines(content), line)))) == lines(content),
{
    let ls = lines(content);
    let out = inserted(ls, line);
    let i = first_auth(ls) as int;
    assert forall|k: int| 0 <= k < out.len() implies clean(#[trigger] out[k]) by {
        if i >= ls.len() {
            if k > 0 {
                assert(out[k] == ls[k - 1]);
            }
        } else if k < i {
            assert(out[k] == ls[k]);
        } else if k > i {
            assert(out[k] == ls[k - 1]);
        }
    }
    written_lines_are_read(out);
    removal_undoes_insertion(ls, line);
}

/// What occurs in a part of a text occurs in the text.
proof fn lemma_part_occurs(s: Seq<char>, from: int, to: int, p: Seq<char>)
    requires
        0 <= from <= to <= s.len(),
        contains(s.subrange(from, to), p),
    ensures
        contains(s, p),
{
    let part = s.subrange(from, to);
    let i = choose|i: int|
        0 <= i && i + p.len() <= part.len() && #[trigger] part.skip(i).take(p.len() as int) == p;
    assert(s.skip(from + i).take(p.len() as int) =~= part.skip(i).take(p.len() as int));
}

/// What occurs in a line of a text occurs in the text.
proof fn lemma_line_occurs(s: Seq<char>, i: int, p: Seq<char>)
    requires
        0 <= i < lines(s).len(),
        contains(lines(s)[i], p),
    ensures
        contains(s, p),
    decreases s.len(),
{
    let n = crate::text::find(s, '\n') as int;
    crate::text::lemma_find_bound(s, '\n');
    if n < s.len() {
        let rest = s.skip(n + 1);
        if i == 0 {
            let line = lines(s)[0];
            assert(line == crate::text::without_cr(s.take(n)));
            assert(line =~= s.subrange(0, line.len() as int));
            lemma_part_occurs(s, 0, line.len() as int, p);
        } else {
            assert(lines(s)[i] == lines(rest)[i - 1]);
            lemma_line_occurs(rest, i - 1, p);
            assert(rest =~= s.subrange(n + 1, s.len() as int));
            lemma_part_occurs(s, n + 1, s.len() as int, p);
        }
    }
}

/// What occurs in one of the lines occurs in the text that they make.
proof fn lemma_written_line_occurs(ls: Seq<Seq<char>>, i: int, p: Seq<char>)
    requires
        0 <= i < ls.len(),
        contains(ls[i], p),
    ensures
        contains(with_line_ends(ls), p),
    decreases ls.len(),
{
    let s = with_line_ends(ls);
    let front = with_line_ends(ls.drop_last());
    let last = ls.last();
    let n = front.len() as int;
    if i == ls.len() - 1 {
        assert(s.subrange(n, n + last.len()) =~= last);
        lemma_part_occurs(s, n, n + last.len(), p);
    } else {
        assert(ls.drop_last()[i] == ls[i]);
        lemma_written_line_occurs(ls.drop_last(), i, p);
        assert(s.subrange(0, n) =~= front);
        lemma_part_occurs(s, 0, n, p);
    }
}

/// What occurs in a text, and has no line feed, occurs in one of the lines that make the text.
proof fn lemma_occurs_in_a_line(ls: Seq<Seq<char>>, p: Seq<char>)
    requires
        contains(with_line_ends(ls), p),
        p.len() > 0,
        forall|k: int| 0 <= k < p.len() ==> #[trigger] p[k] != '\n',
    ensures
        exists|i: int| 0 <= i < ls.len() && contains(#[trigger] ls[i], p),
    decreases ls.len(),
{
    let s = with_line_ends(ls);
    let len = p.len() as int;
    let at = choose|at: int| 0 <= at && at + len <= s.len() && #[trigger] s.skip(at).take(len) == p;
    assert forall|k: int| 0 <= k < len implies s[at + k] == #[trigger] p[k] by {
        assert(s.skip(at).take(len)[k] == s[at + k]);
    }
    if ls.len() > 0 {
        let front = with_line_ends(ls.drop_last());
        let last = ls.last();
        let n = front.len() as int;
        if at + len <= n {
            assert(front.skip(at).take(len) =~= p);
            lemma_occurs_in_a_line(ls.drop_last(), p);
            let i = choose|i: int|
                0 <= i < ls.drop_last().len() && contains(#[trigger] ls.drop_last()[i], p);
            assert(ls.drop_last()[i] == ls[i]);
        } else if at >= n {
            if at + len > n + last.len() {
                assert(p[n + last.len() - at] == s[n + last.len()]);
            }
            assert(last.skip(at - n).take(len) =~= p);
            assert(contains(ls[ls.len() - 1], p));
        } else {
            assert(front.last() == '\n');
            assert(p[n - 1 - at] == s[n - 1]);
        }
    }
}

/// A text that its lines make up again has clean lines.
proof fn lemma_lines_clean(s: Seq<char>)
    requires
        s == with_line_ends(lines(s)),
    ensures
        forall|i: int| 0 <= i < lines(s).len() ==> clean(#[trigger] lines(s)[i]),
    decreases s.len(),
{
    if s.len() > 0 {
        let ls = lines(s);
        let n = crate::text::find(s, '\n') as int;
        crate::text::lemma_find_bound(s, '\n');
        lemma_front(ls);
        let first = ls[0];
        let rest = s.skip(n + 1);
        if n < s.len() {
            assert(ls.drop_first() =~= lines(rest));
            assert(s == first.push('\n') + with_line_ends(lines(rest)));
            assert(s[first.len() as int] == '\n');
            assert(first.len() <= n);
            assert(first.len() == n);
            assert(first =~= s.take(n));
            assert(rest =~= with_line_ends(lines(rest)));
            lemma_lines_clean(rest);
            assert forall|i: int| 0 <= i < ls.len() implies clean(#[trigger] ls[i]) by {
                if i > 0 {
                    assert(ls[i] == lines(rest)[i - 1]);
                }
            }
        } else {
            assert(first == s);
            assert(s.len() == first.push('\n').len() + with_line_ends(ls.drop_first()).len());
        }
    }
}

/// Cleaning leaves nothing that names the module.
pub proof fn cleaned_file_is_clean(content: Seq<char>)
    ensures
        !names_module(cleaned(content)),
{
    reveal_strlit("pam_face.so");
    let name = "pam_face.so"@;
    let rest = without_module(lines(content));
    assert forall|k: int| 0 <= k < name.len() implies #[trigger] name[k] != '\n' by {}
    if names_module(content) && rest.len() > 0 {
        lemma_kept_lines(lines(content));
        if contains(with_line_ends(rest), name) {
            lemma_occurs_in_a_line(rest, name);
        }
    }
}

proof fn lemma_kept_lines(ls: Seq<Seq<char>>)
    ensures
        forall|i: int|
            0 <= i < without_module(ls).len() ==> !names_module(#[trigger] without_module(ls)[i]),
    decreases ls.len(),
{
    if ls.len() > 0 {
        let prior = without_module(ls.drop_last());
        let kept = without_module(ls);
        lemma_kept_lines(ls.drop_last());
        assert forall|i: int| 0 <= i < kept.len() implies !names_module(#[trigger] kept[i]) by {
            if i < prior.len() {
                assert(kept[i] == prior[i]);
            }
        }
    }
}

/// Taking out of a file what was put in gives back its text, to the last character. The text has
/// something in it, and every line of it ends with a line feed.
pub proof fn removal_gives_the_text_back(content: Seq<char>, line: Seq<char>)
    requires
        content.len() > 0,
        content == with_line_ends(lines(content)),
        !names_module(content),
        names_module(line),
        clean(line),
    ensures
        names_module(with_module(content, line)),
        cleaned(with_module(content, line)) == content,
{
    let ls = lines(content);
    let out = inserted(ls, line);
    assert forall|i: int| 0 <= i < ls.len() implies !names_module(#[trigger] ls[i]) by {
        if names_module(ls[i]) {
            lemma_line_occurs(content, i, "pam_face.so"@);
        }
    }
    lemma_lines_clean(content);
    lemma_first_auth(ls);
    let at: int = if first_auth(ls) >= ls.len() {
        0
    } else {
        first_auth(ls) as int
    };
    assert(out[at] == line);
    lemma_written_line_occurs(out, at, "pam_face.so"@);
    uninstall_restores_the_file(content, line);
}

/// The file of a service that has none yet.
pub open spec fn template(pam_line: Seq<char>) -> Seq<char> {
    "#%PAM-1.0\n# Created by face-auth installer\n"@ + pam_line
        + "\nauth       include      system-auth\naccount    include      system-auth\npassword   include      system-auth\nsession    include      system-auth\n"@
}

/// The file of a service that has none yet.
pub fn new_service_file(pam_line: &str) -> (r: String)
    ensures
        r@ == template(pam_line@),
{
    let mut r: String = "#%PAM-1.0\n# Created by face-auth installer\n".to_owned();
    r.append(pam_line);
    r.append(
        "\nauth       include      system-auth\naccount    include      system-auth\npassword   include      system-auth\nsession    include      system-auth\n",
    );
    r
}

/// The service that is created where it is not there yet.
pub fn creatable_service() -> (r: &'static str)
    ensures
        r@ == "polkit-1"@,
{
    "polkit-1"
}

/// The path of a service's file.
pub open spec fn service_path(service: Seq<char>) -> Seq<char> {
    "/etc/pam.d/"@ + service
}

/// The question about a service.
pub open spec fn question(service: Seq<char>, recommended: bool) -> Seq<char> {
    if recommended {
        "  Enable for \x1b[1m"@ + service + "\x1b[0m ("@ + service_path(service) + ")? [Y/n] "@
    } else {
        "  Enable for "@ + service + " ("@ + service_path(service) + ")? [y/N] "@
    }
}

/// The question about a service.
pub fn prompt(service: &str, recommended: bool) -> (r: String)
    ensures
        r@ == question(service@, recommended),
{
    let path = joined("/etc/pam.d/", service);
    let mut r: String = if recommended {
        "  Enable for \x1b[1m".to_owned()
    } else {
        "  Enable for ".to_owned()
    };
    r.append(service);
    if recommended {
        r.append("\x1b[0m (");
    } else {
        r.append(" (");
    }
    r.append(path.as_str());
    if recommended {
        r.append(")? [Y/n] ");
    } else {
        r.append(")? [y/N] ");
    }
    r
}

/// A service and the content of its file, where that could be read.
#[derive(Debug)]
pub struct Service {
    pub name: String,
    pub content: Option<String>,
}

impl Service {
    /// What is done about the service.
    pub open spec fn plan(self) -> ServiceAction {
        service_plan(
            self.name@,
            match self.content {
                Some(c) => Some(c@),
                None => None,
            },
        )
    }
}

/// How many of the services have the given plan.
pub open spec fn planned(services: Seq<Service>, action: ServiceAction) -> nat
    decreases services.len(),
{
    if services.len() == 0 {
        0
    } else {
        planned(services.drop_last(), action) + if services.last().plan() == action {
            1nat
        } else {
            0nat
        }
    }
}

/// What is done about each of the services.
#[derive(Debug)]
pub struct Survey {
    pub actions: Vec<ServiceAction>,
    /// How many have the module already.
    pub already: usize,
    /// How many are passed over.
    pub skipped: usize,
}

/// Goes through the services.
pub fn survey(services: &Vec<Service>) -> (r: Survey)
    ensures
        r.actions@.len() == services@.len(),
        forall|i: int| 0 <= i < services@.len() ==> #[trigger] r.actions@[i] == services@[i].plan(),
        r.already == planned(services@, ServiceAction::Already),
        r.skipped == planned(services@, ServiceAction::Skip),
{
    let mut actions: Vec<ServiceAction> = Vec::new();
    let mut already: usize = 0;
    let mut skipped: usize = 0;
    let mut i: usize = 0;
    assert(services@.take(0) == Seq::<Service>::empty());
    while i < services.len()
        invariant
            i <= services@.len(),
            actions@.len() == i,
            already <= i,
            skipped <= i,
            forall|k: int| 0 <= k < i ==> #[trigger] actions@[k] == services@[k].plan(),
            already == planned(services@.take(i as int), ServiceAction::Already),
            skipped == planned(services@.take(i as int), ServiceAction::Skip),
        decreases services.len() - i,
    {
        let s = &services[i];
        let action = classify_service(s.name.as_str(), &s.content);
        proof {
            let now = services@.take(i + 1);
            assert(now.drop_last() == services@.take(i as int));
            assert(now.last() == services@[i as int]);
            assert(action == services@[i as int].plan());
        }
        if action == ServiceAction::Already {
            already += 1;
        } else if action == ServiceAction::Skip {
            skipped += 1;
        }
        actions.push(action);
        i += 1;
    }
    assert(services@.take(services@.len() as int) == services@);
    Survey { actions, already, skipped }
}

/// What is said where services have the module already.
pub fn already_message(count: usize) -> (r: Option<String>)
    ensures
        match r {
            None => count == 0,
            Some(t) => count > 0 && t@ == decimal(count as nat) + " service(s) already configured."@,
        },
{
    if count == 0 {
        return None;
    }
    let mut t = decimal_of(count as u64);
    t.append(" service(s) already configured.");
    Some(t)
}

/// What is said where services were passed over.
pub fn skipped_message(count: usize) -> (r: Option<String>)
    ensures
        match r {
            None => count == 0,
            Some(t) => count > 0 && t@ == decimal(count as nat)
                + " system service(s) skipped (no local camera access)."@,
        },
{
    if count == 0 {
        return None;
    }
    let mut t = decimal_of(count as u64);
    t.append(" system service(s) skipped (no local camera access).");
    Some(t)
}

/// Where the old file of a service is kept.
pub fn backup_path(backup_dir: &str, service: &str) -> (r: String)
    ensures
        r@ == backup_dir@ + "/"@ + service@ + ".bak"@,
{
    let mut r: String = backup_dir.to_owned();
    r.append("/");
    r.append(service);
    r.append(".bak");
    r
}

/// The service whose old file this is: the name in front of `.bak`.
pub open spec fn service_of(file: Seq<char>) -> Option<Seq<char>> {
    let n = file.len() - 4;
    if n > 0 && file.skip(n) == ".bak"@ {
        Some(file.take(n))
    } else {
        None
    }
}

/// The service whose old file this is.
pub fn backup_service(file: &str) -> (r: Option<String>)
    ensures
        match (r, service_of(file@)) {
            (Some(s), Some(t)) => s@ == t,
            (None, None) => true,
            _ => false,
        },
{
    let f = chars_of(file);
    if f.len() <= 4 {
        return None;
    }
    let n: usize = f.len() - 4;
    let tail = string_of(&part(&f, n, f.len()));
    assert(tail@ == f@.skip(n as int));
    if crate::text::same(tail.as_str(), ".bak") {
        let head = part(&f, 0, n);
        assert(head@ == f@.take(n as int));
        Some(string_of(&head))
    } else {
        None
    }
}

// Taking the module out of all services.

/// The text of a file, where it could be read.
pub open spec fn text_of(content: Option<String>) -> Option<Seq<char>> {
    match content {
        Some(c) => Some(c@),
        None => None,
    }
}

/// What is kept of a service among the old files: nothing, or a file that may be readable as text.
pub open spec fn backup_for(backups: Seq<Service>, service: Seq<char>) -> Option<Option<Seq<char>>>
    decreases backups.len(),
{
    if backups.len() == 0 {
        None
    } else if service_of(backups.last().name@) == Some(service) {
        Some(text_of(backups.last().content))
    } else {
        backup_for(backups.drop_last(), service)
    }
}

/// What the file of a service is to be taken from: what was kept of it, or else what it holds.
pub open spec fn source_of(
    current: Option<Seq<char>>,
    backup: Option<Option<Seq<char>>>,
) -> Option<Seq<char>> {
    match backup {
        Some(b) => b,
        None => current,
    }
}

/// What the file of a service holds in the end: what was kept of it, or else what it holds, without
/// the lines of the module.
pub open spec fn after_removal(
    current: Option<Seq<char>>,
    backup: Option<Option<Seq<char>>>,
) -> Option<Seq<char>> {
    match source_of(current, backup) {
        Some(t) => Some(cleaned(t)),
        None => None,
    }
}

/// What is done about the file of a service.
#[derive(Debug)]
pub enum Removal {
    /// It stays.
    Keep,
    /// What was kept of it is copied back.
    Restore,
    /// The text is written to it.
    Write(String),
}

impl Removal {
    /// Whether this is what is done about a file that holds `current`, and of which `backup` was
    /// kept: a text is written only where lines of the module have to go.
    pub open spec fn is_for(
        self,
        current: Option<Seq<char>>,
        backup: Option<Option<Seq<char>>>,
    ) -> bool {
        let written = source_of(current, backup) matches Some(t) && names_module(t);
        match self {
            Removal::Keep => !written && backup is None,
            Removal::Restore => !written && backup is Some,
            Removal::Write(t) => written && t@ == cleaned(source_of(current, backup)->0),
        }
    }

    /// What the file holds once this was done.
    pub open spec fn leaves(
        self,
        current: Option<Seq<char>>,
        backup: Option<Option<Seq<char>>>,
    ) -> Option<Seq<char>> {
        match self {
            Removal::Keep => current,
            Removal::Restore => backup->0,
            Removal::Write(t) => Some(t@),
        }
    }
}

/// What is done about a file leaves in it what it is to hold.
pub proof fn removal_does_what_it_should(
    r: Removal,
    current: Option<Seq<char>>,
    backup: Option<Option<Seq<char>>>,
)
    requires
        r.is_for(current, backup),
    ensures
        r.leaves(current, backup) == after_removal(current, backup),
{
}

/// What is done about the file of a service, by what it holds and what was kept of it.
fn plan_removal(current: &Option<String>, backup: Option<&Option<String>>) -> (r: Removal)
    ensures
        r.is_for(
            text_of(*current),
            match backup {
                Some(b) => Some(text_of(*b)),
                None => None,
            },
        ),
{
    let found = match backup {
        Some(b) => b,
        None => current,
    };
    if let Some(t) = found {
        if let Some(rest) = remove_pam_lines(t.as_str()) {
            return Removal::Write(rest);
        }
    }
    if backup.is_some() {
        Removal::Restore
    } else {
        Removal::Keep
    }
}

/// What is done about the file of each service when the module is taken out. `backups` are the old
/// files that were kept, under the names that they have in their directory.
pub fn uninstall_plan(services: &Vec<Service>, backups: &Vec<Service>) -> (r: Vec<Removal>)
    ensures
        r@.len() == services@.len(),
        forall|i: int|
            0 <= i < services@.len() ==> (#[trigger] r@[i]).is_for(
                text_of(services@[i].content),
                backup_for(backups@, services@[i].name@),
            ),
{
    let mut plan: Vec<Removal> = Vec::new();
    let mut i: usize = 0;
    while i < services.len()
        invariant
            i <= services@.len(),
            plan@.len() == i,
            forall|k: int|
                0 <= k < i ==> (#[trigger] plan@[k]).is_for(
                    text_of(services@[k].content),
                    backup_for(backups@, services@[k].name@),
                ),
        decreases services.len() - i,
    {
        let s = &services[i];
        let removal = match find_backup(backups, s.name.as_str()) {
            Some(k) => plan_removal(&s.content, Some(&backups[k].content)),
            None => plan_removal(&s.content, None),
        };
        plan.push(removal);
        i += 1;
    }
    plan
}

/// Which of the old files is that of a service.
pub fn find_backup(backups: &Vec<Service>, service: &str) -> (r: Option<usize>)
    ensures
        match r {
            Some(k) => k < backups@.len() && service_of(backups@[k as int].name@) == Some(service@)
                && backup_for(backups@, service@) == Some(text_of(backups@[k as int].content)),
            None => backup_for(backups@, service@) is None,
        },
{
    let mut k: usize = backups.len();
    assert(backups@.take(backups@.len() as int) == backups@);
    while k > 0
        invariant
            k <= backups@.len(),
            backup_for(backups@.take(k as int), service@) == backup_for(backups@, service@),
        decreases k,
    {
        proof {
            let now = backups@.take(k as int);
            assert(now.last() == backups@[k - 1]);
            assert(now.drop_last() == backups@.take(k - 1));
        }
        k -= 1;
        if let Some(found) = backup_service(backups[k].name.as_str()) {
            if crate::text::same(found.as_str(), service) {
                return Some(k);
            }
        }
    }
    None
}

/// The files of all services, by name. A file that cannot be read as text is there without one.
pub type Directory = Map<Seq<char>, Option<Seq<char>>>;

/// A file after the module was put into it, where it was chosen and can be read.
pub open spec fn after_insertion(content: Option<Seq<char>>, chosen: bool, line: Seq<char>) -> Option<
    Seq<char>,
> {
    match content {
        Some(c) => if chosen {
            Some(with_module(c, line))
        } else {
            content
        },
        None => None,
    }
}

/// The directory after the module was put into the files of the chosen services.
pub open spec fn installed(files: Directory, chosen: Set<Seq<char>>, line: Seq<char>) -> Directory {
    files.map_entries(
        |name: Seq<char>, content: Option<Seq<char>>|
            after_insertion(content, chosen.contains(name), line),
    )
}

/// The old files that were kept, by the service, where none had been kept before.
pub open spec fn kept(files: Directory, chosen: Set<Seq<char>>) -> Directory {
    files.restrict(chosen)
}

/// The directory with the file of the service that is created where it is not there.
pub open spec fn with_created(files: Directory, line: Seq<char>) -> Directory {
    if files.dom().contains("polkit-1"@) {
        files
    } else {
        files.insert("polkit-1"@, Some(template(line)))
    }
}

/// The file of a service, where it is there.
pub open spec fn file_in(files: Directory, name: Seq<char>) -> Option<Option<Seq<char>>> {
    if files.dom().contains(name) {
        Some(files[name])
    } else {
        None
    }
}

/// The directory after the module was taken out of all services.
pub open spec fn uninstalled(files: Directory, backups: Directory) -> Directory {
    files.map_entries(
        |name: Seq<char>, content: Option<Seq<char>>| after_removal(content, file_in(backups, name)),
    )
}

/// The directory after an installation: the module is in the files of the chosen services, and the
/// file that can be created was, where that was wanted.
pub open spec fn after_install(
    files: Directory,
    chosen: Set<Seq<char>>,
    line: Seq<char>,
    create: bool,
) -> Directory {
    if create {
        with_created(installed(files, chosen, line), line)
    } else {
        installed(files, chosen, line)
    }
}

/// The directory after an installation and its removal.
pub open spec fn after_both(
    files: Directory,
    chosen: Set<Seq<char>>,
    line: Seq<char>,
    create: bool,
) -> Directory {
    uninstalled(after_install(files, chosen, line, create), kept(files, chosen))
}

/// Uninstalling undoes an installation: every file is again what it was, to the last character,
/// whatever its line ends are. A file that was created stays, and nothing names the module.
pub proof fn uninstall_undoes_install(
    files: Directory,
    chosen: Set<Seq<char>>,
    line: Seq<char>,
    create: bool,
)
    requires
        forall|name: Seq<char>| #[trigger] files.dom().contains(name) ==> (files[name] matches Some(c)
            ==> !names_module(c)),
    ensures
        forall|name: Seq<char>| #[trigger] files.dom().contains(name) ==> {
            let after = after_both(files, chosen, line, create);
            after.dom().contains(name) && after[name] == files[name]
        },
        forall|name: Seq<char>| #[trigger]
            after_both(files, chosen, line, create).dom().contains(name) ==> files.dom().contains(name)
                || (create && name == "polkit-1"@ && after_both(files, chosen, line, create)[name]
                == Some(cleaned(template(line)))),
        forall|name: Seq<char>| #[trigger]
            after_both(files, chosen, line, create).dom().contains(name) ==> (after_both(
                files,
                chosen,
                line,
                create,
            )[name] matches Some(c) ==> !names_module(c)),
{
    let put = installed(files, chosen, line);
    let before = after_install(files, chosen, line, create);
    let after = after_both(files, chosen, line, create);
    assert forall|name: Seq<char>| #[trigger] files.dom().contains(name) implies after.dom().contains(name)
        && after[name] == files[name] by {
        assert(put.dom().contains(name));
        assert(before.dom().contains(name));
    }
    assert forall|name: Seq<char>| #[trigger] after.dom().contains(name) implies (
    files.dom().contains(name) || (create && name == "polkit-1"@ && after[name] == Some(
        cleaned(template(line)),
    ))) && (after[name] matches Some(c) ==> !names_module(c)) by {
        assert(before.dom().contains(name));
        if !files.dom().contains(name) {
            assert(!put.dom().contains(name));
            cleaned_file_is_clean(template(line));
        } else {
            assert(after[name] == files[name]);
        }
    }
}

/// An old file that was kept of a service is found again, where each service has one at most.
pub proof fn kept_file_is_found(backups: Seq<Service>, k: int, service: Seq<char>)
    requires
        service.len() > 0,
        0 <= k < backups.len(),
        backups[k].name@ == service + ".bak"@,
        forall|i: int|
            0 <= i < backups.len() && i != k ==> (#[trigger] backups[i]).name@ != backups[k].name@,
    ensures
        backup_for(backups, service) == Some(text_of(backups[k].content)),
    decreases backups.len(),
{
    backup_tells_its_service(service);
    if k < backups.len() - 1 {
        let last = backups[backups.len() - 1].name@;
        let prior = backups.drop_last();
        assert(last != backups[k].name@);
        if service_of(last) == Some(service) {
            let n = last.len() - 4;
            assert(last =~= last.take(n) + last.skip(n));
        }
        assert forall|i: int| 0 <= i < prior.len() && i != k implies (#[trigger] prior[i]).name@
            != prior[k].name@ by {
            assert(prior[i] == backups[i]);
        }
        kept_file_is_found(prior, k, service);
    }
}

/// The name of a backup tells the service.
pub proof fn backup_tells_its_service(service: Seq<char>)
    requires
        service.len() > 0,
    ensures
        service_of(service + ".bak"@) == Some(service),
{
    reveal_strlit(".bak");
    let file = service + ".bak"@;
    assert(file.skip(file.len() - 4) =~= ".bak"@);
    assert(file.take(file.len() - 4) =~= service);
}

// The system around.

/// The display manager, by which of the known ones is active: `sddm`, `gdm`, `lightdm`, in this
/// order.
pub fn detect_display_manager(sddm: bool, gdm: bool, lightdm: bool) -> (r: &'static str)
    ensures
        r@ == if sddm {
            "sddm"@
        } else if gdm {
            "gdm"@
        } else if lightdm {
            "lightdm"@
        } else {
            "unknown"@
        },
{
    if sddm {
        "sddm"
    } else if gdm {
        "gdm"
    } else if lightdm {
        "lightdm"
    } else {
        "unknown"
    }
}

/// The user of the display manager: it has the manager's name, and `sddm` is taken where the
/// manager is not known.
pub fn display_manager_user(dm: &'static str) -> (r: &'static str)
    ensures
        r@ == if dm@ == "unknown"@ {
            "sddm"@
        } else {
            dm@
        },
{
    if crate::text::same(dm, "unknown") {
        "sddm"
    } else {
        dm
    }
}

/// What is done about the group that may use cameras.
#[derive(Debug, Clone, Copy, PartialEq, Eq, Structural)]
pub enum GroupAction {
    NoSuchUser,
    AlreadyMember,
    Add,
}

/// What is done about the group that may use cameras, by whether the user exists and the list of
/// the groups that it is in.
pub fn video_group(user_exists: bool, groups: &str) -> (r: GroupAction)
    ensures
        r == if !user_exists {
            GroupAction::NoSuchUser
        } else if contains(groups@, "video"@) {
            GroupAction::AlreadyMember
        } else {
            GroupAction::Add
        },
{
    if !user_exists {
        GroupAction::NoSuchUser
    } else if holds(&chars_of(groups), "video") {
        GroupAction::AlreadyMember
    } else {
        GroupAction::Add
    }
}

/// What is done about the SELinux policy.
#[derive(Debug, Clone, Copy, PartialEq, Eq, Structural)]
pub enum SelinuxAction {
    NotAvailable,
    NotActive,
    NoSource,
    Ask,
}

/// What is done about the SELinux policy, by what `getenforce` printed, where it is there, and
/// whether the policy's source is there.
pub fn selinux_plan(getenforce: &Option<String>, source_exists: bool) -> (r: SelinuxAction)
    ensures
        r == match getenforce {
            None => SelinuxAction::NotAvailable,
            Some(s) => if trim(s@) == "Disabled"@ {
                SelinuxAction::NotActive
            } else if !source_exists {
                SelinuxAction::NoSource
            } else {
                SelinuxAction::Ask
            },
        },
{
    match getenforce {
        None => SelinuxAction::NotAvailable,
        Some(s) => {
            let mode = string_of(&trimmed(&chars_of(s.as_str())));
            if crate::text::same(mode.as_str(), "Disabled") {
                SelinuxAction::NotActive
            } else if !source_exists {
                SelinuxAction::NoSource
            } else {
                SelinuxAction::Ask
            }
        },
    }
}

/// The index of the last `c`, or -1.
pub open spec fn find_last(s: Seq<char>, c: char) -> int
    decreases s.len(),
{
    if s.len() == 0 {
        -1
    } else if s.last() == c {
        s.len() - 1
    } else {
        find_last(s.drop_last(), c)
    }
}

/// What stands between the first and the last quotation mark of a line.
pub open spec fn quoted(line: Seq<char>) -> Option<Seq<char>> {
    let a = crate::text::find(line, '"') as int;
    let b = find_last(line, '"');
    if a < b {
        Some(line.subrange(a + 1, b))
    } else {
        None
    }
}

/// Whether a line tells the default of `secure_path`.
pub open spec fn tells_secure_path(line: Seq<char>) -> bool {
    contains(line, "Default value for"@) && contains(line, "secure_path"@)
}

/// What the first line that tells `secure_path` says.
pub open spec fn secure_path_in(ls: Seq<Seq<char>>) -> Option<Seq<char>>
    decreases ls.len(),
{
    if ls.len() == 0 {
        None
    } else if tells_secure_path(ls[0]) {
        quoted(ls[0])
    } else {
        secure_path_in(ls.drop_first())
    }
}

#[verifier::spinoff_prover]
fn between_quotes(line: &Vec<char>) -> (r: Option<Vec<char>>)
    ensures
        match (r, quoted(line@)) {
            (Some(v), Some(s)) => v@ == s,
            (None, None) => true,
            _ => false,
        },
{
    let before = crate::text::up_to(line, '"');
    let a: usize = before.len();
    proof {
        crate::text::lemma_find_bound(line@, '"');
    }
    let mut b: usize = line.len();
    assert(line@.take(line@.len() as int) == line@);
    while b > 0 && line[b - 1] != '"'
        invariant
            b <= line@.len(),
            find_last(line@.take(b as int), '"') == find_last(line@, '"'),
        decreases b,
    {
        assert(line@.take(b as int).last() == line@[b - 1]);
        assert(line@.take(b as int).drop_last() == line@.take(b - 1));
        b -= 1;
    }
    proof {
        if b > 0 {
            assert(line@.take(b as int).last() == line@[b - 1]);
        } else {
            assert(line@.take(0) == Seq::<char>::empty());
        }
        assert(find_last(line@, '"') == b - 1);
    }
    if b > 0 && a < b - 1 {
        Some(part(line, a + 1, b - 1))
    } else {
        None
    }
}

/// The path that `sudo` uses, from what `sudo -V` printed, or a usual one.
pub fn secure_path(sudo_version: &Option<String>) -> (r: String)
    ensures
        ({
            let told = match sudo_version {
                Some(t) => secure_path_in(lines(t@)),
                None => None,
            };
            r@ == match told {
                Some(p) => p,
                None => "/usr/local/sbin:/usr/local/bin:/usr/sbin:/usr/bin"@,
            }
        }),
{
    if let Some(t) = sudo_version {
        let all = lines_of(&chars_of(t.as_str()));
        let ghost ls = texts(all@);
        let mut i: usize = 0;
        assert(ls.skip(0) == ls);
        while i < all.len()
            invariant
                i <= all@.len(),
                ls == texts(all@),
                ls == lines(t@),
                *sudo_version == Some(*t),
                secure_path_in(ls) == secure_path_in(ls.skip(i as int)),
            decreases all.len() - i,
        {
            proof {
                assert(ls.skip(i as int)[0] == all@[i as int]@);
                assert(ls.skip(i as int).drop_first() == ls.skip(i + 1));
            }
            if holds(&all[i], "Default value for") && holds(&all[i], "secure_path") {
                return match between_quotes(&all[i]) {
                    Some(p) => string_of(&p),
                    None => "/usr/local/sbin:/usr/local/bin:/usr/sbin:/usr/bin".to_owned(),
                };
            }
            i += 1;
        }
        assert(ls.skip(ls.len() as int) == Seq::<Seq<char>>::empty());
    }
    "/usr/local/sbin:/usr/local/bin:/usr/sbin:/usr/bin".to_owned()
}

/// The file that lets `sudo` find the commands.
pub fn sudoers_file(current: &str, libexecdir: &str) -> (r: String)
    ensures
        r@ == "# Added by face-auth installer\nDefaults secure_path=\""@ + current@ + ":"@ + libexecdir@
            + "\"\n"@,
{
    let mut r: String = "# Added by face-auth installer\nDefaults secure_path=\"".to_owned();
    r.append(current);
    r.append(":");
    r.append(libexecdir);
    r.append("\"\n");
    r
}

/// The file that lets shells find the commands.
pub fn profile_file(libexecdir: &str) -> (r: String)
    ensures
        r@ == "# Added by face-auth installer\nexport PATH=\"$PATH:"@ + libexecdir@ + "\"\n"@,
{
    let mut r: String = "# Added by face-auth installer\nexport PATH=\"$PATH:".to_owned();
    r.append(libexecdir);
    r.append("\"\n");
    r
}

/// An installation puts the module into the files of the chosen services that can be read, leaves all
/// others as they are, and creates one file at most: that of `polkit-1`, where it was not there.
pub proof fn installation_changes_the_chosen(
    files: Directory,
    chosen: Set<Seq<char>>,
    line: Seq<char>,
    create: bool,
    name: Seq<char>,
)
    ensures
        ({
            let after = after_install(files, chosen, line, create);
            &&& files.dom().contains(name) ==> after.dom().contains(name)
            &&& files.dom().contains(name) && !chosen.contains(name) ==> after[name] == files[name]
            &&& files.dom().contains(name) && files[name] is None ==> after[name] is None
            &&& files.dom().contains(name) && chosen.contains(name) && files[name] is Some
                ==> after[name] == Some(with_module(files[name]->0, line))
            &&& !files.dom().contains(name) ==> (after.dom().contains(name) <==> create && name
                == "polkit-1"@)
        }),
{
}

} // verus!
