//! What holds of the changes that an installation makes: to the lines of PAM files, to the services,
//! and of what is read from other programs.
use crate::install::{
    auth_line, first_auth, inserted, means_yes, names_module, planned, quoted, find_last, recommended_services,
    secure_path_in, service_of, service_plan, skip_services, tells_secure_path, without_module, Service,
    ServiceAction, after_removal, cleaned, question,
};
use crate::text::{blank, is_space, lines, trim_end, trim_start, with_line_ends};
use vstd::prelude::*;

verus! {

/// The authentication part begins with a line whose first letters are `auth`, with a minus before them
/// or not.
pub proof fn auth_lines_begin_with_auth(l: Seq<char>)
    ensures
        auth_line(l) <==> {
            ||| l.len() >= 4 && l[0] == 'a' && l[1] == 'u' && l[2] == 't' && l[3] == 'h'
            ||| l.len() >= 5 && l[0] == '-' && l[1] == 'a' && l[2] == 'u' && l[3] == 't' && l[4] == 'h'
        },
{
    reveal_strlit("auth");
    reveal_strlit("-auth");
    let a = "auth"@;
    let b = "-auth"@;
    assert(a.len() == 4 && a[0] == 'a' && a[1] == 'u' && a[2] == 't' && a[3] == 'h');
    assert(b.len() == 5 && b[0] == '-' && b[1] == 'a' && b[2] == 'u' && b[3] == 't' && b[4] == 'h');
    if l.len() >= 4 {
        let t = l.take(4);
        assert(t[0] == l[0] && t[1] == l[1] && t[2] == l[2] && t[3] == l[3]);
        if l[0] == 'a' && l[1] == 'u' && l[2] == 't' && l[3] == 'h' {
            assert(t =~= a);
        }
    }
    if l.len() >= 5 {
        let t = l.take(5);
        assert(t[0] == l[0] && t[1] == l[1] && t[2] == l[2] && t[3] == l[3] && t[4] == l[4]);
        if l[0] == '-' && l[1] == 'a' && l[2] == 'u' && l[3] == 't' && l[4] == 'h' {
            assert(t =~= b);
        }
    }
}

proof fn lemma_first_auth_at(ls: Seq<Seq<char>>, i: int)
    requires
        0 <= i <= ls.len(),
        i < ls.len() ==> auth_line(ls[i]),
        forall|k: int| 0 <= k < i ==> !auth_line(#[trigger] ls[k]),
    ensures
        first_auth(ls) == i,
    decreases ls.len(),
{
    if i > 0 {
        let rest = ls.drop_first();
        assert(!auth_line(ls[0]));
        assert forall|k: int| 0 <= k < i - 1 implies !auth_line(#[trigger] rest[k]) by {
            assert(rest[k] == ls[k + 1]);
        }
        lemma_first_auth_at(rest, i - 1);
    }
}

/// The new line comes right before the first line of the authentication part. All other lines stay as
/// they are, before it and behind it.
pub proof fn line_comes_before_the_authentication(ls: Seq<Seq<char>>, line: Seq<char>, i: int, k: int)
    requires
        0 <= i < ls.len(),
        auth_line(ls[i]),
        forall|j: int| 0 <= j < i ==> !auth_line(#[trigger] ls[j]),
        0 <= k < ls.len(),
    ensures
        inserted(ls, line).len() == ls.len() + 1,
        inserted(ls, line)[i] == line,
        k < i ==> inserted(ls, line)[k] == ls[k],
        k >= i ==> inserted(ls, line)[k + 1] == ls[k],
{
    lemma_first_auth_at(ls, i);
}

/// Without an authentication part the new line comes first.
pub proof fn line_comes_first_otherwise(ls: Seq<Seq<char>>, line: Seq<char>, k: int)
    requires
        forall|j: int| 0 <= j < ls.len() ==> !auth_line(#[trigger] ls[j]),
        0 <= k < ls.len(),
    ensures
        inserted(ls, line).len() == ls.len() + 1,
        inserted(ls, line)[0] == line,
        inserted(ls, line)[k + 1] == ls[k],
{
    lemma_first_auth_at(ls, ls.len() as int);
}

/// How many of the first `n` lines do not name the module.
pub open spec fn others_before(ls: Seq<Seq<char>>, n: int) -> nat
    decreases n,
{
    if n <= 0 {
        0
    } else {
        others_before(ls, n - 1) + if names_module(ls[n - 1]) {
            0nat
        } else {
            1nat
        }
    }
}

/// Exactly the lines that do not name the module stay, each at the place that the number of such lines
/// before it gives.
pub proof fn other_lines_stay(ls: Seq<Seq<char>>, i: int)
    requires
        0 <= i < ls.len(),
    ensures
        without_module(ls).len() == others_before(ls, ls.len() as int),
        !names_module(ls[i]) ==> others_before(ls, i) < without_module(ls).len() && without_module(
            ls,
        )[others_before(ls, i) as int] == ls[i],
    decreases ls.len(),
{
    let shorter = ls.drop_last();
    lemma_same_count(ls, shorter.len() as int);
    if i < shorter.len() {
        other_lines_stay(shorter, i);
        lemma_same_count(ls, i);
        assert(shorter[i] == ls[i]);
    } else {
        lemma_others_len(shorter);
    }
}

proof fn lemma_same_count(ls: Seq<Seq<char>>, n: int)
    requires
        0 <= n < ls.len(),
    ensures
        others_before(ls.drop_last(), n) == others_before(ls, n),
    decreases n,
{
    if n > 0 {
        lemma_same_count(ls, n - 1);
        assert(ls.drop_last()[n - 1] == ls[n - 1]);
    }
}

proof fn lemma_others_len(ls: Seq<Seq<char>>)
    ensures
        without_module(ls).len() == others_before(ls, ls.len() as int),
    decreases ls.len(),
{
    if ls.len() > 0 {
        lemma_others_len(ls.drop_last());
        lemma_same_count(ls, ls.len() - 1);
    }
}

/// What is done about a service. It is passed over where its name is one of those. Otherwise a file
/// that cannot be read or has no authentication part is ignored, one that names the module has it
/// already, and about any other someone is asked.
pub proof fn services_are_told_apart(name: Seq<char>, content: Option<Seq<char>>)
    ensures
        ({
            let passed_over = skip_services().contains(name);
            let has_part = content is Some && exists|i: int|
                0 <= i < lines(content->0).len() && auth_line(#[trigger] lines(content->0)[i]);
            let has_module = content is Some && names_module(content->0);
            let p = service_plan(name, content);
            &&& p == ServiceAction::Skip <==> passed_over
            &&& p == ServiceAction::Ignore <==> !passed_over && !has_part
            &&& p == ServiceAction::Already <==> !passed_over && has_part && has_module
            &&& p is Ask <==> !passed_over && has_part && !has_module
            &&& p is Ask ==> (p->recommended <==> recommended_services().contains(name))
        }),
{
    if content is Some {
        let ls = lines(content->0);
        lemma_first_auth_bound(ls);
        if exists|i: int| 0 <= i < ls.len() && auth_line(#[trigger] ls[i]) {
            let i = choose|i: int| 0 <= i < ls.len() && auth_line(#[trigger] ls[i]);
            assert(first_auth(ls) <= i);
        }
    }
}

proof fn lemma_first_auth_bound(ls: Seq<Seq<char>>)
    ensures
        first_auth(ls) <= ls.len(),
        first_auth(ls) < ls.len() ==> auth_line(ls[first_auth(ls) as int]),
        forall|k: int| 0 <= k < first_auth(ls) ==> !auth_line(#[trigger] ls[k]),
    decreases ls.len(),
{
    if ls.len() > 0 && !auth_line(ls[0]) {
        let rest = ls.drop_first();
        lemma_first_auth_bound(rest);
        assert forall|k: int| 0 <= k < first_auth(ls) implies !auth_line(#[trigger] ls[k]) by {
            if k > 0 {
                assert(rest[k - 1] == ls[k]);
            }
        }
    }
}

/// Which of the services have a plan.
pub open spec fn with_plan(services: Seq<Service>, action: ServiceAction) -> Set<int> {
    Set::new(|i: int| 0 <= i < services.len() && services[i].plan() == action)
}

/// Every service is counted once, for the plan that it has.
pub proof fn each_service_counts_once(services: Seq<Service>, action: ServiceAction)
    ensures
        with_plan(services, action).finite(),
        planned(services, action) == with_plan(services, action).len(),
    decreases services.len(),
{
    if services.len() == 0 {
        assert(with_plan(services, action) =~= Set::<int>::empty());
    } else {
        let prior = services.drop_last();
        each_service_counts_once(prior, action);
        assert(!with_plan(prior, action).contains(services.len() - 1));
        if services.last().plan() == action {
            assert(with_plan(services, action) =~= with_plan(prior, action).insert(services.len() - 1));
        } else {
            assert(with_plan(services, action) =~= with_plan(prior, action));
        }
    }
}

/// The first letter of an answer decides, wherever it stands: `y` means yes, any other means no. Where
/// there is no letter, the recommendation decides.
pub proof fn first_letter_decides(front: Seq<char>, c: char, rest: Seq<char>, recommended: bool)
    requires
        blank(front),
        !is_space(c),
    ensures
        means_yes(front.push(c) + rest, recommended) <==> c == 'y' || c == 'Y',
        means_yes(front, recommended) == recommended,
{
    let word = seq![c] + rest;
    crate::text::only_outer_space_goes(front, Seq::empty(), Seq::empty());
    assert(front + Seq::<char>::empty() + Seq::<char>::empty() =~= front);
    assert(front.push(c) + rest =~= front + word);
    lemma_front_goes(front, word);
    lemma_first_letter_stays(word);
}

proof fn lemma_front_goes(front: Seq<char>, word: Seq<char>)
    requires
        blank(front),
        word.len() > 0,
        !is_space(word[0]),
    ensures
        trim_start(front + word) == word,
    decreases front.len(),
{
    let s = front + word;
    if front.len() > 0 {
        let less = front.drop_first();
        assert(s[0] == front[0]);
        assert(s.drop_first() =~= less + word);
        assert forall|i: int| 0 <= i < less.len() implies is_space(#[trigger] less[i]) by {
            assert(less[i] == front[i + 1]);
        }
        lemma_front_goes(less, word);
    } else {
        assert(s =~= word);
    }
}

proof fn lemma_first_letter_stays(word: Seq<char>)
    requires
        word.len() > 0,
        !is_space(word[0]),
    ensures
        trim_end(word).len() > 0,
        trim_end(word)[0] == word[0],
    decreases word.len(),
{
    if is_space(word.last()) {
        lemma_first_letter_stays(word.drop_last());
    }
}

/// An old file is that of a service exactly where it has the service's name and `.bak` behind it.
pub proof fn old_files_end_in_bak(file: Seq<char>, service: Seq<char>)
    ensures
        service_of(file) == Some(service) <==> service.len() > 0 && file == service + ".bak"@,
{
    reveal_strlit(".bak");
    assert(".bak"@.len() == 4);
    let n = file.len() - 4;
    if service_of(file) is Some {
        assert(file =~= file.take(n) + file.skip(n));
    }
    if service.len() > 0 && file == service + ".bak"@ {
        assert(file.take(n) =~= service);
        assert(file.skip(n) =~= ".bak"@);
    }
}

proof fn lemma_last_at(s: Seq<char>, c: char, i: int)
    requires
        -1 <= i < s.len(),
        i >= 0 ==> s[i] == c,
        forall|k: int| i < k < s.len() ==> s[k] != c,
    ensures
        find_last(s, c) == i,
    decreases s.len(),
{
    if s.len() > 0 && i < s.len() - 1 {
        assert(s[s.len() - 1] != c);
        lemma_last_at(s.drop_last(), c, i);
    }
}

/// What is quoted stands between the outermost quotation marks of a line. With fewer than two of them
/// nothing is.
pub proof fn quotes_enclose(a: Seq<char>, inner: Seq<char>, b: Seq<char>)
    requires
        !a.contains('"'),
        !b.contains('"'),
    ensures
        quoted(a.push('"') + inner.push('"') + b) == Some(inner),
        quoted(a) is None,
        quoted(a.push('"') + b) is None,
{
    let s = a.push('"') + inner.push('"') + b;
    let one = a.push('"') + b;
    let n = a.len();
    let last = (n + 1 + inner.len()) as int;
    assert forall|k: int| 0 <= k < n implies a[k] != '"' && s[k] != '"' && one[k] != '"' by {
        assert(a.contains(a[k]));
    }
    assert forall|k: int| last < k < s.len() implies s[k] != '"' by {
        assert(s[k] == b[k - last - 1]);
        assert(b.contains(b[k - last - 1]));
    }
    assert forall|k: int| n < k < one.len() implies one[k] != '"' by {
        assert(one[k] == b[k - n - 1]);
        assert(b.contains(b[k - n - 1]));
    }
    assert(s[n as int] == '"' && s[last] == '"' && one[n as int] == '"');
    crate::text::lemma_find_is(s, '"', n);
    crate::text::lemma_find_is(one, '"', n);
    crate::text::lemma_find_is(a, '"', n);
    lemma_last_at(s, '"', last);
    lemma_last_at(one, '"', n as int);
    lemma_last_at(a, '"', -1);
    assert(s.subrange(n as int + 1, last) =~= inner);
}

/// The first line that tells the path counts, and no other.
pub proof fn first_telling_line_counts(ls: Seq<Seq<char>>, i: int)
    requires
        0 <= i <= ls.len(),
        i < ls.len() ==> tells_secure_path(ls[i]),
        forall|k: int| 0 <= k < i ==> !tells_secure_path(#[trigger] ls[k]),
    ensures
        i < ls.len() ==> secure_path_in(ls) == quoted(ls[i]),
        i == ls.len() ==> secure_path_in(ls) is None,
    decreases ls.len(),
{
    if i > 0 {
        let rest = ls.drop_first();
        assert(!tells_secure_path(ls[0]));
        assert forall|k: int| 0 <= k < i - 1 implies !tells_secure_path(#[trigger] rest[k]) by {
            assert(rest[k] == ls[k + 1]);
        }
        first_telling_line_counts(rest, i - 1);
    }
}

/// A file that does not name the module is not touched. Of one that does, the other lines are written
/// as lines, and where there are none, an empty line stays.
pub proof fn only_module_lines_go(content: Seq<char>)
    ensures
        !names_module(content) ==> cleaned(content) == content,
        names_module(content) && (exists|i: int|
            0 <= i < lines(content).len() && !names_module(#[trigger] lines(content)[i])) ==> cleaned(
            content,
        ) == with_line_ends(without_module(lines(content))),
        names_module(content) && (forall|i: int|
            0 <= i < lines(content).len() ==> names_module(#[trigger] lines(content)[i])) ==> cleaned(
            content,
        ) == seq!['\n'],
{
    let ls = lines(content);
    lemma_others_len(ls);
    if exists|i: int| 0 <= i < ls.len() && !names_module(#[trigger] ls[i]) {
        let i = choose|i: int| 0 <= i < ls.len() && !names_module(#[trigger] ls[i]);
        other_lines_stay(ls, i);
    }
    if forall|i: int| 0 <= i < ls.len() ==> names_module(#[trigger] ls[i]) {
        lemma_no_others(ls, ls.len() as int);
    }
}

proof fn lemma_no_others(ls: Seq<Seq<char>>, n: int)
    requires
        0 <= n <= ls.len(),
        forall|i: int| 0 <= i < ls.len() ==> names_module(#[trigger] ls[i]),
    ensures
        others_before(ls, n) == 0,
    decreases n,
{
    if n > 0 {
        lemma_no_others(ls, n - 1);
        assert(names_module(ls[n - 1]));
    }
}

/// What was kept of a file comes before what it holds, and either way the lines of the module go.
pub proof fn kept_file_comes_first(
    current: Option<Seq<char>>,
    backup: Option<Option<Seq<char>>>,
    t: Seq<char>,
)
    ensures
        backup == Some(Some(t)) ==> after_removal(current, backup) == Some(cleaned(t)),
        backup == Some(None::<Seq<char>>) ==> after_removal(current, backup) is None,
        backup is None && current == Some(t) ==> after_removal(current, backup) == Some(cleaned(t)),
        backup is None && current is None ==> after_removal(current, backup) is None,
{
}

/// The question shows by a capital letter what is taken where nothing is typed.
pub proof fn question_shows_the_default(service: Seq<char>)
    ensures
        ({
            let q = question(service, true);
            q.len() >= 6 && q[q.len() - 5] == 'Y' && q[q.len() - 3] == 'n'
        }),
        ({
            let q = question(service, false);
            q.len() >= 6 && q[q.len() - 5] == 'y' && q[q.len() - 3] == 'N'
        }),
{
    reveal_strlit(")? [Y/n] ");
    reveal_strlit(")? [y/N] ");
    assert(")? [Y/n] "@.len() == 9 && ")? [y/N] "@.len() == 9);
}

/// What is done about the system around: a user who exists and is not in the group is added to it, and
/// the policy is offered where SELinux is on and the policy is there.
pub proof fn system_is_left_in_order(
    user_exists: bool,
    groups: &str,
    group: crate::install::GroupAction,
    getenforce: Option<String>,
    source_exists: bool,
    policy: crate::install::SelinuxAction,
)
    requires
        call_ensures(crate::install::video_group, (user_exists, groups), group),
        call_ensures(crate::install::selinux_plan, (&getenforce, source_exists), policy),
    ensures
        group == crate::install::GroupAction::Add <==> user_exists && !crate::text::contains(
            groups@,
            "video"@,
        ),
        group == crate::install::GroupAction::NoSuchUser <==> !user_exists,
        policy == crate::install::SelinuxAction::Ask <==> getenforce is Some && crate::text::trim(
            getenforce->0@,
        ) != "Disabled"@ && source_exists,
        policy == crate::install::SelinuxAction::NotAvailable <==> getenforce is None,
        policy == crate::install::SelinuxAction::NotActive <==> getenforce is Some && crate::text::trim(
            getenforce->0@,
        ) == "Disabled"@,
{
}

} // verus!
