//! Text as sequences of characters: trimming, splitting, searching, and decimal numbers.
use vstd::prelude::*;

verus! {

/// `String::push` of the standard library: appends one character to the end of the string.
pub assume_specification[ String::push ](s: &mut String, c: char)
    ensures
        final(s)@ == old(s)@.push(c),
;

/// Whether a character has the Unicode property `White_Space`.
pub open spec fn is_space(c: char) -> bool {
    let n = c as u32;
    ||| 9 <= n <= 13
    ||| n == 0x20
    ||| n == 0x85
    ||| n == 0xa0
    ||| n == 0x1680
    ||| 0x2000 <= n <= 0x200a
    ||| n == 0x2028
    ||| n == 0x2029
    ||| n == 0x202f
    ||| n == 0x205f
    ||| n == 0x3000
}

/// `s` without the white space that it begins with.
pub open spec fn trim_start(s: Seq<char>) -> Seq<char>
    decreases s.len(),
{
    if s.len() > 0 && is_space(s[0]) {
        trim_start(s.drop_first())
    } else {
        s
    }
}

/// `s` without the white space that it ends with.
pub open spec fn trim_end(s: Seq<char>) -> Seq<char>
    decreases s.len(),
{
    if s.len() > 0 && is_space(s.last()) {
        trim_end(s.drop_last())
    } else {
        s
    }
}

/// `s` without the white space at either end.
pub open spec fn trim(s: Seq<char>) -> Seq<char> {
    trim_end(trim_start(s))
}

/// `s` without the run of `c` that it begins with.
pub open spec fn drop_leading(s: Seq<char>, c: char) -> Seq<char>
    decreases s.len(),
{
    if s.len() > 0 && s[0] == c {
        drop_leading(s.drop_first(), c)
    } else {
        s
    }
}

/// `s` without the run of `c` that it ends with.
pub open spec fn drop_trailing(s: Seq<char>, c: char) -> Seq<char>
    decreases s.len(),
{
    if s.len() > 0 && s.last() == c {
        drop_trailing(s.drop_last(), c)
    } else {
        s
    }
}

/// Whether `s` begins with `p`.
pub open spec fn starts_with(s: Seq<char>, p: Seq<char>) -> bool {
    p.len() <= s.len() && s.take(p.len() as int) == p
}

/// Whether `p` occurs in `s`.
pub open spec fn contains(s: Seq<char>, p: Seq<char>) -> bool {
    exists|i: int| 0 <= i && i + p.len() <= s.len() && #[trigger] s.skip(i).take(p.len() as int) == p
}

/// The index of the first `c` in `s`, or the length of `s` where there is none.
pub open spec fn find(s: Seq<char>, c: char) -> nat
    decreases s.len(),
{
    if s.len() == 0 || s[0] == c {
        0
    } else {
        1 + find(s.drop_first(), c)
    }
}

/// The parts of `s` between the occurrences of `sep`.
pub open spec fn split(s: Seq<char>, sep: char) -> Seq<Seq<char>>
    decreases s.len(),
{
    let i = find(s, sep) as int;
    if i >= s.len() {
        seq![s]
    } else {
        seq![s.take(i)] + split(s.skip(i + 1), sep)
    }
}

/// A line without the carriage return before its line feed.
pub open spec fn without_cr(line: Seq<char>) -> Seq<char> {
    if line.len() > 0 && line.last() == '\r' {
        line.drop_last()
    } else {
        line
    }
}

/// The lines of `s`: each ends at a line feed or at the end of the text, and a line feed that
/// ends the text begins no further line.
pub open spec fn lines(s: Seq<char>) -> Seq<Seq<char>>
    decreases s.len(),
{
    let i = find(s, '\n') as int;
    if s.len() == 0 {
        Seq::empty()
    } else if i >= s.len() {
        seq![s]
    } else {
        seq![without_cr(s.take(i))] + lines(s.skip(i + 1))
    }
}

/// The texts of a list of character vectors.
pub open spec fn texts(parts: Seq<Vec<char>>) -> Seq<Seq<char>> {
    Seq::new(parts.len(), |i: int| parts[i]@)
}

/// Each line followed by a line feed.
pub open spec fn with_line_ends(parts: Seq<Seq<char>>) -> Seq<char>
    decreases parts.len(),
{
    if parts.len() == 0 {
        Seq::empty()
    } else {
        with_line_ends(parts.drop_last()) + parts.last().push('\n')
    }
}

pub proof fn lemma_find_bound(s: Seq<char>, c: char)
    ensures
        find(s, c) <= s.len(),
        find(s, c) < s.len() ==> s[find(s, c) as int] == c,
        forall|k: int| 0 <= k < find(s, c) ==> s[k] != c,
    decreases s.len(),
{
    if s.len() != 0 && s[0] != c {
        lemma_find_bound(s.drop_first(), c);
        assert forall|k: int| 0 <= k < find(s, c) implies s[k] != c by {
            if k > 0 {
                assert(s.drop_first()[k - 1] == s[k]);
            }
        }
    }
}

/// Where the first `c` stands decides [`find`].
pub proof fn lemma_find_is(s: Seq<char>, c: char, i: nat)
    requires
        i <= s.len(),
        i < s.len() ==> s[i as int] == c,
        forall|k: int| 0 <= k < i ==> s[k] != c,
    ensures
        find(s, c) == i,
{
    lemma_find_bound(s, c);
    let f = find(s, c);
    if f < i {
        assert(s[f as int] != c);
    } else if i < f {
        assert(s[i as int] != c);
    }
}

/// The characters of a string.
pub fn chars_of(s: &str) -> (r: Vec<char>)
    ensures
        r@ == s@,
{
    let mut r: Vec<char> = Vec::new();
    for c in it: s.chars()
        invariant
            it.seq() == s@,
            r@ == s@.take(it.index() as int),
    {
        r.push(c);
        assert(s@.take(it.index() + 1) == s@.take(it.index() as int).push(s@[it.index() as int]));
    }
    assert(s@.take(s@.len() as int) == s@);
    r
}

/// The string made of the given characters.
pub fn string_of(s: &Vec<char>) -> (r: String)
    ensures
        r@ == s@,
{
    let mut r = String::new();
    let mut i: usize = 0;
    while i < s.len()
        invariant
            i <= s.len(),
            r@ == s@.take(i as int),
        decreases s.len() - i,
    {
        r.push(s[i]);
        assert(s@.take(i + 1) == s@.take(i as int).push(s@[i as int]));
        i += 1;
    }
    assert(s@.take(s@.len() as int) == s@);
    r
}

/// The characters from `from` up to, not including, `to`.
pub fn part(s: &Vec<char>, from: usize, to: usize) -> (r: Vec<char>)
    requires
        from <= to <= s.len(),
    ensures
        r@ == s@.subrange(from as int, to as int),
{
    let mut r: Vec<char> = Vec::new();
    let mut i: usize = from;
    while i < to
        invariant
            from <= i <= to <= s.len(),
            r@ == s@.subrange(from as int, i as int),
        decreases to - i,
    {
        r.push(s[i]);
        assert(s@.subrange(from as int, i + 1) == s@.subrange(from as int, i as int).push(s@[i as int]));
        i += 1;
    }
    r
}

/// Whether two texts are the same.
pub fn same(a: &str, b: &str) -> (r: bool)
    ensures
        r == (a@ == b@),
{
    let x: String = a.to_owned();
    let y: String = b.to_owned();
    x == y
}

fn space(c: char) -> (r: bool)
    ensures
        r == is_space(c),
{
    let n: u32 = c as u32;
    (9 <= n && n <= 13) || n == 0x20 || n == 0x85 || n == 0xa0 || n == 0x1680 || (0x2000 <= n && n
        <= 0x200a) || n == 0x2028 || n == 0x2029 || n == 0x202f || n == 0x205f || n == 0x3000
}

/// The text without the white space at either end.
pub fn trimmed(s: &Vec<char>) -> (r: Vec<char>)
    ensures
        r@ == trim(s@),
{
    let mut from: usize = 0;
    assert(s@.skip(0) == s@);
    while from < s.len() && space(s[from])
        invariant
            from <= s.len(),
            trim_start(s@.skip(from as int)) == trim_start(s@),
        decreases s.len() - from,
    {
        assert(s@.skip(from as int).drop_first() == s@.skip(from + 1));
        from += 1;
    }
    assert(trim_start(s@) == s@.skip(from as int));
    let mut to: usize = s.len();
    assert(s@.subrange(from as int, to as int) == s@.skip(from as int));
    while to > from && space(s[to - 1])
        invariant
            from <= to <= s.len(),
            trim_end(s@.subrange(from as int, to as int)) == trim(s@),
        decreases to - from,
    {
        assert(s@.subrange(from as int, to as int).drop_last() == s@.subrange(from as int, to - 1));
        to -= 1;
    }
    part(s, from, to)
}

/// The text without the run of `c` that it begins with.
pub fn without_leading(s: &Vec<char>, c: char) -> (r: Vec<char>)
    ensures
        r@ == drop_leading(s@, c),
{
    let mut from: usize = 0;
    assert(s@.skip(0) == s@);
    while from < s.len() && s[from] == c
        invariant
            from <= s.len(),
            drop_leading(s@.skip(from as int), c) == drop_leading(s@, c),
        decreases s.len() - from,
    {
        assert(s@.skip(from as int).drop_first() == s@.skip(from + 1));
        from += 1;
    }
    assert(s@.subrange(from as int, s@.len() as int) == s@.skip(from as int));
    part(s, from, s.len())
}

/// The text without the run of `c` that it ends with.
pub fn without_trailing(s: &Vec<char>, c: char) -> (r: Vec<char>)
    ensures
        r@ == drop_trailing(s@, c),
{
    let mut to: usize = s.len();
    assert(s@.subrange(0, to as int) == s@);
    while to > 0 && s[to - 1] == c
        invariant
            to <= s.len(),
            drop_trailing(s@.subrange(0, to as int), c) == drop_trailing(s@, c),
        decreases to,
    {
        assert(s@.subrange(0, to as int).drop_last() == s@.subrange(0, to - 1));
        to -= 1;
    }
    part(s, 0, to)
}

/// Whether `p` stands in `s` at index `at`.
fn stands_at(s: &Vec<char>, p: &Vec<char>, at: usize) -> (r: bool)
    requires
        at + p.len() <= s.len(),
    ensures
        r == (s@.skip(at as int).take(p@.len() as int) == p@),
{
    let mut i: usize = 0;
    while i < p.len()
        invariant
            i <= p.len(),
            at + p.len() <= s.len(),
            forall|k: int| 0 <= k < i ==> s@[at + k] == p@[k],
        decreases p.len() - i,
    {
        if s[at + i] != p[i] {
            assert(s@.skip(at as int).take(p@.len() as int)[i as int] != p@[i as int]);
            return false;
        }
        i += 1;
    }
    assert(s@.skip(at as int).take(p@.len() as int) =~= p@);
    true
}

/// Whether the text begins with `p`.
pub fn begins_with(s: &Vec<char>, p: &str) -> (r: bool)
    ensures
        r == starts_with(s@, p@),
{
    let p = chars_of(p);
    assert(s@.skip(0) == s@);
    p.len() <= s.len() && stands_at(s, &p, 0)
}

/// Whether `p` occurs in the text.
pub fn holds(s: &Vec<char>, p: &str) -> (r: bool)
    ensures
        r == contains(s@, p@),
{
    let q = chars_of(p);
    if q.len() > s.len() {
        return false;
    }
    let last: usize = s.len() - q.len();
    let mut i: usize = 0;
    while i <= last
        invariant
            q@ == p@,
            last + p@.len() == s@.len(),
            i <= last + 1,
            forall|k: int| 0 <= k < i ==> #[trigger] s@.skip(k).take(p@.len() as int) != p@,
        decreases last + 1 - i,
    {
        if stands_at(s, &q, i) {
            return true;
        }
        if i == last {
            return false;
        }
        i += 1;
    }
    false
}

/// The rest of the text after the prefix `p`, or `None` where it does not begin with it.
pub fn after_prefix(s: &Vec<char>, p: &str) -> (r: Option<Vec<char>>)
    ensures
        match r {
            Some(rest) => starts_with(s@, p@) && rest@ == s@.skip(p@.len() as int),
            None => !starts_with(s@, p@),
        },
{
    if begins_with(s, p) {
        let n: usize = chars_of(p).len();
        let rest = part(s, n, s.len());
        assert(rest@ == s@.skip(p@.len() as int));
        Some(rest)
    } else {
        None
    }
}

/// The index of the first `c` at or after `from`, or the length of the text.
fn index_of(s: &Vec<char>, c: char, from: usize) -> (r: usize)
    requires
        from <= s.len(),
    ensures
        from <= r <= s.len(),
        r - from == find(s@.skip(from as int), c),
{
    let mut i: usize = from;
    while i < s.len() && s[i] != c
        invariant
            from <= i <= s.len(),
            forall|k: int| from <= k < i ==> s@[k] != c,
        decreases s.len() - i,
    {
        i += 1;
    }
    proof {
        lemma_find_is(s@.skip(from as int), c, (i - from) as nat);
    }
    i
}

/// The part of the text before the first `c`, or all of it.
pub open spec fn before(s: Seq<char>, c: char) -> Seq<char> {
    s.take(find(s, c) as int)
}

/// The part of the text before the first `c`, or all of it.
pub fn up_to(s: &Vec<char>, c: char) -> (r: Vec<char>)
    ensures
        r@ == before(s@, c),
{
    assert(s@.skip(0) == s@);
    let i: usize = index_of(s, c, 0);
    let r = part(s, 0, i);
    assert(r@ == s@.take(i as int));
    r
}

/// The parts of the text between the occurrences of `sep`.
pub fn split_at(s: &Vec<char>, sep: char) -> (r: Vec<Vec<char>>)
    ensures
        texts(r@) == split(s@, sep),
{
    let mut parts: Vec<Vec<char>> = Vec::new();
    let mut from: usize = 0;
    assert(s@.skip(0) == s@);
    assert(texts(parts@) + split(s@, sep) == split(s@, sep));
    loop
        invariant
            from <= s.len(),
            texts(parts@) + split(s@.skip(from as int), sep) == split(s@, sep),
        decreases s.len() - from,
    {
        let ghost rest = s@.skip(from as int);
        let i: usize = index_of(s, sep, from);
        let piece = part(s, from, i);
        assert(piece@ == rest.take(i - from));
        let ghost prior = texts(parts@);
        parts.push(piece);
        assert(texts(parts@) == prior.push(piece@));
        if i >= s.len() {
            assert(piece@ == rest);
            assert(split(rest, sep) == seq![rest]);
            assert(texts(parts@) =~= prior + seq![rest]);
            return parts;
        }
        proof {
            assert(rest.skip(i - from + 1) == s@.skip(i + 1));
            let tail = split(s@.skip(i + 1), sep);
            assert(split(rest, sep) == seq![piece@] + tail);
            assert(texts(parts@) + tail =~= prior + (seq![piece@] + tail));
        }
        from = i + 1;
    }
}

/// The lines of the text.
pub fn lines_of(s: &Vec<char>) -> (r: Vec<Vec<char>>)
    ensures
        texts(r@) == lines(s@),
{
    let mut parts: Vec<Vec<char>> = Vec::new();
    let mut from: usize = 0;
    assert(s@.skip(0) == s@);
    assert(texts(parts@) + lines(s@) == lines(s@));
    while from < s.len()
        invariant
            from <= s.len(),
            texts(parts@) + lines(s@.skip(from as int)) == lines(s@),
        decreases s.len() - from,
    {
        let ghost rest = s@.skip(from as int);
        let i: usize = index_of(s, '\n', from);
        let ghost prior = texts(parts@);
        if i >= s.len() {
            let piece = part(s, from, i);
            assert(piece@ == rest);
            parts.push(piece);
            assert(texts(parts@) =~= prior + seq![rest]);
            return parts;
        }
        let mut to: usize = i;
        if to > from && s[to - 1] == '\r' {
            to -= 1;
        }
        let piece = part(s, from, to);
        proof {
            let whole = rest.take(i - from);
            assert(whole.len() > 0 ==> whole.last() == s@[i - 1]);
            assert(piece@ == without_cr(whole));
        }
        parts.push(piece);
        proof {
            assert(texts(parts@) == prior.push(piece@));
            assert(rest.skip(i - from + 1) == s@.skip(i + 1));
            let tail = lines(s@.skip(i + 1));
            assert(lines(rest) == seq![piece@] + tail);
            assert(texts(parts@) + tail =~= prior + (seq![piece@] + tail));
        }
        from = i + 1;
    }
    assert(s@.skip(from as int) == Seq::<char>::empty());
    assert(texts(parts@) + Seq::<Seq<char>>::empty() =~= texts(parts@));
    parts
}

/// Puts every line into one text, a line feed after each.
pub fn ended_lines(parts: &Vec<Vec<char>>) -> (r: String)
    ensures
        r@ == with_line_ends(texts(parts@)),
{
    let mut r = String::new();
    let mut i: usize = 0;
    assert(texts(parts@).take(0) == Seq::<Seq<char>>::empty());
    while i < parts.len()
        invariant
            i <= parts.len(),
            r@ == with_line_ends(texts(parts@).take(i as int)),
        decreases parts.len() - i,
    {
        let line = string_of(&parts[i]);
        r.append(line.as_str());
        r.push('\n');
        proof {
            let now = texts(parts@).take(i + 1);
            assert(now.drop_last() == texts(parts@).take(i as int));
            assert(now.last() == parts@[i as int]@);
            assert(with_line_ends(now) =~= r@);
        }
        i += 1;
    }
    assert(texts(parts@).take(parts@.len() as int) == texts(parts@));
    r
}

// Numbers.

/// What a character counts as a digit of the given radix (ten or sixteen).
pub open spec fn digit_value(c: char, radix: nat) -> Option<nat> {
    let n = c as u32;
    if 48 <= n <= 57 {
        Some((n - 48) as nat)
    } else if radix == 16 && 97 <= n <= 102 {
        Some((n - 87) as nat)
    } else if radix == 16 && 65 <= n <= 70 {
        Some((n - 55) as nat)
    } else {
        None
    }
}

/// The number that a run of digits writes, or `None` where a character is no digit.
pub open spec fn digits_value(s: Seq<char>, radix: nat) -> Option<nat>
    decreases s.len(),
{
    if s.len() == 0 {
        Some(0)
    } else {
        match (digits_value(s.drop_last(), radix), digit_value(s.last(), radix)) {
            (Some(v), Some(d)) => Some(v * radix + d),
            _ => None,
        }
    }
}

/// The non-negative number up to `max` that a text writes: digits, at least one, after an
/// optional plus sign.
pub open spec fn unsigned_value(s: Seq<char>, radix: nat, max: nat) -> Option<nat> {
    let body = if s.len() > 0 && s[0] == '+' {
        s.drop_first()
    } else {
        s
    };
    match digits_value(body, radix) {
        Some(v) if body.len() > 0 && v <= max => Some(v),
        _ => None,
    }
}

/// The 32-bit signed number that a text writes: decimal digits, at least one, after an
/// optional sign.
pub open spec fn signed_value(s: Seq<char>) -> Option<int> {
    if s.len() > 0 && s[0] == '-' {
        match digits_value(s.drop_first(), 10) {
            Some(v) if s.len() > 1 && v <= 0x8000_0000 => Some(-(v as int)),
            _ => None,
        }
    } else {
        match unsigned_value(s, 10, 0x7fff_ffff) {
            Some(v) => Some(v as int),
            None => None,
        }
    }
}

fn digit(c: char, radix: u32) -> (r: Option<u32>)
    requires
        radix == 10 || radix == 16,
    ensures
        match r {
            Some(d) => digit_value(c, radix as nat) == Some(d as nat) && d < radix,
            None => digit_value(c, radix as nat) is None,
        },
{
    let n: u32 = c as u32;
    if 48 <= n && n <= 57 {
        Some(n - 48)
    } else if radix == 16 && 97 <= n && n <= 102 {
        Some(n - 87)
    } else if radix == 16 && 65 <= n && n <= 70 {
        Some(n - 55)
    } else {
        None
    }
}

/// A longer run of digits writes no smaller number.
proof fn lemma_digits_grow(s: Seq<char>, radix: nat, i: int)
    requires
        0 <= i <= s.len(),
        radix == 10 || radix == 16,
    ensures
        digits_value(s, radix) is Some ==> digits_value(s.take(i), radix) is Some && digits_value(
            s.take(i),
            radix,
        )->0 <= digits_value(s, radix)->0,
    decreases s.len(),
{
    if i < s.len() {
        lemma_digits_grow(s.drop_last(), radix, i);
        assert(s.drop_last().take(i) == s.take(i));
        if digits_value(s, radix) is Some {
            let v = digits_value(s.drop_last(), radix)->0;
            assert(v * radix >= v) by (nonlinear_arith)
                requires
                    radix == 10 || radix == 16,
            ;
        }
    } else {
        assert(s.take(i) == s);
    }
}

/// The digits from index `from` on, read in the given radix, where they are digits and write a
/// number up to `max`.
fn read_digits(s: &Vec<char>, from: usize, radix: u32, max: u64) -> (r: Option<u64>)
    requires
        from <= s.len(),
        radix == 10 || radix == 16,
    ensures
        match r {
            Some(v) => v <= max && digits_value(s@.skip(from as int), radix as nat) == Some(v as nat),
            None => digits_value(s@.skip(from as int), radix as nat) matches Some(v) ==> v > max,
        },
{
    let ghost body = s@.skip(from as int);
    let mut v: u64 = 0;
    let mut i: usize = from;
    assert(body.take(0) == Seq::<char>::empty());
    while i < s.len()
        invariant
            from <= i <= s.len(),
            body == s@.skip(from as int),
            radix == 10 || radix == 16,
            v <= max,
            digits_value(body.take(i - from), radix as nat) == Some(v as nat),
        decreases s.len() - i,
    {
        proof {
            let now = body.take(i - from + 1);
            assert(now.drop_last() == body.take(i - from));
            assert(now.last() == s@[i as int]);
            lemma_digits_grow(body, radix as nat, i - from + 1);
        }
        match digit(s[i], radix) {
            None => {
                return None;
            },
            Some(d) => {
                assert(v * radix <= 16 * u64::MAX) by (nonlinear_arith)
                    requires
                        v <= u64::MAX,
                        radix <= 16,
                ;
                let next: u128 = (v as u128) * (radix as u128) + d as u128;
                assert(next == v * (radix as nat) + d);
                if next > max as u128 {
                    return None;
                }
                v = next as u64;
            },
        }
        i += 1;
    }
    assert(body.take(body.len() as int) == body);
    Some(v)
}

/// Reads a non-negative number up to `max`.
pub fn parse_unsigned(s: &Vec<char>, radix: u32, max: u64) -> (r: Option<u64>)
    requires
        radix == 10 || radix == 16,
    ensures
        match r {
            Some(v) => unsigned_value(s@, radix as nat, max as nat) == Some(v as nat),
            None => unsigned_value(s@, radix as nat, max as nat) is None,
        },
{
    let from: usize = if s.len() > 0 && s[0] == '+' {
        1
    } else {
        0
    };
    assert(s@.skip(0) == s@);
    assert(s@.len() > 0 ==> s@.skip(1) == s@.drop_first());
    if from == s.len() {
        return None;
    }
    read_digits(s, from, radix, max)
}

/// Reads a 32-bit signed number.
pub fn parse_signed(s: &Vec<char>) -> (r: Option<i32>)
    ensures
        match r {
            Some(v) => signed_value(s@) == Some(v as int),
            None => signed_value(s@) is None,
        },
{
    if s.len() > 0 && s[0] == '-' {
        assert(s@.skip(1) == s@.drop_first());
        if s.len() == 1 {
            return None;
        }
        match read_digits(s, 1, 10, 0x8000_0000) {
            Some(v) => Some((-(v as i64)) as i32),
            None => None,
        }
    } else {
        match parse_unsigned(s, 10, 0x7fff_ffff) {
            Some(v) => Some(v as i32),
            None => None,
        }
    }
}

/// The decimal digit of a number below ten.
pub open spec fn digit_char(d: nat) -> char {
    (48 + d) as char
}

/// The decimal notation of a number.
pub open spec fn decimal(n: nat) -> Seq<char>
    decreases n,
{
    if n < 10 {
        seq![digit_char(n)]
    } else {
        decimal(n / 10).push(digit_char(n % 10))
    }
}

/// The decimal notation of a signed number.
pub open spec fn signed_decimal(n: int) -> Seq<char> {
    if n < 0 {
        seq!['-'] + decimal((-n) as nat)
    } else {
        decimal(n as nat)
    }
}

fn digit_of(d: u64) -> (c: char)
    requires
        d < 10,
    ensures
        c == digit_char(d as nat),
{
    match d {
        0 => '0',
        1 => '1',
        2 => '2',
        3 => '3',
        4 => '4',
        5 => '5',
        6 => '6',
        7 => '7',
        8 => '8',
        _ => '9',
    }
}

/// Writes a number in decimal notation.
pub fn decimal_of(n: u64) -> (r: String)
    ensures
        r@ == decimal(n as nat),
    decreases n,
{
    if n < 10 {
        let mut r = String::new();
        r.push(digit_of(n));
        assert(r@ =~= seq![digit_char(n as nat)]);
        r
    } else {
        let mut r = decimal_of(n / 10);
        r.push(digit_of(n % 10));
        r
    }
}

/// Writes a signed number in decimal notation.
pub fn signed_decimal_of(n: i32) -> (r: String)
    ensures
        r@ == signed_decimal(n as int),
{
    if n < 0 {
        let mut r = String::new();
        r.push('-');
        assert(r@ =~= seq!['-']);
        let digits = decimal_of((-(n as i64)) as u64);
        r.append(digits.as_str());
        r
    } else {
        decimal_of(n as u64)
    }
}

/// Writing a number in decimal and reading it back gives the number.
pub proof fn decimal_reads_back(n: nat)
    ensures
        decimal(n).len() > 0,
        decimal(n)[0] != '+',
        digits_value(decimal(n), 10) == Some(n),
        unsigned_value(decimal(n), 10, n) == Some(n),
    decreases n,
{
    let s = decimal(n);
    if n < 10 {
        assert(s.drop_last() == Seq::<char>::empty());
        assert(digit_value(s.last(), 10) == Some(n));
        assert(digits_value(s.drop_last(), 10) == Some(0nat));
    } else {
        decimal_reads_back(n / 10);
        assert(s.drop_last() == decimal(n / 10));
        assert(s[0] == decimal(n / 10)[0]);
        assert(digit_value(s.last(), 10) == Some(n % 10));
    }
}

/// Whether a text consists of white space alone.
pub open spec fn blank(s: Seq<char>) -> bool {
    forall|i: int| 0 <= i < s.len() ==> is_space(#[trigger] s[i])
}

/// Of the characters below 128, white space is the tab, the line feed, the vertical tab, the form feed,
/// the carriage return and the space.
pub proof fn common_white_space(c: char)
    requires
        (c as u32) < 128,
    ensures
        is_space(c) <==> c == '\t' || c == '\n' || c as u32 == 11 || c as u32 == 12 || c == '\r' || c
            == ' ',
{
}

/// Beyond those, nineteen characters are white space: spaces of several widths, and marks that end a
/// line or a paragraph.
pub proof fn rare_white_space(c: char)
    requires
        (c as u32) >= 128,
    ensures
        is_space(c) <==> seq![
            '\u{85}',
            '\u{a0}',
            '\u{1680}',
            '\u{2000}',
            '\u{2001}',
            '\u{2002}',
            '\u{2003}',
            '\u{2004}',
            '\u{2005}',
            '\u{2006}',
            '\u{2007}',
            '\u{2008}',
            '\u{2009}',
            '\u{200a}',
            '\u{2028}',
            '\u{2029}',
            '\u{202f}',
            '\u{205f}',
            '\u{3000}',
        ].contains(c),
{
    let all = seq![
        '\u{85}',
        '\u{a0}',
        '\u{1680}',
        '\u{2000}',
        '\u{2001}',
        '\u{2002}',
        '\u{2003}',
        '\u{2004}',
        '\u{2005}',
        '\u{2006}',
        '\u{2007}',
        '\u{2008}',
        '\u{2009}',
        '\u{200a}',
        '\u{2028}',
        '\u{2029}',
        '\u{202f}',
        '\u{205f}',
        '\u{3000}',
    ];
    assert(all[0] == '\u{85}' && all[1] == '\u{a0}' && all[2] == '\u{1680}' && all[14] == '\u{2028}'
        && all[15] == '\u{2029}' && all[16] == '\u{202f}' && all[17] == '\u{205f}' && all[18]
        == '\u{3000}');
    if 0x2000 <= c as u32 <= 0x200a {
        assert(all[c as int - 0x2000 + 3] == c);
    }
}

/// Trimming takes away the white space at the ends, all of it, and nothing else.
pub proof fn only_outer_space_goes(front: Seq<char>, middle: Seq<char>, back: Seq<char>)
    requires
        blank(front),
        blank(back),
        middle.len() > 0 ==> !is_space(middle[0]) && !is_space(middle.last()),
    ensures
        trim(front + middle + back) == middle,
        middle.len() > 0 ==> trim_start(front + middle + back) == middle + back,
        middle.len() > 0 ==> trim_end(front + middle + back) == front + middle,
{
    let s = front + middle + back;
    if middle.len() > 0 {
        lemma_trim_start(front, middle + back);
        assert(front + (middle + back) =~= s);
        lemma_trim_end(middle, back);
        lemma_trim_end(front + middle, back);
        assert((front + middle).last() == middle.last());
    } else {
        let all = front + back;
        assert(s =~= all);
        lemma_trim_start(all, Seq::empty());
        assert(all + Seq::<char>::empty() =~= all);
        assert(trim_end(Seq::<char>::empty()) == Seq::<char>::empty());
        assert(middle =~= Seq::<char>::empty());
    }
}

proof fn lemma_trim_start(front: Seq<char>, rest: Seq<char>)
    requires
        blank(front),
        rest.len() > 0 ==> !is_space(rest[0]),
    ensures
        trim_start(front + rest) == rest,
    decreases front.len(),
{
    let s = front + rest;
    if front.len() > 0 {
        let less = front.drop_first();
        assert(s[0] == front[0]);
        assert(s.drop_first() =~= less + rest);
        assert forall|i: int| 0 <= i < less.len() implies is_space(#[trigger] less[i]) by {
            assert(less[i] == front[i + 1]);
        }
        lemma_trim_start(less, rest);
    } else {
        assert(s =~= rest);
    }
}

proof fn lemma_trim_end(rest: Seq<char>, back: Seq<char>)
    requires
        blank(back),
        rest.len() > 0 ==> !is_space(rest.last()),
    ensures
        trim_end(rest + back) == rest,
    decreases back.len(),
{
    let s = rest + back;
    if back.len() > 0 {
        let less = back.drop_last();
        assert(s.last() == back[back.len() - 1]);
        assert(s.drop_last() =~= rest + less);
        assert forall|i: int| 0 <= i < less.len() implies is_space(#[trigger] less[i]) by {
            assert(less[i] == back[i]);
        }
        lemma_trim_end(rest, less);
    } else {
        assert(s =~= rest);
    }
}

/// A run of one character at an end is taken away as a whole, and nothing else.
pub proof fn only_the_run_goes(run: Seq<char>, rest: Seq<char>, c: char)
    requires
        forall|i: int| 0 <= i < run.len() ==> #[trigger] run[i] == c,
    ensures
        (rest.len() > 0 ==> rest[0] != c) ==> drop_leading(run + rest, c) == rest,
        (rest.len() > 0 ==> rest.last() != c) ==> drop_trailing(rest + run, c) == rest,
    decreases run.len(),
{
    if run.len() > 0 {
        let less = run.drop_first();
        assert forall|i: int| 0 <= i < less.len() implies #[trigger] less[i] == c by {
            assert(less[i] == run[i + 1]);
        }
        only_the_run_goes(less, rest, c);
        assert((run + rest)[0] == run[0]);
        assert((run + rest).drop_first() =~= less + rest);
        assert((rest + run).last() == run[run.len() - 1]);
        assert(run.drop_last() =~= less) by {
            assert forall|i: int| 0 <= i < less.len() implies run.drop_last()[i] == less[i] by {
                assert(run[i] == c && less[i] == c);
            }
        }
        assert((rest + run).drop_last() =~= rest + less);
    } else {
        assert(run + rest =~= rest);
        assert(rest + run =~= rest);
    }
}

/// A text is parted at its first separator: what stands before is the first part, what stands behind
/// is parted in the same way. A text without a separator is one part.
pub proof fn parts_end_at_separators(a: Seq<char>, b: Seq<char>, sep: char)
    requires
        !a.contains(sep),
    ensures
        before(a.push(sep) + b, sep) == a,
        before(a, sep) == a,
        split(a.push(sep) + b, sep) == seq![a] + split(b, sep),
        split(a, sep) == seq![a],
{
    let s = a.push(sep) + b;
    let n = a.len();
    assert forall|k: int| 0 <= k < n implies s[k] != sep by {
        assert(a.contains(a[k]));
    }
    assert forall|k: int| 0 <= k < n implies a[k] != sep by {
        assert(a.contains(a[k]));
    }
    assert(s[n as int] == sep);
    lemma_find_is(s, sep, n);
    lemma_find_is(a, sep, n);
    assert(s.take(n as int) =~= a);
    assert(a.take(n as int) =~= a);
    assert(s.skip(n as int + 1) =~= b);
}

/// A line ends at its line feed, and the carriage return before that goes too. What follows is read in
/// the same way. A last line needs no line feed, and there is no line after the last line feed.
pub proof fn lines_end_at_line_feeds(a: Seq<char>, b: Seq<char>)
    requires
        !a.contains('\n'),
    ensures
        lines(a.push('\n') + b) == seq![
            if a.len() > 0 && a.last() == '\r' {
                a.drop_last()
            } else {
                a
            },
        ] + lines(b),
        a.len() > 0 ==> lines(a) == seq![a],
        lines(Seq::empty()) == Seq::<Seq<char>>::empty(),
{
    let s = a.push('\n') + b;
    let n = a.len();
    assert forall|k: int| 0 <= k < n implies s[k] != '\n' by {
        assert(a.contains(a[k]));
    }
    assert forall|k: int| 0 <= k < n implies a[k] != '\n' by {
        assert(a.contains(a[k]));
    }
    assert(s[n as int] == '\n');
    lemma_find_is(s, '\n', n);
    lemma_find_is(a, '\n', n);
    assert(s.take(n as int) =~= a);
    assert(s.skip(n as int + 1) =~= b);
}

/// Lines are written one after the other, each with a line feed behind it.
pub proof fn lines_are_written_in_order(a: Seq<Seq<char>>, b: Seq<Seq<char>>, line: Seq<char>)
    ensures
        with_line_ends(seq![line]) == line.push('\n'),
        with_line_ends(a + b) == with_line_ends(a) + with_line_ends(b),
        with_line_ends(Seq::empty()) == Seq::<char>::empty(),
    decreases b.len(),
{
    reveal_with_fuel(with_line_ends, 2);
    let one = seq![line];
    assert(one.drop_last() =~= Seq::empty());
    assert(with_line_ends(one) =~= line.push('\n'));
    if b.len() == 0 {
        assert(a + b =~= a);
        assert(with_line_ends(a) + with_line_ends(b) =~= with_line_ends(a));
    } else {
        lines_are_written_in_order(a, b.drop_last(), line);
        assert((a + b).drop_last() =~= a + b.drop_last());
        assert((a + b).last() == b.last());
        assert(with_line_ends(a + b) =~= with_line_ends(a) + with_line_ends(b));
    }
}

/// The digits and their values. Letters are digits in hexadecimal notation alone, large or small.
pub proof fn digits_have_values(k: nat)
    requires
        k < 10,
    ensures
        digit_value((48 + k) as char, 10) == Some(k),
        digit_value((48 + k) as char, 16) == Some(k),
        k < 6 ==> digit_value((97 + k) as char, 16) == Some((10 + k) as nat),
        k < 6 ==> digit_value((65 + k) as char, 16) == Some((10 + k) as nat),
        k < 6 ==> digit_value((97 + k) as char, 10) is None && digit_value((65 + k) as char, 10) is None,
{
}

/// A character that is neither a digit nor one of the first six letters has no value.
pub proof fn other_characters_have_no_value(c: char, radix: nat)
    requires
        !(48 <= c as u32 <= 57),
        !(65 <= c as u32 <= 70),
        !(97 <= c as u32 <= 102),
    ensures
        digit_value(c, radix) is None,
{
}

/// Each digit counts for its place: digits in front of others count for as many powers of the radix
/// more as there are others. A character that is no digit spoils the number.
pub proof fn digits_count_for_their_place(a: Seq<char>, b: Seq<char>, radix: nat)
    ensures
        digits_value(a + b, radix) == match (digits_value(a, radix), digits_value(b, radix)) {
            (Some(x), Some(y)) => Some(
                (x * vstd::arithmetic::power::pow(radix as int, b.len()) + y) as nat,
            ),
            _ => None,
        },
        b.len() == 1 ==> digits_value(b, radix) == digit_value(b[0], radix),
    decreases b.len(),
{
    reveal_with_fuel(digits_value, 2);
    if b.len() == 0 {
        assert(a + b =~= a);
        vstd::arithmetic::power::lemma_pow0(radix as int);
        if let Some(x) = digits_value(a, radix) {
            let p = vstd::arithmetic::power::pow(radix as int, b.len());
            assert(x * p == x) by (nonlinear_arith)
                requires
                    p == 1,
            ;
        }
    } else {
        let less = b.drop_last();
        digits_count_for_their_place(a, less, radix);
        assert((a + b).drop_last() =~= a + less);
        assert((a + b).last() == b.last());
        vstd::arithmetic::power::lemma_pow1(radix as int);
        vstd::arithmetic::power::lemma_pow_adds(radix as int, less.len(), 1);
        if let (Some(x), Some(y)) = (digits_value(a, radix), digits_value(less, radix)) {
            let p = vstd::arithmetic::power::pow(radix as int, less.len());
            let q = vstd::arithmetic::power::pow(radix as int, b.len());
            lemma_power_is_positive(radix, less.len());
            lemma_power_is_positive(radix, b.len());
            assert(q == p * radix);
            assert(0 <= x * p && 0 <= x * q) by (nonlinear_arith)
                requires
                    0 <= x,
                    0 <= p,
                    0 <= q,
            ;
            assert((x * p + y) * radix == x * q + y * radix) by (nonlinear_arith)
                requires
                    q == p * radix,
            ;
        }
        assert(0 * radix == 0) by (nonlinear_arith);
    }
}

proof fn lemma_power_is_positive(radix: nat, n: nat)
    ensures
        0 <= vstd::arithmetic::power::pow(radix as int, n),
    decreases n,
{
    if n == 0 {
        vstd::arithmetic::power::lemma_pow0(radix as int);
    } else {
        lemma_power_is_positive(radix, (n - 1) as nat);
        vstd::arithmetic::power::lemma_pow1(radix as int);
        vstd::arithmetic::power::lemma_pow_adds(radix as int, (n - 1) as nat, 1);
        let p = vstd::arithmetic::power::pow(radix as int, (n - 1) as nat);
        assert(0 <= p * radix) by (nonlinear_arith)
            requires
                0 <= p,
        ;
    }
}

/// A sign may stand before the digits, but never instead of them: a plus changes nothing, and a minus
/// makes the number negative. A number that is too large is none.
pub proof fn signs_stand_before_digits(digits: Seq<char>, radix: nat, max: nat)
    requires
        radix == 10 || radix == 16,
        digits.len() > 0,
        digits[0] != '+',
        digits[0] != '-',
    ensures
        unsigned_value(seq!['+'] + digits, radix, max) == unsigned_value(digits, radix, max),
        unsigned_value(seq!['-'] + digits, radix, max) is None,
        unsigned_value(digits, radix, max) is Some <==> digits_value(digits, radix) is Some
            && digits_value(digits, radix)->0 <= max,
        unsigned_value(digits, radix, max) is Some ==> unsigned_value(digits, radix, max)
            == digits_value(digits, radix),
        unsigned_value(Seq::empty(), radix, max) is None,
        unsigned_value(seq!['+'], radix, max) is None,
        signed_value(seq!['-']) is None,
        signed_value(seq!['-'] + digits) is Some <==> digits_value(digits, 10) is Some && digits_value(
            digits,
            10,
        )->0 <= 0x8000_0000,
        signed_value(seq!['-'] + digits) is Some ==> signed_value(seq!['-'] + digits)->0 == -(
        digits_value(digits, 10)->0 as int),
        signed_value(digits) is Some <==> digits_value(digits, 10) is Some && digits_value(
            digits,
            10,
        )->0 <= 0x7fff_ffff,
        signed_value(digits) is Some ==> signed_value(digits)->0 == digits_value(digits, 10)->0,
        signed_value(seq!['+'] + digits) == signed_value(digits),
{
    let plus = seq!['+'] + digits;
    let minus = seq!['-'] + digits;
    assert(plus.drop_first() =~= digits);
    assert(minus.drop_first() =~= digits);
    assert(seq!['+'].drop_first() =~= Seq::<char>::empty());
    digits_count_for_their_place(seq!['-'], digits, radix);
    assert(digit_value('-', radix) is None);
    digits_count_for_their_place(Seq::empty(), seq!['-'], radix);
    assert(plus[0] == '+' && minus[0] == '-');
}

/// A number is written without superfluous zeros, and in digits alone.
pub proof fn decimal_has_no_leading_zero(n: nat)
    ensures
        decimal(n).len() > 0,
        n > 0 ==> decimal(n)[0] != '0',
        n == 0 ==> decimal(n) == seq!['0'],
        forall|i: int| 0 <= i < decimal(n).len() ==> 48 <= (#[trigger] decimal(n)[i]) as u32 <= 57,
    decreases n,
{
    if n >= 10 {
        decimal_has_no_leading_zero(n / 10);
    }
}

/// A signed number that was written is read back.
pub proof fn signed_decimal_reads_back(n: int)
    requires
        -0x8000_0000 <= n <= 0x7fff_ffff,
    ensures
        signed_value(signed_decimal(n)) == Some(n),
        n < 0 <==> signed_decimal(n)[0] == '-',
{
    if n < 0 {
        decimal_reads_back((-n) as nat);
        assert(signed_decimal(n).drop_first() =~= decimal((-n) as nat));
    } else {
        decimal_reads_back(n as nat);
        decimal_has_no_leading_zero(n as nat);
    }
}

/// Different numbers are written differently.
pub proof fn decimals_differ(a: nat, b: nat)
    ensures
        decimal(a) == decimal(b) <==> a == b,
{
    decimal_reads_back(a);
    decimal_reads_back(b);
}

/// A text begins with what stands first in it, and holds whatever stands anywhere in it.
pub proof fn texts_hold_their_parts(a: Seq<char>, p: Seq<char>, b: Seq<char>)
    ensures
        starts_with(p + b, p),
        contains(a + p + b, p),
        starts_with(b, p) ==> b == p + b.skip(p.len() as int),
        contains(b, p) ==> exists|i: int|
            0 <= i <= b.len() - p.len() && #[trigger] b.subrange(i, i + p.len()) == p,
{
    assert((p + b).take(p.len() as int) =~= p);
    assert((a + p + b).skip(a.len() as int).take(p.len() as int) =~= p);
    if starts_with(b, p) {
        assert(b =~= b.take(p.len() as int) + b.skip(p.len() as int));
    }
    if contains(b, p) {
        let i = choose|i: int|
            0 <= i && i + p.len() <= b.len() && #[trigger] b.skip(i).take(p.len() as int) == p;
        assert(b.subrange(i, i + p.len()) =~= b.skip(i).take(p.len() as int));
    }
}

} // verus!
