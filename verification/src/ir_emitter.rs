//! The infrared emitter of the camera: how it is switched on and off.
//!
//! The emitter is driven by a vendor-specific request to an extension unit of the camera. The
//! unit, the selector and the bytes of the request stand in a small text file.
use crate::text::{
    after_prefix, before, begins_with, chars_of, digit_value, digits_value, drop_leading, drop_trailing, find,
    is_space, lemma_find_bound, lemma_find_is, lines, lines_of, parse_unsigned, split, split_at, starts_with,
    string_of, texts, trim, trim_end, trim_start, trimmed, unsigned_value, up_to, without_leading, without_trailing,
};
use vstd::prelude::*;

verus! {

/// How the emitter is switched on, and off again.
#[derive(Debug)]
pub struct IrEmitterConfig {
    pub unit: u8,
    pub selector: u8,
    pub enable_data: Vec<u8>,
    /// What stood there before. Without it the emitter is not switched off.
    pub disable_data: Option<Vec<u8>>,
}

/// Why the emitter cannot be used.
#[derive(Debug)]
pub enum IrEmitterError {
    NoConfig(String),
    ParseError(String),
    IoctlError(String),
}

/// A request to an extension unit of the camera.
#[derive(Debug)]
pub struct ControlRequest {
    pub unit: u8,
    pub selector: u8,
    pub query: u8,
    pub size: u16,
    pub data: Vec<u8>,
}

/// The query that sets the current value.
pub const UVC_SET_CUR: u8 = 0x01;

/// What the lines of the file have said so far.
pub struct Settings {
    pub unit: Option<u8>,
    pub selector: Option<u8>,
    pub enable_data: Option<Seq<u8>>,
    pub disable_data: Option<Seq<u8>>,
}

/// The value behind a key: what follows the equals sign, without a trailing comment.
pub open spec fn value_text(rest: Seq<char>) -> Seq<char> {
    trim(drop_leading(trim(before(rest, '#')), '='))
}

/// The number that a text writes, in decimal or behind `0x` in hexadecimal.
pub open spec fn int_value(s: Seq<char>) -> Option<nat> {
    let s = value_text(s);
    if starts_with(s, "0x"@) || starts_with(s, "0X"@) {
        unsigned_value(s.skip(2), 16, u64::MAX as nat)
    } else {
        unsigned_value(s, 10, u64::MAX as nat)
    }
}

/// The low byte of the number that a text writes.
pub open spec fn byte_value(s: Seq<char>) -> Option<u8> {
    match int_value(s) {
        Some(v) => Some((v % 256) as u8),
        None => None,
    }
}

/// The bytes that a list of texts writes. Empty ones are passed over.
pub open spec fn bytes_of(tokens: Seq<Seq<char>>) -> Option<Seq<u8>>
    decreases tokens.len(),
{
    if tokens.len() == 0 {
        Some(Seq::empty())
    } else {
        let t = trim(tokens.last());
        match bytes_of(tokens.drop_last()) {
            None => None,
            Some(b) => if t.len() == 0 {
                Some(b)
            } else {
                match byte_value(t) {
                    Some(v) => Some(b.push(v)),
                    None => None,
                }
            },
        }
    }
}

/// The bytes of a bracketed list.
pub open spec fn byte_array_value(s: Seq<char>) -> Option<Seq<u8>> {
    bytes_of(split(drop_trailing(drop_leading(value_text(s), '['), ']'), ','))
}

/// What a line adds to the settings, or the line itself where its value cannot be read.
pub open spec fn read_line(s: Settings, raw: Seq<char>) -> Result<Settings, Seq<char>> {
    let line = trim(raw);
    if line.len() == 0 || line[0] == '#' {
        Ok(s)
    } else if starts_with(line, "unit"@) {
        match byte_value(line.skip(4)) {
            Some(v) => Ok(Settings { unit: Some(v), ..s }),
            None => Err(line),
        }
    } else if starts_with(line, "selector"@) {
        match byte_value(line.skip(8)) {
            Some(v) => Ok(Settings { selector: Some(v), ..s }),
            None => Err(line),
        }
    } else if starts_with(line, "enable_data"@) {
        match byte_array_value(line.skip(11)) {
            Some(v) => Ok(Settings { enable_data: Some(v), ..s }),
            None => Err(line),
        }
    } else if starts_with(line, "disable_data"@) {
        match byte_array_value(line.skip(12)) {
            Some(v) => Ok(Settings { disable_data: Some(v), ..s }),
            None => Err(line),
        }
    } else {
        Ok(s)
    }
}

/// What the lines say together, or the first that cannot be read.
pub open spec fn read_lines(ls: Seq<Seq<char>>) -> Result<Settings, Seq<char>>
    decreases ls.len(),
{
    if ls.len() == 0 {
        Ok(Settings { unit: None, selector: None, enable_data: None, disable_data: None })
    } else {
        match read_lines(ls.drop_last()) {
            Ok(s) => read_line(s, ls.last()),
            Err(e) => Err(e),
        }
    }
}

/// What is missing from the settings, where something is: the unit and the selector are needed.
pub open spec fn missing(s: Settings) -> Option<Seq<char>> {
    if s.unit is None {
        Some("missing 'unit'"@)
    } else if s.selector is None {
        Some("missing 'selector'"@)
    } else {
        None
    }
}

/// The byte that switches an emitter on, where the file does not say how.
pub const ENABLE_DEFAULT: u8 = 0x01;

/// The bytes that switch the emitter on: those of the file, or the usual one.
pub open spec fn switch_on(s: Settings) -> Seq<u8> {
    match s.enable_data {
        Some(d) => d,
        None => seq![ENABLE_DEFAULT],
    }
}

impl IrEmitterConfig {
    /// Whether the configuration is what the settings say.
    pub open spec fn holds(self, s: Settings) -> bool {
        &&& s.unit == Some(self.unit)
        &&& s.selector == Some(self.selector)
        &&& self.enable_data@ == switch_on(s)
        &&& match (self.disable_data, s.disable_data) {
            (Some(v), Some(d)) => v@ == d,
            (None, None) => true,
            _ => false,
        }
    }

    /// Whether `r` is what reading the text `toml` gives.
    pub open spec fn is_parse_of(r: Result<IrEmitterConfig, IrEmitterError>, toml: Seq<char>) -> bool {
        match read_lines(lines(toml)) {
            Err(line) => r matches Err(IrEmitterError::ParseError(e)) && e@ == line,
            Ok(s) => match missing(s) {
                Some(what) => r matches Err(IrEmitterError::ParseError(e)) && e@ == what,
                None => r matches Ok(c) && c.holds(s),
            },
        }
    }

    /// Reads the configuration from the content of the file at `path`, `None` where that could
    /// not be read.
    pub fn load(path: &str, content: Option<&str>) -> (r: Result<IrEmitterConfig, IrEmitterError>)
        ensures
            match content {
                None => r matches Err(IrEmitterError::NoConfig(p)) && p@ == path@,
                Some(text) => Self::is_parse_of(r, text@),
            },
    {
        match content {
            None => Err(IrEmitterError::NoConfig(path.to_owned())),
            Some(text) => Self::parse(text),
        }
    }

    /// Reads the configuration from its text.
    pub fn parse(toml: &str) -> (r: Result<IrEmitterConfig, IrEmitterError>)
        ensures
            Self::is_parse_of(r, toml@),
    {
        let text = chars_of(toml);
        let all = lines_of(&text);
        let ghost ls = texts(all@);
        let mut unit: Option<u8> = None;
        let mut selector: Option<u8> = None;
        let mut enable_data: Option<Vec<u8>> = None;
        let mut disable_data: Option<Vec<u8>> = None;
        let ghost mut seen = Settings {
            unit: None,
            selector: None,
            enable_data: None,
            disable_data: None,
        };
        let mut i: usize = 0;
        assert(ls.take(0) == Seq::<Seq<char>>::empty());
        while i < all.len()
            invariant
                i <= all.len(),
                ls == texts(all@),
                ls == lines(toml@),
                read_lines(ls.take(i as int)) == Ok::<Settings, Seq<char>>(seen),
                seen.unit == unit,
                seen.selector == selector,
                match (enable_data, seen.enable_data) {
                    (Some(v), Some(d)) => v@ == d,
                    (None, None) => true,
                    _ => false,
                },
                match (disable_data, seen.disable_data) {
                    (Some(v), Some(d)) => v@ == d,
                    (None, None) => true,
                    _ => false,
                },
            decreases all.len() - i,
        {
            let line = trimmed(&all[i]);
            proof {
                let now = ls.take(i + 1);
                assert(now.drop_last() == ls.take(i as int));
                assert(now.last() == all@[i as int]@);
                lemma_error_stays(ls, i + 1);
                reveal_strlit("unit");
                reveal_strlit("selector");
                reveal_strlit("enable_data");
                reveal_strlit("disable_data");
            }
            if line.len() == 0 || line[0] == '#' {
            } else if let Some(rest) = after_prefix(&line, "unit") {
                match parse_byte(&rest) {
                    Some(v) => {
                        unit = Some(v);
                    },
                    None => {
                        return Err(IrEmitterError::ParseError(string_of(&line)));
                    },
                }
            } else if let Some(rest) = after_prefix(&line, "selector") {
                match parse_byte(&rest) {
                    Some(v) => {
                        selector = Some(v);
                    },
                    None => {
                        return Err(IrEmitterError::ParseError(string_of(&line)));
                    },
                }
            } else if let Some(rest) = after_prefix(&line, "enable_data") {
                match parse_byte_array(&rest) {
                    Some(v) => {
                        enable_data = Some(v);
                    },
                    None => {
                        return Err(IrEmitterError::ParseError(string_of(&line)));
                    },
                }
            } else if let Some(rest) = after_prefix(&line, "disable_data") {
                match parse_byte_array(&rest) {
                    Some(v) => {
                        disable_data = Some(v);
                    },
                    None => {
                        return Err(IrEmitterError::ParseError(string_of(&line)));
                    },
                }
            }
            proof {
                seen = read_line(seen, all@[i as int]@)->Ok_0;
            }
            i += 1;
        }
        assert(ls.take(ls.len() as int) == ls);
        let enable_data: Vec<u8> = match enable_data {
            Some(d) => d,
            None => vec![ENABLE_DEFAULT],
        };
        assert(enable_data@ =~= switch_on(seen));
        match (unit, selector) {
            (Some(unit), Some(selector)) => Ok(
                IrEmitterConfig { unit, selector, enable_data, disable_data },
            ),
            (None, _) => Err(IrEmitterError::ParseError("missing 'unit'".to_owned())),
            (Some(_), None) => Err(IrEmitterError::ParseError("missing 'selector'".to_owned())),
        }
    }

    /// The request that sets the emitter's control to `data`.
    pub open spec fn is_request(self, r: ControlRequest, data: Seq<u8>) -> bool {
        &&& r.unit == self.unit
        &&& r.selector == self.selector
        &&& r.query == UVC_SET_CUR
        &&& r.size == data.len() % 0x1_0000
        &&& r.data@ == data
    }

    fn set_cur(&self, data: &Vec<u8>) -> (r: ControlRequest)
        ensures
            self.is_request(r, data@),
    {
        let mut copy: Vec<u8> = Vec::new();
        let mut i: usize = 0;
        while i < data.len()
            invariant
                i <= data.len(),
                copy@ == data@.take(i as int),
            decreases data.len() - i,
        {
            copy.push(data[i]);
            assert(data@.take(i + 1) == data@.take(i as int).push(data@[i as int]));
            i += 1;
        }
        assert(data@.take(data@.len() as int) == data@);
        ControlRequest {
            unit: self.unit,
            selector: self.selector,
            query: UVC_SET_CUR,
            size: (data.len() as u64 % 0x1_0000) as u16,
            data: copy,
        }
    }

    /// The request that switches the emitter on.
    pub fn activate(&self) -> (r: ControlRequest)
        ensures
            self.is_request(r, self.enable_data@),
    {
        self.set_cur(&self.enable_data)
    }

    /// The request that switches the emitter off, where it is known how.
    pub fn deactivate(&self) -> (r: Option<ControlRequest>)
        ensures
            match (self.disable_data, r) {
                (Some(d), Some(q)) => self.is_request(q, d@),
                (None, None) => true,
                _ => false,
            },
    {
        match &self.disable_data {
            Some(d) => Some(self.set_cur(d)),
            None => None,
        }
    }
}

impl IrEmitterError {
    /// The error in words.
    pub fn message(&self) -> (r: String)
        ensures
            r@ == match self {
                IrEmitterError::NoConfig(p) => "config file not found at "@ + p@,
                IrEmitterError::ParseError(e) => "config parse error: "@ + e@,
                IrEmitterError::IoctlError(e) => "ioctl failed: "@ + e@,
            },
    {
        let (mut r, e) = match self {
            IrEmitterError::NoConfig(p) => ("config file not found at ".to_owned(), p),
            IrEmitterError::ParseError(e) => ("config parse error: ".to_owned(), e),
            IrEmitterError::IoctlError(e) => ("ioctl failed: ".to_owned(), e),
        };
        r.append(e.as_str());
        r
    }
}

/// Once a line cannot be read, the lines behind it do not matter.
proof fn lemma_error_stays(ls: Seq<Seq<char>>, i: int)
    requires
        0 <= i <= ls.len(),
    ensures
        read_lines(ls.take(i)) is Err ==> read_lines(ls) == read_lines(ls.take(i)),
    decreases ls.len(),
{
    if i < ls.len() {
        lemma_error_stays(ls.drop_last(), i);
        assert(ls.drop_last().take(i) == ls.take(i));
    } else {
        assert(ls.take(i) == ls);
    }
}

/// Once a text cannot be read, the texts behind it do not matter.
proof fn lemma_bad_token_stays(tokens: Seq<Seq<char>>, i: int)
    requires
        0 <= i <= tokens.len(),
    ensures
        bytes_of(tokens.take(i)) is None ==> bytes_of(tokens) is None,
    decreases tokens.len(),
{
    if i < tokens.len() {
        lemma_bad_token_stays(tokens.drop_last(), i);
        assert(tokens.drop_last().take(i) == tokens.take(i));
    } else {
        assert(tokens.take(i) == tokens);
    }
}

fn value_of(rest: &Vec<char>) -> (r: Vec<char>)
    ensures
        r@ == value_text(rest@),
{
    trimmed(&without_leading(&trimmed(&up_to(rest, '#')), '='))
}

/// Reads a number behind an optional equals sign.
pub fn parse_int(s: &Vec<char>) -> (r: Option<u64>)
    ensures
        match r {
            Some(v) => int_value(s@) == Some(v as nat),
            None => int_value(s@) is None,
        },
{
    proof {
        reveal_strlit("0x");
        reveal_strlit("0X");
    }
    let s = value_of(s);
    if begins_with(&s, "0x") || begins_with(&s, "0X") {
        let hex = crate::text::part(&s, 2, s.len());
        assert(hex@ == s@.skip(2));
        parse_unsigned(&hex, 16, u64::MAX)
    } else {
        parse_unsigned(&s, 10, u64::MAX)
    }
}

fn parse_byte(s: &Vec<char>) -> (r: Option<u8>)
    ensures
        r == byte_value(s@),
{
    match parse_int(s) {
        Some(v) => Some((v % 256) as u8),
        None => None,
    }
}

/// Reads a bracketed list of bytes behind an optional equals sign.
pub fn parse_byte_array(s: &Vec<char>) -> (r: Option<Vec<u8>>)
    ensures
        match (r, byte_array_value(s@)) {
            (Some(v), Some(b)) => v@ == b,
            (None, None) => true,
            _ => false,
        },
{
    let inner = without_trailing(&without_leading(&value_of(s), '['), ']');
    let tokens = split_at(&inner, ',');
    let ghost ts = texts(tokens@);
    let mut bytes: Vec<u8> = Vec::new();
    let mut i: usize = 0;
    assert(ts.take(0) == Seq::<Seq<char>>::empty());
    while i < tokens.len()
        invariant
            i <= tokens.len(),
            ts == texts(tokens@),
            byte_array_value(s@) == bytes_of(ts),
            bytes_of(ts.take(i as int)) == Some(bytes@),
        decreases tokens.len() - i,
    {
        let t = trimmed(&tokens[i]);
        proof {
            let now = ts.take(i + 1);
            assert(now.drop_last() == ts.take(i as int));
            assert(now.last() == tokens@[i as int]@);
            lemma_bad_token_stays(ts, i + 1);
        }
        if t.len() > 0 {
            match parse_byte(&t) {
                Some(b) => {
                    bytes.push(b);
                },
                None => {
                    return None;
                },
            }
        }
        i += 1;
    }
    assert(ts.take(ts.len() as int) == ts);
    Some(bytes)
}

/// The emitter's configuration, from the contents of the files that may hold it, in the order in
/// which they count: the first that is there and can be read. `None` stands for a file that is
/// not there.
pub fn load_ir_config(files: &Vec<Option<String>>) -> (r: Option<IrEmitterConfig>)
    ensures
        match r {
            Some(c) => exists|i: int|
                {
                    &&& 0 <= i < files@.len()
                    &&& #[trigger] files@[i] matches Some(t)
                    &&& IrEmitterConfig::is_parse_of(Ok(c), t@)
                    &&& forall|k: int| 0 <= k < i ==> !readable(#[trigger] files@[k])
                },
            None => forall|k: int| 0 <= k < files@.len() ==> !readable(#[trigger] files@[k]),
        },
{
    let mut i: usize = 0;
    while i < files.len()
        invariant
            i <= files.len(),
            forall|k: int| 0 <= k < i ==> !readable(#[trigger] files@[k]),
        decreases files.len() - i,
    {
        match &files[i] {
            Some(t) => match IrEmitterConfig::parse(t.as_str()) {
                Ok(c) => {
                    return Some(c);
                },
                Err(_) => {},
            },
            None => {},
        }
        i += 1;
    }
    None
}

/// Whether a file is there and holds a configuration.
pub open spec fn readable(file: Option<String>) -> bool {
    file matches Some(t) && (read_lines(lines(t@)) matches Ok(s) && missing(s) is None)
}

/// Empty lines, lines of white space and comments say nothing.
pub proof fn comments_do_not_matter(s: Settings, raw: Seq<char>)
    requires
        trim(raw).len() == 0 || trim(raw)[0] == '#',
    ensures
        read_line(s, raw) == Ok::<Settings, Seq<char>>(s),
{
}

/// A configuration is read exactly where every line can be read and the two values that it
/// needs are there.
pub proof fn parse_succeeds_exactly(r: Result<IrEmitterConfig, IrEmitterError>, toml: Seq<char>)
    requires
        IrEmitterConfig::is_parse_of(r, toml),
    ensures
        r is Ok <==> (read_lines(lines(toml)) matches Ok(s) && s.unit is Some && s.selector is Some),
{
}

// The order of the lines.

/// What a line is about.
pub enum Key {
    Unit,
    Selector,
    EnableData,
    DisableData,
    Other,
}

/// What a trimmed line is about, by the word that it begins with.
pub open spec fn key(line: Seq<char>) -> Key {
    if starts_with(line, "unit"@) {
        Key::Unit
    } else if starts_with(line, "selector"@) {
        Key::Selector
    } else if starts_with(line, "enable_data"@) {
        Key::EnableData
    } else if starts_with(line, "disable_data"@) {
        Key::DisableData
    } else {
        Key::Other
    }
}

/// Whether a trimmed line says something: it is neither empty nor a comment.
pub open spec fn tells(line: Seq<char>) -> bool {
    line.len() > 0 && line[0] != '#'
}

/// Whether one of the lines, but for its indentation, is `line`.
pub open spec fn among(ls: Seq<Seq<char>>, line: Seq<char>) -> bool {
    exists|i: int| 0 <= i < ls.len() && trim(#[trigger] ls[i]) == line
}

/// What the lines of a text say, without their order, their indentation, comments and empty lines.
pub open spec fn said(toml: Seq<char>) -> Set<Seq<char>> {
    Set::new(|line: Seq<char>| tells(line) && among(lines(toml), line))
}

/// The settings before the first line.
pub open spec fn nothing() -> Settings {
    Settings { unit: None, selector: None, enable_data: None, disable_data: None }
}

/// What the settings say of a key.
pub open spec fn value(s: Settings, k: Key) -> Option<Seq<u8>> {
    match k {
        Key::Unit => match s.unit {
            Some(v) => Some(seq![v]),
            None => None,
        },
        Key::Selector => match s.selector {
            Some(v) => Some(seq![v]),
            None => None,
        },
        Key::EnableData => s.enable_data,
        Key::DisableData => s.disable_data,
        Key::Other => None,
    }
}

/// A line adds what it says on its own, and says it about its key alone.
proof fn lemma_line_adds(s: Settings, raw: Seq<char>, k: Key)
    ensures
        read_line(s, raw) is Ok <==> read_line(nothing(), raw) is Ok,
        read_line(s, raw) is Ok ==> ({
            let own = value(read_line(nothing(), raw)->Ok_0, k);
            &&& value(read_line(s, raw)->Ok_0, k) == if own is Some {
                own
            } else {
                value(s, k)
            }
            &&& own is Some ==> tells(trim(raw)) && key(trim(raw)) == k
        }),
{
}

/// The value of a key comes from one of the lines, and every line about it gives one.
proof fn lemma_lines_add(ls: Seq<Seq<char>>, k: Key)
    ensures
        read_lines(ls) is Ok <==> forall|i: int|
            0 <= i < ls.len() ==> read_line(nothing(), #[trigger] ls[i]) is Ok,
        read_lines(ls) is Ok ==> ({
            let whole = value(read_lines(ls)->Ok_0, k);
            &&& whole is Some ==> exists|i: int|
                0 <= i < ls.len() && value(read_line(nothing(), #[trigger] ls[i])->Ok_0, k) == whole
            &&& forall|i: int|
                0 <= i < ls.len() && value(
                    read_line(nothing(), #[trigger] ls[i])->Ok_0,
                    k,
                ) is Some ==> whole is Some
        }),
    decreases ls.len(),
{
    if ls.len() > 0 {
        let prior = ls.drop_last();
        let last = ls.len() - 1;
        lemma_lines_add(prior, k);
        assert forall|i: int| 0 <= i < prior.len() implies prior[i] == ls[i] by {}
        if read_lines(prior) is Ok {
            lemma_line_adds(read_lines(prior)->Ok_0, ls[last], k);
        } else {
            let i = choose|i: int|
                0 <= i < prior.len() && read_line(nothing(), #[trigger] prior[i]) is Err;
            assert(read_line(nothing(), ls[i]) is Err);
        }
        if read_lines(ls) is Ok {
            let whole = value(read_lines(ls)->Ok_0, k);
            let own = value(read_line(nothing(), ls[last])->Ok_0, k);
            if whole is Some && own is None {
                let i = choose|i: int|
                    0 <= i < prior.len() && value(
                        read_line(nothing(), #[trigger] prior[i])->Ok_0,
                        k,
                    ) == whole;
                assert(value(read_line(nothing(), ls[i])->Ok_0, k) == whole);
            }
            assert forall|i: int|
                0 <= i < ls.len() && value(
                    read_line(nothing(), #[trigger] ls[i])->Ok_0,
                    k,
                ) is Some implies whole is Some by {
                if i < last {
                    assert(prior[i] == ls[i]);
                }
            }
        }
    }
}

/// Texts that say the same, each key once, give a key the same value.
proof fn lemma_same_value(a: Seq<char>, b: Seq<char>, k: Key)
    requires
        read_lines(lines(a)) is Ok,
        read_lines(lines(b)) is Ok,
        said(a) == said(b),
        each_key_once(a),
    ensures
        value(read_lines(lines(a))->Ok_0, k) == value(read_lines(lines(b))->Ok_0, k),
{
    let (la, lb) = (lines(a), lines(b));
    let va = value(read_lines(la)->Ok_0, k);
    let vb = value(read_lines(lb)->Ok_0, k);
    lemma_lines_add(la, k);
    lemma_lines_add(lb, k);
    if va is Some {
        let i = choose|i: int|
            0 <= i < la.len() && value(read_line(nothing(), #[trigger] la[i])->Ok_0, k) == va;
        lemma_line_adds(nothing(), la[i], k);
        assert(said(a).contains(trim(la[i])));
        assert(said(b).contains(trim(la[i])));
        let j = choose|j: int| 0 <= j < lb.len() && trim(#[trigger] lb[j]) == trim(la[i]);
        assert(read_line(nothing(), lb[j]) == read_line(nothing(), la[i]));
        assert(vb is Some);
    }
    if vb is Some {
        let j = choose|j: int|
            0 <= j < lb.len() && value(read_line(nothing(), #[trigger] lb[j])->Ok_0, k) == vb;
        lemma_line_adds(nothing(), lb[j], k);
        assert(said(b).contains(trim(lb[j])));
        assert(said(a).contains(trim(lb[j])));
        let i = choose|i: int| 0 <= i < la.len() && trim(#[trigger] la[i]) == trim(lb[j]);
        assert(read_line(nothing(), la[i]) == read_line(nothing(), lb[j]));
        assert(va is Some);
        let m = choose|m: int|
            0 <= m < la.len() && value(read_line(nothing(), #[trigger] la[m])->Ok_0, k) == va;
        lemma_line_adds(nothing(), la[m], k);
        assert(said(a).contains(trim(la[m])));
        assert(trim(la[m]) == trim(lb[j]));
        assert(read_line(nothing(), la[m]) == read_line(nothing(), lb[j]));
    }
}

/// Whether a text assigns no key twice.
pub open spec fn each_key_once(toml: Seq<char>) -> bool {
    forall|x: Seq<char>, y: Seq<char>|
        #![trigger said(toml).contains(x), said(toml).contains(y)]
        said(toml).contains(x) && said(toml).contains(y) && key(x) == key(y) && key(x) != Key::Other
            ==> x == y
}

/// A text that assigns each key once is read the same, and with success, whatever the order of its
/// lines, their indentation, and the empty lines and comments between them.
pub proof fn order_and_comments_do_not_matter(
    first: Result<IrEmitterConfig, IrEmitterError>,
    a: Seq<char>,
    second: Result<IrEmitterConfig, IrEmitterError>,
    b: Seq<char>,
)
    requires
        IrEmitterConfig::is_parse_of(first, a),
        IrEmitterConfig::is_parse_of(second, b),
        first is Ok,
        each_key_once(a),
        said(a) == said(b),
    ensures
        second is Ok,
        ({
            let (c, d) = (first->Ok_0, second->Ok_0);
            &&& c.unit == d.unit
            &&& c.selector == d.selector
            &&& c.enable_data@ == d.enable_data@
            &&& match (c.disable_data, d.disable_data) {
                (Some(x), Some(y)) => x@ == y@,
                (None, None) => true,
                _ => false,
            }
        }),
{
    let (la, lb) = (lines(a), lines(b));
    assert forall|j: int| 0 <= j < lb.len() implies read_line(nothing(), #[trigger] lb[j]) is Ok by {
        if tells(trim(lb[j])) {
            assert(said(b).contains(trim(lb[j])));
            assert(said(a).contains(trim(lb[j])));
            let i = choose|i: int| 0 <= i < la.len() && trim(#[trigger] la[i]) == trim(lb[j]);
            lemma_lines_add(la, Key::Other);
            assert(read_line(nothing(), la[i]) is Ok);
        } else {
            comments_do_not_matter(nothing(), lb[j]);
        }
    }
    lemma_lines_add(lb, Key::Other);
    lemma_same_value(a, b, Key::Unit);
    lemma_same_value(a, b, Key::Selector);
    lemma_same_value(a, b, Key::EnableData);
    lemma_same_value(a, b, Key::DisableData);
    let (s, t) = (read_lines(la)->Ok_0, read_lines(lb)->Ok_0);
    assert(value(s, Key::Unit)->0[0] == s.unit->0);
    assert(value(s, Key::Selector)->0[0] == s.selector->0);
    assert(value(t, Key::Unit)->0[0] == t.unit->0);
    assert(value(t, Key::Selector)->0[0] == t.selector->0);
}

// Written lists.

/// Whether a text writes the number `v`: in decimal, or in hexadecimal behind `0x`.
pub open spec fn writes(t: Seq<char>, v: nat) -> bool {
    ||| t.len() > 0 && digits_value(t, 10) == Some(v)
    ||| t.len() > 2 && (starts_with(t, "0x"@) || starts_with(t, "0X"@)) && digits_value(t.skip(2), 16)
        == Some(v)
}

/// Whether a text can stand in a list as one element: it does not begin or end with white space,
/// and holds none of the characters that part or enclose elements or begin a comment.
pub open spec fn is_element(t: Seq<char>) -> bool {
    &&& t.len() > 0
    &&& !is_space(t[0])
    &&& !is_space(t.last())
    &&& forall|k: int|
        0 <= k < t.len() ==> (#[trigger] t[k]) != ',' && t[k] != '#' && t[k] != '[' && t[k] != ']'
}

/// The elements, parted by commas and spaces.
pub open spec fn parted(elements: Seq<Seq<char>>) -> Seq<char>
    decreases elements.len(),
{
    if elements.len() == 0 {
        Seq::empty()
    } else if elements.len() == 1 {
        elements[0]
    } else {
        elements[0] + seq![',', ' '] + parted(elements.drop_first())
    }
}

/// A list as it stands behind its key: an equals sign, and the elements in brackets.
pub open spec fn list_text(elements: Seq<Seq<char>>) -> Seq<char> {
    seq!['=', ' ', '['] + parted(elements) + seq![']']
}

/// The elements as splitting at the commas finds them: each but the first behind a space. The first
/// stands behind `prefix`.
spec fn pieces(prefix: Seq<char>, elements: Seq<Seq<char>>) -> Seq<Seq<char>> {
    Seq::new(
        elements.len(),
        |i: int|
            if i == 0 {
                prefix + elements[0]
            } else {
                seq![' '] + elements[i]
            },
    )
}

spec fn all_elements(elements: Seq<Seq<char>>) -> bool {
    forall|i: int| 0 <= i < elements.len() ==> is_element(#[trigger] elements[i])
}

proof fn lemma_tail_elements(elements: Seq<Seq<char>>)
    requires
        elements.len() > 0,
        all_elements(elements),
    ensures
        all_elements(elements.drop_first()),
{
    let rest = elements.drop_first();
    assert forall|i: int| 0 <= i < rest.len() implies is_element(#[trigger] rest[i]) by {
        assert(rest[i] == elements[i + 1]);
    }
}

proof fn lemma_parted(elements: Seq<Seq<char>>)
    requires
        all_elements(elements),
    ensures
        forall|k: int| 0 <= k < parted(elements).len() ==> #[trigger] parted(elements)[k] != '#',
        elements.len() == 0 <==> parted(elements).len() == 0,
        elements.len() > 0 ==> parted(elements)[0] != '[' && parted(elements).last() != ']',
    decreases elements.len(),
{
    if elements.len() > 0 {
        assert(is_element(elements[0]));
        lemma_tail_elements(elements);
        lemma_parted(elements.drop_first());
    }
}

proof fn lemma_split_pieces(prefix: Seq<char>, elements: Seq<Seq<char>>)
    requires
        elements.len() > 0,
        all_elements(elements),
        forall|k: int| 0 <= k < prefix.len() ==> #[trigger] prefix[k] != ',',
    ensures
        split(prefix + parted(elements), ',') == pieces(prefix, elements),
    decreases elements.len(),
{
    let s = prefix + parted(elements);
    let head = prefix + elements[0];
    assert(is_element(elements[0]));
    assert forall|k: int| 0 <= k < head.len() implies head[k] != ',' by {
        if k < prefix.len() {
            assert(head[k] == prefix[k]);
        } else {
            assert(head[k] == elements[0][k - prefix.len()]);
        }
    }
    if elements.len() == 1 {
        assert(s =~= head);
        lemma_find_is(s, ',', s.len());
        assert(split(s, ',') =~= pieces(prefix, elements));
    } else {
        let rest = elements.drop_first();
        let n = head.len() as int;
        let tail = seq![' '] + parted(rest);
        assert(s =~= head + seq![','] + tail);
        assert forall|k: int| 0 <= k < n implies s[k] != ',' by {
            assert(s[k] == head[k]);
        }
        lemma_find_is(s, ',', n as nat);
        assert(s.take(n) =~= head);
        assert(s.skip(n + 1) =~= tail);
        lemma_tail_elements(elements);
        lemma_split_pieces(seq![' '], rest);
        assert(split(s, ',') =~= seq![head] + pieces(seq![' '], rest));
        assert(seq![head] + pieces(seq![' '], rest) =~= pieces(prefix, elements));
    }
}

/// A written list is read element by element.
proof fn lemma_list(elements: Seq<Seq<char>>)
    requires
        elements.len() > 0,
        all_elements(elements),
    ensures
        byte_array_value(list_text(elements)) == bytes_of(pieces(Seq::empty(), elements)),
{
    let inner = parted(elements);
    lemma_parted(elements);
    lemma_inner(inner);
    lemma_split_pieces(Seq::empty(), elements);
    assert(Seq::<char>::empty() + inner =~= inner);
}

/// What stands between the brackets is found.
proof fn lemma_inner(inner: Seq<char>)
    requires
        forall|k: int| 0 <= k < inner.len() ==> #[trigger] inner[k] != '#',
        inner.len() > 0 ==> inner[0] != '[' && inner.last() != ']',
    ensures
        ({
            let s = seq!['=', ' ', '['] + inner + seq![']'];
            drop_trailing(drop_leading(value_text(s), '['), ']') == inner
        }),
{
    let s = seq!['=', ' ', '['] + inner + seq![']'];
    assert forall|k: int| 0 <= k < s.len() implies s[k] != '#' by {
        if 3 <= k < 3 + inner.len() {
            assert(s[k] == inner[k - 3]);
        }
    }
    lemma_find_is(s, '#', s.len());
    assert(before(s, '#') =~= s);
    assert(s[0] == '=' && s.last() == ']');
    assert(trim(s) == s);
    let list = seq!['['] + inner + seq![']'];
    let spaced = seq![' '] + list;
    assert(s.drop_first() =~= spaced);
    assert(drop_leading(spaced, '=') == spaced);
    assert(drop_leading(s, '=') == spaced);
    assert(spaced.drop_first() =~= list);
    assert(list[0] == '[' && list.last() == ']');
    assert(trim_start(list) == list);
    assert(trim_start(spaced) == list);
    assert(trim(spaced) == list);
    assert(value_text(s) == list);
    let open = inner + seq![']'];
    assert(list.drop_first() =~= open);
    assert(open[0] != '[');
    assert(drop_leading(open, '[') == open);
    assert(drop_leading(list, '[') == open);
    assert(open.drop_last() =~= inner);
    assert(open.last() == ']');
    assert(drop_trailing(inner, ']') == inner);
    assert(drop_trailing(open, ']') == inner);
}

proof fn lemma_piece_trims(prefix: Seq<char>, elements: Seq<Seq<char>>, i: int)
    requires
        all_elements(elements),
        0 <= i < elements.len(),
        prefix == Seq::<char>::empty(),
    ensures
        trim(pieces(prefix, elements)[i]) == elements[i],
{
    let e = elements[i];
    let p = pieces(prefix, elements)[i];
    assert(is_element(e));
    assert(trim_start(e) == e);
    assert(trim(e) == e);
    if i == 0 {
        assert(p =~= e);
    } else {
        assert(p.drop_first() =~= e);
        assert(p[0] == ' ');
        assert(trim_start(p) == trim_start(e));
    }
}

proof fn lemma_tokens(tokens: Seq<Seq<char>>, bytes: Seq<u8>)
    requires
        tokens.len() == bytes.len(),
        forall|i: int|
            0 <= i < tokens.len() ==> trim(#[trigger] tokens[i]).len() > 0 && byte_value(trim(tokens[i]))
                == Some(bytes[i]),
    ensures
        bytes_of(tokens) == Some(bytes),
    decreases tokens.len(),
{
    if tokens.len() > 0 {
        let (ts, bs) = (tokens.drop_last(), bytes.drop_last());
        assert forall|i: int| 0 <= i < ts.len() implies trim(#[trigger] ts[i]).len() > 0 && byte_value(
            trim(ts[i]),
        ) == Some(bs[i]) by {
            assert(ts[i] == tokens[i]);
        }
        lemma_tokens(ts, bs);
        assert(trim(tokens[tokens.len() - 1]).len() > 0);
        assert(bs.push(bytes.last()) =~= bytes);
    } else {
        assert(bytes =~= Seq::<u8>::empty());
    }
}

/// A run of digits holds nothing but digits.
proof fn lemma_all_digits(t: Seq<char>, radix: nat)
    requires
        digits_value(t, radix) is Some,
    ensures
        forall|k: int| 0 <= k < t.len() ==> digit_value(#[trigger] t[k], radix) is Some,
    decreases t.len(),
{
    if t.len() > 0 {
        let prior = t.drop_last();
        lemma_all_digits(prior, radix);
        assert forall|k: int| 0 <= k < t.len() implies digit_value(#[trigger] t[k], radix) is Some by {
            if k < prior.len() {
                assert(prior[k] == t[k]);
            }
        }
    }
}

/// A number that is written can be an element, and is read.
proof fn lemma_written_number(t: Seq<char>, v: nat)
    requires
        writes(t, v),
        v <= u64::MAX,
    ensures
        is_element(t),
        t[0] != '=',
        value_text(t) == t,
        int_value(t) == Some(v),
        byte_value(t) == Some((v % 256) as u8),
{
    reveal_strlit("0x");
    reveal_strlit("0X");
    if digits_value(t, 10) == Some(v) && t.len() > 0 {
        lemma_all_digits(t, 10);
        assert(digit_value(t[0], 10) is Some);
        assert(digit_value(t[t.len() - 1], 10) is Some);
        if t.len() > 1 {
            assert(digit_value(t[1], 10) is Some);
            assert(t.take(2)[1] == t[1]);
        }
        assert(!starts_with(t, "0x"@) && !starts_with(t, "0X"@)) by {
            if t.len() > 1 {
                assert("0x"@[1] == 'x' && "0X"@[1] == 'X');
            }
        }
        assert forall|k: int| 0 <= k < t.len() implies (#[trigger] t[k]) != ',' && t[k] != '#' && t[k]
            != '[' && t[k] != ']' by {
            assert(digit_value(t[k], 10) is Some);
        }
        lemma_value_is_text(t);
    } else {
        let h = t.skip(2);
        lemma_all_digits(h, 16);
        assert(t.take(2)[0] == '0' && t[0] == t.take(2)[0]);
        assert(t.take(2)[1] == t[1]);
        assert(t[1] == 'x' || t[1] == 'X');
        assert(h[h.len() - 1] == t.last());
        assert(digit_value(h[h.len() - 1], 16) is Some);
        assert(digit_value(h[0], 16) is Some);
        assert forall|k: int| 0 <= k < t.len() implies (#[trigger] t[k]) != ',' && t[k] != '#' && t[k]
            != '[' && t[k] != ']' by {
            if k >= 2 {
                assert(h[k - 2] == t[k]);
                assert(digit_value(h[k - 2], 16) is Some);
            }
        }
        lemma_value_is_text(t);
    }
}

proof fn lemma_value_is_text(t: Seq<char>)
    requires
        is_element(t),
        t[0] != '=',
    ensures
        value_text(t) == t,
{
    lemma_find_is(t, '#', t.len());
    assert(before(t, '#') =~= t);
    assert(trim_start(t) == t);
    assert(trim(t) == t);
}

/// A list of bytes that was written, each in decimal or in hexadecimal, is read back: the same bytes
/// in the same order.
pub proof fn written_bytes_are_read(elements: Seq<Seq<char>>, bytes: Seq<u8>)
    requires
        elements.len() == bytes.len(),
        forall|i: int| 0 <= i < elements.len() ==> writes(#[trigger] elements[i], bytes[i] as nat),
    ensures
        byte_array_value(list_text(elements)) == Some(bytes),
{
    assert forall|i: int| 0 <= i < elements.len() implies is_element(#[trigger] elements[i]) by {
        lemma_written_number(elements[i], bytes[i] as nat);
    }
    if elements.len() == 0 {
        let inner = Seq::<char>::empty();
        lemma_inner(inner);
        assert(parted(elements) =~= inner);
        assert(split(inner, ',') =~= seq![inner]);
        let tokens = seq![inner];
        assert(tokens.drop_last() =~= Seq::<Seq<char>>::empty());
        assert(trim(tokens.last()).len() == 0);
        assert(bytes_of(tokens.drop_last()) == Some(Seq::<u8>::empty()));
        assert(bytes_of(tokens) == Some(Seq::<u8>::empty()));
        assert(bytes =~= Seq::<u8>::empty());
    } else {
        let tokens = pieces(Seq::empty(), elements);
        lemma_list(elements);
        assert forall|i: int| 0 <= i < tokens.len() implies trim(#[trigger] tokens[i]).len() > 0
            && byte_value(trim(tokens[i])) == Some(bytes[i]) by {
            lemma_piece_trims(Seq::empty(), elements, i);
            lemma_written_number(elements[i], bytes[i] as nat);
        }
        lemma_tokens(tokens, bytes);
    }
}

// Lists that cannot be read.

/// Whether a part of a text between commas, not counting white space, is there and is no number.
pub open spec fn spoils(t: Seq<char>) -> bool {
    exists|i: int|
        0 <= i < split(t, ',').len() && trim(#[trigger] split(t, ',')[i]).len() > 0 && byte_value(
            trim(split(t, ',')[i]),
        ) is None
}

/// Whether a text holds the sign that begins a comment.
pub open spec fn has_comment(t: Seq<char>) -> bool {
    find(t, '#') < t.len()
}

/// What of the element `i` of a list is read. A comment in it ends the list there. Brackets that
/// open the first element, or close the last one that is read, count as brackets of the list.
pub open spec fn part_read(elements: Seq<Seq<char>>, i: int) -> Seq<char> {
    let e = elements[i];
    let whole = if has_comment(e) {
        trim_end(before(e, '#'))
    } else {
        e
    };
    let opened = if i == 0 {
        drop_leading(whole, '[')
    } else {
        whole
    };
    if has_comment(e) || i == elements.len() - 1 {
        drop_trailing(opened, ']')
    } else {
        opened
    }
}

/// What stands in a list in front of the element `i`.
spec fn front_of(elements: Seq<Seq<char>>, i: int) -> Seq<char> {
    if i == 0 {
        Seq::empty()
    } else {
        parted(elements.take(i)) + seq![',', ' ']
    }
}

/// What stands in a list behind the element `i`.
spec fn back_of(elements: Seq<Seq<char>>, i: int) -> Seq<char> {
    if i == elements.len() - 1 {
        Seq::empty()
    } else {
        seq![',', ' '] + parted(elements.skip(i + 1))
    }
}

proof fn lemma_parted_at(elements: Seq<Seq<char>>, i: int)
    requires
        0 <= i < elements.len(),
    ensures
        parted(elements) == front_of(elements, i) + elements[i] + back_of(elements, i),
    decreases elements.len(),
{
    let rest = elements.drop_first();
    if i == 0 {
        assert(elements.skip(1) =~= rest);
        assert(parted(elements) =~= front_of(elements, i) + elements[i] + back_of(elements, i));
    } else {
        lemma_parted_at(rest, i - 1);
        assert(rest[i - 1] == elements[i]);
        assert(rest.skip(i) =~= elements.skip(i + 1));
        let head = elements.take(i);
        assert(head.drop_first() =~= rest.take(i - 1));
        if i == 1 {
            assert(parted(head) == elements[0]);
            assert(front_of(rest, 0) =~= Seq::<char>::empty());
        } else {
            assert(parted(head) == elements[0] + seq![',', ' '] + parted(rest.take(i - 1)));
        }
        assert(back_of(rest, i - 1) == back_of(elements, i));
        assert(front_of(elements, i) =~= elements[0] + seq![',', ' '] + front_of(rest, i - 1));
        assert(parted(elements) =~= front_of(elements, i) + elements[i] + back_of(elements, i));
    }
}

proof fn lemma_parted_has_no_comment(elements: Seq<Seq<char>>)
    requires
        forall|k: int| 0 <= k < elements.len() ==> !has_comment(#[trigger] elements[k]),
    ensures
        forall|k: int| 0 <= k < parted(elements).len() ==> parted(elements)[k] != '#',
    decreases elements.len(),
{
    if elements.len() > 0 {
        let rest = elements.drop_first();
        assert(!has_comment(elements[0]));
        lemma_find_bound(elements[0], '#');
        assert forall|k: int| 0 <= k < rest.len() implies !has_comment(#[trigger] rest[k]) by {
            assert(rest[k] == elements[k + 1]);
        }
        lemma_parted_has_no_comment(rest);
        let all = parted(elements);
        let n = elements[0].len() as int;
        assert forall|k: int| 0 <= k < all.len() implies all[k] != '#' by {
            if k < n {
                assert(all[k] == elements[0][k]);
            } else if k >= n + 2 {
                assert(all[k] == parted(rest)[k - n - 2]);
            }
        }
    }
}

proof fn lemma_trim_end_behind(a: Seq<char>, b: Seq<char>)
    ensures
        trim_end(b).len() > 0 || (a.len() > 0 && !is_space(a.last())) ==> trim_end(a + b) == a
            + trim_end(b),
        trim_end(b).len() <= b.len(),
        trim_end(b) == b.take(trim_end(b).len() as int),
        trim_end(trim_end(b)) == trim_end(b),
    decreases b.len(),
{
    if b.len() > 0 && is_space(b.last()) {
        lemma_trim_end_behind(a, b.drop_last());
        assert((a + b).drop_last() =~= a + b.drop_last());
        assert((a + b).last() == b.last());
        assert(b.drop_last().take(trim_end(b).len() as int) =~= b.take(trim_end(b).len() as int));
    } else if b.len() > 0 {
        assert((a + b).last() == b.last());
        assert(b.take(b.len() as int) =~= b);
    } else {
        assert(a + b =~= a);
        assert(a + trim_end(b) =~= a);
        assert(b.take(0) =~= b);
    }
}

proof fn lemma_drop_leading_front(a: Seq<char>, b: Seq<char>, c: char)
    requires
        b.len() > 0,
        b[0] != c,
    ensures
        drop_leading(a + b, c) == drop_leading(a, c) + b,
    decreases a.len(),
{
    if a.len() > 0 && a[0] == c {
        lemma_drop_leading_front(a.drop_first(), b, c);
        assert((a + b).drop_first() =~= a.drop_first() + b);
    } else if a.len() == 0 {
        assert(a + b =~= b);
        assert(drop_leading(a, c) + b =~= b);
    }
}

proof fn lemma_drop_trailing_back(a: Seq<char>, b: Seq<char>, c: char)
    ensures
        drop_trailing(b, c).len() > 0 ==> drop_trailing(a + b, c) == a + drop_trailing(b, c),
        b.len() > 0 && b[0] != c ==> drop_trailing(b, c).len() > 0 && drop_trailing(b, c)[0] == b[0],
    decreases b.len(),
{
    if b.len() > 0 {
        assert((a + b).last() == b.last());
        if b.last() == c {
            lemma_drop_trailing_back(a, b.drop_last(), c);
            assert((a + b).drop_last() =~= a + b.drop_last());
        }
    }
}

/// Splitting two texts with a comma between them gives the parts of both.
proof fn lemma_split_joined(a: Seq<char>, b: Seq<char>)
    ensures
        split(a + seq![','] + b, ',') == split(a, ',') + split(b, ','),
    decreases a.len(),
{
    let s = a + seq![','] + b;
    let n = find(a, ',') as int;
    lemma_find_bound(a, ',');
    assert forall|k: int| 0 <= k < n implies s[k] != ',' by {
        assert(s[k] == a[k]);
    }
    lemma_find_is(s, ',', n as nat);
    if n >= a.len() {
        assert(s.take(n) =~= a);
        assert(s.skip(n + 1) =~= b);
    } else {
        let rest = a.skip(n + 1);
        lemma_split_joined(rest, b);
        assert(s.take(n) =~= a.take(n));
        assert(s.skip(n + 1) =~= rest + seq![','] + b);
        assert(split(s, ',') =~= split(a, ',') + split(b, ','));
    }
}

/// A space in front changes the first part alone, and that not beyond white space.
proof fn lemma_split_spaced(s: Seq<char>)
    ensures
        split(seq![' '] + s, ',').len() == split(s, ',').len(),
        forall|i: int|
            0 <= i < split(s, ',').len() ==> trim(#[trigger] split(seq![' '] + s, ',')[i]) == trim(
                split(s, ',')[i],
            ),
{
    let t = seq![' '] + s;
    let n = find(s, ',') as int;
    lemma_find_bound(s, ',');
    assert forall|k: int| 0 <= k < n + 1 implies t[k] != ',' by {
        if k > 0 {
            assert(t[k] == s[k - 1]);
        }
    }
    lemma_find_is(t, ',', (n + 1) as nat);
    let first = s.take(n);
    assert(t.take(n + 1) =~= seq![' '] + first);
    assert((seq![' '] + first).drop_first() =~= first);
    assert(trim_start(seq![' '] + first) == trim_start(first));
    if n >= s.len() {
        assert(first =~= s);
        assert(t =~= seq![' '] + first);
    } else {
        assert(t.skip(n + 2) =~= s.skip(n + 1));
    }
}

/// A part that spoils the list is found among its elements, wherever it stands.
proof fn lemma_spoiled(front: Seq<char>, t: Seq<char>, back: Seq<char>)
    requires
        spoils(t),
        front.len() == 0 || (front.len() >= 2 && front.skip(front.len() - 2) == seq![',', ' ']),
        back.len() == 0 || back[0] == ',',
    ensures
        bytes_of(split(front + t + back, ',')) is None,
{
    let i = choose|i: int|
        0 <= i < split(t, ',').len() && trim(#[trigger] split(t, ',')[i]).len() > 0 && byte_value(
            trim(split(t, ',')[i]),
        ) is None;
    let middle = if front.len() == 0 {
        t
    } else {
        seq![' '] + t
    };
    lemma_split_spaced(t);
    assert(trim(split(middle, ',')[i]) == trim(split(t, ',')[i]));
    assert(i < split(middle, ',').len());
    let tail = if back.len() == 0 {
        middle
    } else {
        middle + seq![','] + back.drop_first()
    };
    if back.len() > 0 {
        lemma_split_joined(middle, back.drop_first());
    }
    assert(split(tail, ',')[i] == split(middle, ',')[i]);
    let all = front + t + back;
    if front.len() == 0 {
        assert(all =~= tail);
        lemma_bad_token(split(all, ','), i);
    } else {
        let head = front.take(front.len() - 2);
        assert(front =~= head + seq![',', ' ']) by {
            assert(front =~= head + front.skip(front.len() - 2));
        }
        lemma_split_joined(head, tail);
        assert(all =~= head + seq![','] + tail);
        let k = split(head, ',').len() + i;
        assert(split(all, ',')[k] == split(tail, ',')[i]);
        lemma_bad_token(split(all, ','), k);
    }
}

proof fn lemma_bad_token(tokens: Seq<Seq<char>>, i: int)
    requires
        0 <= i < tokens.len(),
        trim(tokens[i]).len() > 0,
        byte_value(trim(tokens[i])) is None,
    ensures
        bytes_of(tokens) is None,
{
    let now = tokens.take(i + 1);
    assert(now.last() == tokens[i]);
    lemma_bad_token_stays(tokens, i + 1);
}

/// What is read of a list: what stands behind the bracket that opens it, up to a comment.
proof fn lemma_list_value(u: Seq<char>, rest: Seq<char>)
    requires
        forall|k: int| 0 <= k < u.len() ==> u[k] != '#',
        rest.len() > 0 ==> rest[0] == '#',
    ensures
        value_text(seq!['=', ' ', '['] + u + rest) == seq!['['] + trim_end(u),
{
    let lead = seq!['=', ' ', '['];
    let s = lead + u + rest;
    let n = (lead.len() + u.len()) as nat;
    assert forall|k: int| 0 <= k < n implies s[k] != '#' by {
        if k >= 3 {
            assert(s[k] == u[k - 3]);
        }
    }
    lemma_find_is(s, '#', n);
    let t = lead + u;
    assert(before(s, '#') =~= t);
    lemma_trim_end_behind(lead, u);
    assert(t[0] == '=');
    assert(trim_start(t) == t);
    let cut = lead + trim_end(u);
    assert(trim(t) == cut);
    let list = seq!['['] + trim_end(u);
    let spaced = seq![' '] + list;
    assert(cut.drop_first() =~= spaced);
    assert(drop_leading(spaced, '=') == spaced);
    assert(drop_leading(cut, '=') == spaced);
    assert(spaced.drop_first() =~= list);
    assert(trim_start(list) == list);
    assert(trim_start(spaced) == list);
    lemma_trim_end_behind(seq!['['], trim_end(u));
    assert(trim(spaced) == list);
}

/// The brackets of a list are taken off what is read of it.
proof fn lemma_unbracketed(u: Seq<char>, rest: Seq<char>)
    requires
        forall|k: int| 0 <= k < u.len() ==> u[k] != '#',
        rest.len() > 0 ==> rest[0] == '#',
    ensures
        byte_array_value(seq!['=', ' ', '['] + u + rest) == bytes_of(
            split(drop_trailing(drop_leading(trim_end(u), '['), ']'), ','),
        ),
{
    lemma_list_value(u, rest);
    let list = seq!['['] + trim_end(u);
    assert(list.drop_first() =~= trim_end(u));
}

/// An element of which a part is read that is no number spoils the list, whatever the other
/// elements are, and whatever characters it holds: commas, brackets and spaces too. The elements in
/// front of it have no comment, which would end the list before it.
pub proof fn bad_element_spoils_the_list(elements: Seq<Seq<char>>, bad: int)
    requires
        0 <= bad < elements.len(),
        forall|k: int| 0 <= k < bad ==> !has_comment(#[trigger] elements[k]),
        spoils(part_read(elements, bad)),
    ensures
        byte_array_value(list_text(elements)) is None,
{
    let e = elements[bad];
    let front = front_of(elements, bad);
    let back = back_of(elements, bad) + seq![']'];
    let shown = before(e, '#');
    let seen = part_read(elements, bad);
    lemma_parted_at(elements, bad);
    lemma_find_bound(e, '#');
    assert(list_text(elements) =~= seq!['=', ' ', '['] + (front + e + back));
    lemma_nonempty(seen);
    let head = elements.take(bad);
    assert forall|k: int| 0 <= k < head.len() implies !has_comment(#[trigger] head[k]) by {
        assert(head[k] == elements[k]);
    }
    lemma_parted_has_no_comment(head);
    assert forall|k: int| 0 <= k < front.len() implies front[k] != '#' by {
        if k < parted(head).len() {
            assert(front[k] == parted(head)[k]);
        }
    }
    if bad > 0 {
        assert(front.skip(front.len() - 2) =~= seq![',', ' ']);
    }
    if has_comment(e) {
        let u = front + shown;
        let rest = e.skip(find(e, '#') as int) + back;
        assert(e =~= shown + e.skip(find(e, '#') as int));
        assert(list_text(elements) =~= seq!['=', ' ', '['] + u + rest);
        assert forall|k: int| 0 <= k < u.len() implies u[k] != '#' by {
            if k >= front.len() {
                assert(u[k] == e[k - front.len()]);
            }
        }
        lemma_unbracketed(u, rest);
        let whole = trim_end(shown);
        assert(whole.len() > 0);
        lemma_trim_end_behind(front, shown);
        lemma_read_at(front, whole, Seq::empty(), bad == 0, true);
        assert(front + whole + Seq::<char>::empty() =~= front + whole);
    } else {
        assert(shown =~= e);
        let tail = before(back, '#');
        lemma_find_bound(back, '#');
        let u = front + e + tail;
        let rest = back.skip(find(back, '#') as int);
        assert(back =~= tail + rest);
        assert(list_text(elements) =~= seq!['=', ' ', '['] + u + rest);
        assert forall|k: int| 0 <= k < u.len() implies u[k] != '#' by {
            if k >= front.len() + e.len() {
                assert(u[k] == back[k - front.len() - e.len()]);
            } else if k >= front.len() {
                assert(u[k] == e[k - front.len()]);
            }
        }
        lemma_unbracketed(u, rest);
        assert(back[0] == ']' || back[0] == ',');
        assert(tail[0] == back[0]);
        let ended = trim_end(tail);
        lemma_trim_end_behind(front + e, tail);
        lemma_trim_end_starts(tail);
        if bad == elements.len() - 1 {
            assert(back =~= seq![']']);
            assert(tail =~= seq![']']);
            assert(ended =~= seq![']']);
        }
        lemma_read_at(front, e, ended, bad == 0, bad == elements.len() - 1);
    }
}

/// A single element that is no number spoils the list: one with neither comma nor comment, and with
/// no bracket where those of the list are.
pub proof fn single_bad_element_spoils_the_list(elements: Seq<Seq<char>>, bad: int)
    requires
        0 <= bad < elements.len(),
        forall|k: int| 0 <= k <= bad ==> !has_comment(#[trigger] elements[k]),
        forall|k: int| 0 <= k < elements[bad].len() ==> elements[bad][k] != ',',
        trim(elements[bad]).len() > 0,
        byte_value(trim(elements[bad])) is None,
        bad == 0 ==> elements[bad][0] != '[',
        bad == elements.len() - 1 ==> elements[bad].last() != ']',
    ensures
        byte_array_value(list_text(elements)) is None,
{
    let e = elements[bad];
    assert(!has_comment(elements[bad]));
    assert(part_read(elements, bad) == e);
    lemma_find_is(e, ',', e.len());
    assert(split(e, ',')[0] == e);
    bad_element_spoils_the_list(elements, bad);
}

proof fn lemma_trim_end_starts(s: Seq<char>)
    requires
        s.len() > 0,
        !is_space(s[0]),
    ensures
        trim_end(s).len() > 0,
        trim_end(s)[0] == s[0],
    decreases s.len(),
{
    if s.len() > 1 && is_space(s.last()) {
        lemma_trim_end_starts(s.drop_last());
    }
}

proof fn lemma_nonempty(t: Seq<char>)
    requires
        spoils(t),
    ensures
        t.len() > 0,
{
    if t.len() == 0 {
        assert(find(t, ',') == 0);
        assert(split(t, ',') =~= seq![t]);
        assert(trim(t) =~= t);
    }
}

/// The brackets are taken off at the ends alone, so that what is left of an element keeps its place.
proof fn lemma_read_at(front: Seq<char>, e: Seq<char>, back: Seq<char>, first: bool, last: bool)
    requires
        first ==> front.len() == 0,
        !first ==> front.len() >= 2 && front.skip(front.len() - 2) == seq![',', ' '],
        last ==> back.len() == 0 || back == seq![']'],
        !last ==> back.len() > 0 && back[0] == ',',
        ({
            let opened = if first {
                drop_leading(e, '[')
            } else {
                e
            };
            spoils(
                if last {
                    drop_trailing(opened, ']')
                } else {
                    opened
                },
            )
        }),
    ensures
        bytes_of(
            split(drop_trailing(drop_leading(front + e + back, '['), ']'), ','),
        ) is None,
{
    let opened = if first {
        drop_leading(e, '[')
    } else {
        e
    };
    let seen = if last {
        drop_trailing(opened, ']')
    } else {
        opened
    };
    lemma_nonempty(seen);
    let begun = if first {
        Seq::empty()
    } else {
        drop_leading(front.take(front.len() - 2), '[') + seq![',', ' ']
    };
    if first {
        assert(front + e + back =~= e + back);
        if back.len() > 0 {
            lemma_drop_leading_front(e, back, '[');
        } else {
            assert(e + back =~= e);
        }
        assert(drop_leading(front + e + back, '[') =~= begun + opened + back);
    } else {
        let head = front.take(front.len() - 2);
        let rest = seq![',', ' '] + e + back;
        assert(front =~= head + front.skip(front.len() - 2));
        assert(front + e + back =~= head + rest);
        lemma_drop_leading_front(head, rest, '[');
        assert(drop_leading(front + e + back, '[') =~= begun + opened + back);
        assert(begun.skip(begun.len() - 2) =~= seq![',', ' ']);
    }
    if last {
        lemma_drop_trailing_back(begun, opened, ']');
        let whole = begun + opened + back;
        if back.len() > 0 {
            assert(whole.last() == ']');
            assert(whole.drop_last() =~= begun + opened);
        } else {
            assert(whole =~= begun + opened);
        }
        assert(drop_trailing(whole, ']') == begun + seen);
        assert(begun + seen + Seq::<char>::empty() =~= begun + seen);
        lemma_spoiled(begun, seen, Seq::empty());
    } else {
        lemma_drop_trailing_back(begun + opened, back, ']');
        lemma_spoiled(begun, seen, drop_trailing(back, ']'));
    }
}

// Written lines.

proof fn lemma_front_space(gap: Seq<char>, s: Seq<char>)
    requires
        crate::text::blank(gap),
    ensures
        trim(gap + s) == trim(s),
        before(gap + s, '#') == gap + before(s, '#'),
        value_text(gap + s) == value_text(s),
{
    lemma_front_space_goes(gap, s);
    let n = find(s, '#');
    let all = gap + s;
    lemma_find_bound(s, '#');
    assert forall|k: int| 0 <= k < gap.len() + n implies all[k] != '#' by {
        if k < gap.len() {
            assert(is_space(gap[k]));
        } else {
            assert(all[k] == s[k - gap.len()]);
        }
    }
    lemma_find_is(all, '#', gap.len() + n);
    assert(all.take((gap.len() + n) as int) =~= gap + s.take(n as int));
    lemma_front_space_goes(gap, before(s, '#'));
}

proof fn lemma_front_space_goes(gap: Seq<char>, s: Seq<char>)
    requires
        crate::text::blank(gap),
    ensures
        trim_start(gap + s) == trim_start(s),
    decreases gap.len(),
{
    if gap.len() > 0 {
        let less = gap.drop_first();
        assert((gap + s)[0] == gap[0]);
        assert((gap + s).drop_first() =~= less + s);
        assert forall|i: int| 0 <= i < less.len() implies is_space(#[trigger] less[i]) by {
            assert(less[i] == gap[i + 1]);
        }
        lemma_front_space_goes(less, s);
    } else {
        assert(gap + s =~= s);
    }
}

/// What stands behind a key: an equals sign with or without space round it, the number, and perhaps a
/// remark behind it.
pub open spec fn assigned(
    gap: Seq<char>,
    next_gap: Seq<char>,
    number: Seq<char>,
    last_gap: Seq<char>,
    remark: Seq<char>,
) -> Seq<char> {
    gap + (seq!['='] + next_gap + number + last_gap + remark)
}

proof fn lemma_assigned(
    gap: Seq<char>,
    next_gap: Seq<char>,
    number: Seq<char>,
    last_gap: Seq<char>,
    remark: Seq<char>,
)
    requires
        crate::text::blank(gap),
        crate::text::blank(next_gap),
        crate::text::blank(last_gap),
        is_element(number),
        number[0] != '=',
        remark.len() > 0 ==> remark[0] == '#',
    ensures
        value_text(assigned(gap, next_gap, number, last_gap, remark)) == number,
{
    let middle = seq!['='] + next_gap + number;
    let u = middle + last_gap;
    let s = u + remark;
    assert(seq!['='] + next_gap + number + last_gap + remark =~= s);
    lemma_front_space(gap, s);
    assert forall|k: int| 0 <= k < u.len() implies s[k] != '#' by {
        if k == 0 {
        } else if k < 1 + next_gap.len() {
            assert(s[k] == next_gap[k - 1]);
            assert(is_space(next_gap[k - 1]));
        } else if k < middle.len() {
            assert(s[k] == number[k - 1 - next_gap.len()]);
        } else {
            assert(s[k] == last_gap[k - middle.len()]);
            assert(is_space(last_gap[k - middle.len()]));
        }
    }
    lemma_find_is(s, '#', u.len());
    assert(s.take(u.len() as int) =~= u);
    assert(middle[0] == '=' && middle.last() == number.last());
    crate::text::only_outer_space_goes(Seq::empty(), middle, last_gap);
    assert(Seq::<char>::empty() + middle + last_gap =~= u);
    let rest = next_gap + number;
    assert(middle =~= seq!['='] + rest);
    if next_gap.len() > 0 {
        assert(is_space(next_gap[0]));
        assert(rest[0] == next_gap[0]);
    } else {
        assert(rest[0] == number[0]);
    }
    crate::text::only_the_run_goes(seq!['='], rest, '=');
    crate::text::only_outer_space_goes(next_gap, number, Seq::empty());
    assert(next_gap + number + Seq::<char>::empty() =~= rest);
}

/// A line that assigns a number to the unit or the selector is read: the low byte of the number
/// becomes the value of that key, and nothing else changes.
pub proof fn written_numbers_are_read(
    s: Settings,
    raw: Seq<char>,
    gap: Seq<char>,
    next_gap: Seq<char>,
    number: Seq<char>,
    last_gap: Seq<char>,
    remark: Seq<char>,
    v: nat,
)
    requires
        crate::text::blank(gap),
        crate::text::blank(next_gap),
        crate::text::blank(last_gap),
        remark.len() > 0 ==> remark[0] == '#',
        writes(number, v),
        v <= u64::MAX,
    ensures
        trim(raw) == "unit"@ + assigned(gap, next_gap, number, last_gap, remark) ==> read_line(s, raw)
            == Ok::<Settings, Seq<char>>(Settings { unit: Some((v % 256) as u8), ..s }),
        trim(raw) == "selector"@ + assigned(gap, next_gap, number, last_gap, remark) ==> read_line(
            s,
            raw,
        ) == Ok::<Settings, Seq<char>>(Settings { selector: Some((v % 256) as u8), ..s }),
{
    let rest = assigned(gap, next_gap, number, last_gap, remark);
    lemma_written_number(number, v);
    lemma_assigned(gap, next_gap, number, last_gap, remark);
    lemma_keys(rest);
    assert(byte_value(rest) == byte_value(number));
}

/// A line with one of the keys begins with that key and no other.
proof fn lemma_keys(rest: Seq<char>)
    ensures
        starts_with("unit"@ + rest, "unit"@),
        ("unit"@ + rest).skip(4) == rest,
        ("unit"@ + rest)[0] == 'u',
        starts_with("selector"@ + rest, "selector"@),
        !starts_with("selector"@ + rest, "unit"@),
        ("selector"@ + rest).skip(8) == rest,
        ("selector"@ + rest)[0] == 's',
        starts_with("enable_data"@ + rest, "enable_data"@),
        !starts_with("enable_data"@ + rest, "unit"@),
        !starts_with("enable_data"@ + rest, "selector"@),
        ("enable_data"@ + rest).skip(11) == rest,
        ("enable_data"@ + rest)[0] == 'e',
        starts_with("disable_data"@ + rest, "disable_data"@),
        !starts_with("disable_data"@ + rest, "unit"@),
        !starts_with("disable_data"@ + rest, "selector"@),
        !starts_with("disable_data"@ + rest, "enable_data"@),
        ("disable_data"@ + rest).skip(12) == rest,
        ("disable_data"@ + rest)[0] == 'd',
{
    reveal_strlit("unit");
    reveal_strlit("selector");
    reveal_strlit("enable_data");
    reveal_strlit("disable_data");
    let u = "unit"@ + rest;
    let s = "selector"@ + rest;
    let e = "enable_data"@ + rest;
    let d = "disable_data"@ + rest;
    assert("unit"@.len() == 4 && "selector"@.len() == 8 && "enable_data"@.len() == 11
        && "disable_data"@.len() == 12);
    assert("unit"@[0] == 'u' && "selector"@[0] == 's' && "enable_data"@[0] == 'e' && "disable_data"@[0]
        == 'd');
    assert(u.take(4) =~= "unit"@ && u.skip(4) =~= rest);
    assert(s.take(8) =~= "selector"@ && s.skip(8) =~= rest);
    assert(e.take(11) =~= "enable_data"@ && e.skip(11) =~= rest);
    assert(d.take(12) =~= "disable_data"@ && d.skip(12) =~= rest);
    assert(s.take(4)[0] == 's');
    assert(e.take(4)[0] == 'e' && e.take(8)[0] == 'e');
    assert(d.take(4)[0] == 'd' && d.take(8)[0] == 'd' && d.take(11)[0] == 'd');
}

/// A line that assigns a list of bytes to one of the two keys for data is read: the bytes become the
/// value of that key, and nothing else changes.
pub proof fn written_lists_are_read(
    s: Settings,
    raw: Seq<char>,
    gap: Seq<char>,
    elements: Seq<Seq<char>>,
    bytes: Seq<u8>,
)
    requires
        crate::text::blank(gap),
        elements.len() == bytes.len(),
        forall|i: int| 0 <= i < elements.len() ==> writes(#[trigger] elements[i], bytes[i] as nat),
    ensures
        trim(raw) == "enable_data"@ + (gap + list_text(elements)) ==> read_line(s, raw) == Ok::<
            Settings,
            Seq<char>,
        >(Settings { enable_data: Some(bytes), ..s }),
        trim(raw) == "disable_data"@ + (gap + list_text(elements)) ==> read_line(s, raw) == Ok::<
            Settings,
            Seq<char>,
        >(Settings { disable_data: Some(bytes), ..s }),
{
    let rest = gap + list_text(elements);
    written_bytes_are_read(elements, bytes);
    lemma_front_space(gap, list_text(elements));
    lemma_keys(rest);
    assert(byte_array_value(rest) == byte_array_value(list_text(elements)));
}

/// The first line that cannot be read is the one that is reported, whatever follows it.
pub proof fn first_bad_line_is_reported(ls: Seq<Seq<char>>, i: int)
    requires
        0 <= i < ls.len(),
        read_lines(ls.take(i)) is Ok,
        read_line(read_lines(ls.take(i))->Ok_0, ls[i]) is Err,
    ensures
        read_lines(ls) == Err::<Settings, Seq<char>>(trim(ls[i])),
{
    let now = ls.take(i + 1);
    assert(now.drop_last() =~= ls.take(i));
    assert(now.last() == ls[i]);
    lemma_error_stays(ls, i + 1);
}

/// A line changes one setting at most, and a later line about the same key replaces what an earlier one
/// said.
pub proof fn later_lines_replace_earlier_ones(s: Settings, t: Settings, raw: Seq<char>)
    requires
        read_line(s, raw) is Ok,
    ensures
        ({
            let r = read_line(s, raw)->Ok_0;
            let same = (if r.unit == s.unit {
                1int
            } else {
                0
            }) + (if r.selector == s.selector {
                1int
            } else {
                0
            }) + (if r.enable_data == s.enable_data {
                1int
            } else {
                0
            }) + (if r.disable_data == s.disable_data {
                1int
            } else {
                0
            });
            &&& same >= 3
            &&& read_line(r, raw) == Ok::<Settings, Seq<char>>(r)
            &&& read_line(t, raw) is Ok
        }),
{
}

/// Where the file does not say how, the emitter is switched on by a single one.
pub proof fn usual_byte_is_one(s: Settings)
    ensures
        s.enable_data is None ==> switch_on(s) == seq![1u8],
        s.enable_data is Some ==> switch_on(s) == s.enable_data->0,
{
}

/// An empty place in a list, as a comma too many leaves it, is passed over wherever it is.
pub proof fn empty_places_are_passed_over(a: Seq<Seq<char>>, empty: Seq<char>, b: Seq<Seq<char>>)
    requires
        trim(empty).len() == 0,
    ensures
        bytes_of(a + seq![empty] + b) == bytes_of(a + b),
    decreases b.len(),
{
    let all = a + seq![empty] + b;
    if b.len() == 0 {
        assert(all.drop_last() =~= a);
        assert(a + b =~= a);
    } else {
        empty_places_are_passed_over(a, empty, b.drop_last());
        assert(all.drop_last() =~= a + seq![empty] + b.drop_last());
        assert((a + b).drop_last() =~= a + b.drop_last());
        assert(all.last() == b.last() && (a + b).last() == b.last());
    }
}

/// A line that begins with a key and has no value that can be read behind it is an error, and a line
/// that begins with none of the keys says nothing.
pub proof fn keys_need_values(s: Settings, raw: Seq<char>, rest: Seq<char>)
    ensures
        trim(raw) == "unit"@ + rest && byte_value(rest) is None ==> read_line(s, raw) == Err::<
            Settings,
            Seq<char>,
        >(trim(raw)),
        trim(raw) == "selector"@ + rest && byte_value(rest) is None ==> read_line(s, raw) == Err::<
            Settings,
            Seq<char>,
        >(trim(raw)),
        trim(raw) == "enable_data"@ + rest && byte_array_value(rest) is None ==> read_line(s, raw)
            == Err::<Settings, Seq<char>>(trim(raw)),
        trim(raw) == "disable_data"@ + rest && byte_array_value(rest) is None ==> read_line(s, raw)
            == Err::<Settings, Seq<char>>(trim(raw)),
        !starts_with(trim(raw), "unit"@) && !starts_with(trim(raw), "selector"@) && !starts_with(
            trim(raw),
            "enable_data"@,
        ) && !starts_with(trim(raw), "disable_data"@) ==> read_line(s, raw) == Ok::<
            Settings,
            Seq<char>,
        >(s),
{
    lemma_keys(rest);
    reveal_strlit("unit");
    reveal_strlit("selector");
    reveal_strlit("enable_data");
    reveal_strlit("disable_data");
    let line = trim(raw);
    if line == "unit"@ + rest {
        assert(line.len() > 0 && line.skip(4) == rest);
    } else if line == "selector"@ + rest {
        assert(line.len() > 0 && line.skip(8) == rest);
    } else if line == "enable_data"@ + rest {
        assert(line.len() > 0 && line.skip(11) == rest);
    } else if line == "disable_data"@ + rest {
        assert(line.len() > 0 && line.skip(12) == rest);
    }
}

} // verus!
