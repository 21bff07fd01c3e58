//! The enrolled faces of a user: their file, and where it is.
//!
//! The file holds a version and the embeddings. An embedding is 512 single-precision numbers,
//! given by their bit patterns.
use crate::text::{
    chars_of, decimal, decimal_of, lines, lines_of, parse_unsigned, split, split_at, string_of, texts,
    unsigned_value,
};
use crate::wire::{le_bytes, lemma_le_len, lemma_le_ranges, lemma_le_value};
use vstd::prelude::*;

verus! {

/// Why an enrollment could not be loaded or saved.
#[derive(Debug)]
pub enum EnrollmentError {
    Io(String),
    Deserialize(String),
    Serialize(String),
    NotFound(String),
    MaxEmbeddings(u32),
}

impl EnrollmentError {
    /// The error in words.
    pub fn message(&self) -> (r: String)
        ensures
            r@ == match self {
                EnrollmentError::Io(e) => "io error: "@ + e@,
                EnrollmentError::Deserialize(e) => "deserialize error: "@ + e@,
                EnrollmentError::Serialize(e) => "serialize error: "@ + e@,
                EnrollmentError::NotFound(u) => "no enrollment found for user: "@ + u@,
                EnrollmentError::MaxEmbeddings(n) => "max embeddings ("@ + decimal(*n as nat)
                    + ") reached"@,
            },
    {
        match self {
            EnrollmentError::Io(e) => {
                let mut r: String = "io error: ".to_owned();
                r.append(e.as_str());
                r
            },
            EnrollmentError::Deserialize(e) => {
                let mut r: String = "deserialize error: ".to_owned();
                r.append(e.as_str());
                r
            },
            EnrollmentError::Serialize(e) => {
                let mut r: String = "serialize error: ".to_owned();
                r.append(e.as_str());
                r
            },
            EnrollmentError::NotFound(u) => {
                let mut r: String = "no enrollment found for user: ".to_owned();
                r.append(u.as_str());
                r
            },
            EnrollmentError::MaxEmbeddings(n) => {
                let mut r: String = "max embeddings (".to_owned();
                let digits = decimal_of(*n as u64);
                r.append(digits.as_str());
                r.append(") reached");
                r
            },
        }
    }
}

/// The version of the embeddings that this library makes. It grows whenever the preparation of
/// the pictures changes, so that embeddings made before can be told.
pub const ENROLLMENT_VERSION: u32 = 2;

/// The version of a file that carries none.
pub fn default_version() -> (r: u32)
    ensures
        r == 1,
        r < ENROLLMENT_VERSION,
{
    1
}

/// Whether embeddings of this version were made in an older way.
pub fn is_stale(version: u32) -> (r: bool)
    ensures
        r == (version < ENROLLMENT_VERSION),
{
    version < ENROLLMENT_VERSION
}

/// What the file holds. An embedding stands in it with its own length.
#[derive(Debug)]
pub struct EnrollmentData {
    pub version: u32,
    pub embeddings: Vec<Vec<u32>>,
}

/// The numbers of each row.
pub open spec fn rows_of(rows: Seq<Vec<u32>>) -> Seq<Seq<u32>> {
    Seq::new(rows.len(), |i: int| rows[i]@)
}

/// The numbers of each array.
pub open spec fn arrays_of(arrays: Seq<[u32; 512]>) -> Seq<Seq<u32>> {
    Seq::new(arrays.len(), |i: int| arrays[i]@)
}

/// Numbers of four bytes each, one behind the other.
pub open spec fn words(row: Seq<u32>) -> Seq<u8>
    decreases row.len(),
{
    if row.len() == 0 {
        Seq::empty()
    } else {
        le_bytes(row[0] as nat, 4) + words(row.drop_first())
    }
}

/// Rows of numbers, each behind its length in eight bytes.
pub open spec fn rows_bytes(rows: Seq<Seq<u32>>) -> Seq<u8>
    decreases rows.len(),
{
    if rows.len() == 0 {
        Seq::empty()
    } else {
        le_bytes(rows[0].len(), 8) + words(rows[0]) + rows_bytes(rows.drop_first())
    }
}

/// The file: the version in four bytes, the number of rows in eight, and the rows.
pub open spec fn file_bytes(version: u32, rows: Seq<Seq<u32>>) -> Seq<u8> {
    le_bytes(version as nat, 4) + le_bytes(rows.len(), 8) + rows_bytes(rows)
}

/// A file as it was written before it carried a version: the number of rows in eight bytes, and the
/// rows.
pub open spec fn old_file_bytes(rows: Seq<Seq<u32>>) -> Seq<u8> {
    le_bytes(rows.len(), 8) + rows_bytes(rows)
}

/// Whether `b` begins with `p`.
pub open spec fn begins(b: Seq<u8>, p: Seq<u8>) -> bool {
    p.len() <= b.len() && b.take(p.len() as int) == p
}

/// `bincode::serialize` of a number and rows of numbers: the number, the count of rows, and each
/// row behind its length, all of fixed width and least significant byte first. It never fails.
#[verifier::external_body]
fn serialize_rows(version: u32, rows: &Vec<Vec<u32>>) -> (r: Result<Vec<u8>, bincode::Error>)
    ensures
        r is Ok,
        r->Ok_0@ == file_bytes(version, rows_of(rows@)),
{
    bincode::serialize(&(version, rows))
}

/// `bincode::deserialize` to a number and rows of numbers: it reads them from the front of the
/// bytes, where they stand as `serialize` writes them, and allows more bytes behind. It fails
/// where the bytes do not begin with any such file.
#[verifier::external_body]
fn deserialize_rows(b: &Vec<u8>) -> (r: Result<(u32, Vec<Vec<u32>>), bincode::Error>)
    ensures
        match r {
            Ok((version, rows)) => begins(b@, file_bytes(version, rows_of(rows@))),
            Err(_) => forall|v: u32, rows: Seq<Seq<u32>>|
                !begins(b@, #[trigger] file_bytes(v, rows)),
        },
{
    bincode::deserialize(b)
}

/// `bincode::deserialize` to rows of numbers alone: it reads them from the front of the bytes, where
/// they stand as `serialize` writes them, and allows more bytes behind. It fails where the bytes do
/// not begin with any such rows.
#[verifier::external_body]
fn deserialize_bare_rows(b: &Vec<u8>) -> (r: Result<Vec<Vec<u32>>, bincode::Error>)
    ensures
        match r {
            Ok(rows) => begins(b@, old_file_bytes(rows_of(rows@))),
            Err(_) => forall|rows: Seq<Seq<u32>>| !begins(b@, #[trigger] old_file_bytes(rows)),
        },
{
    bincode::deserialize(b)
}

/// The text of a `bincode` error, by its `to_string`. What the text says is left open: of a length
/// that is too large the crate speaks in terms of the machine's word size.
#[verifier::external_body]
fn error_text(e: bincode::Error) -> (r: String) {
    e.to_string()
}

/// Equal bytes begin with equal numbers.
proof fn lemma_first_number(a: nat, x: Seq<u8>, b: nat, y: Seq<u8>, width: nat)
    requires
        a < crate::wire::le_range(width),
        b < crate::wire::le_range(width),
        le_bytes(a, width) + x == le_bytes(b, width) + y,
    ensures
        a == b,
        x == y,
{
    lemma_le_len(a, width);
    lemma_le_len(b, width);
    lemma_le_value(a, width);
    lemma_le_value(b, width);
    let s = le_bytes(a, width) + x;
    let t = le_bytes(b, width) + y;
    assert(s.take(width as int) == le_bytes(a, width));
    assert(t.take(width as int) == le_bytes(b, width));
    assert(s.skip(width as int) == x);
    assert(t.skip(width as int) == y);
}

proof fn lemma_words_unique(a: Seq<u32>, x: Seq<u8>, b: Seq<u32>, y: Seq<u8>)
    requires
        a.len() == b.len(),
        words(a) + x == words(b) + y,
    ensures
        a == b,
        x == y,
    decreases a.len(),
{
    lemma_le_ranges();
    if a.len() > 0 {
        let p = words(a.drop_first()) + x;
        let q = words(b.drop_first()) + y;
        assert(words(a) + x == le_bytes(a[0] as nat, 4) + p);
        assert(words(b) + y == le_bytes(b[0] as nat, 4) + q);
        lemma_first_number(a[0] as nat, p, b[0] as nat, q, 4);
        lemma_words_unique(a.drop_first(), x, b.drop_first(), y);
        assert(a =~= seq![a[0]] + a.drop_first());
        assert(b =~= seq![b[0]] + b.drop_first());
    } else {
        assert(words(a) + x =~= x);
        assert(words(b) + y =~= y);
        assert(a =~= b);
    }
}

/// Whether every row is short enough for its length to be written.
pub open spec fn writable(rows: Seq<Seq<u32>>) -> bool {
    &&& rows.len() <= u64::MAX
    &&& forall|i: int| 0 <= i < rows.len() ==> (#[trigger] rows[i]).len() <= u64::MAX
}

proof fn lemma_rows_unique(a: Seq<Seq<u32>>, x: Seq<u8>, b: Seq<Seq<u32>>, y: Seq<u8>)
    requires
        a.len() == b.len(),
        writable(a),
        writable(b),
        rows_bytes(a) + x == rows_bytes(b) + y,
    ensures
        a == b,
        x == y,
    decreases a.len(),
{
    lemma_le_ranges();
    if a.len() > 0 {
        let ra = a.drop_first();
        let rb = b.drop_first();
        let p2 = rows_bytes(ra) + x;
        let q2 = rows_bytes(rb) + y;
        let p1 = words(a[0]) + p2;
        let q1 = words(b[0]) + q2;
        assert(rows_bytes(a) + x == le_bytes(a[0].len(), 8) + p1);
        assert(rows_bytes(b) + y == le_bytes(b[0].len(), 8) + q1);
        lemma_first_number(a[0].len(), p1, b[0].len(), q1, 8);
        lemma_words_unique(a[0], p2, b[0], q2);
        assert forall|i: int| 0 <= i < ra.len() implies (#[trigger] ra[i]).len() <= u64::MAX by {
            assert(ra[i] == a[i + 1]);
        }
        assert forall|i: int| 0 <= i < rb.len() implies (#[trigger] rb[i]).len() <= u64::MAX by {
            assert(rb[i] == b[i + 1]);
        }
        lemma_rows_unique(ra, x, rb, y);
        assert(a =~= seq![a[0]] + ra);
        assert(b =~= seq![b[0]] + rb);
    } else {
        assert(rows_bytes(a) + x =~= x);
        assert(rows_bytes(b) + y =~= y);
        assert(a =~= b);
    }
}

/// Bytes begin with one file at most that carries a version.
proof fn lemma_file_unique(b: Seq<u8>, v: u32, rows: Seq<Seq<u32>>, w: u32, other: Seq<Seq<u32>>)
    requires
        holds(b, v, rows),
        holds(b, w, other),
    ensures
        v == w,
        rows == other,
{
    lemma_le_ranges();
    let x = b.skip(file_bytes(v, rows).len() as int);
    let y = b.skip(file_bytes(w, other).len() as int);
    let p2 = rows_bytes(rows) + x;
    let q2 = rows_bytes(other) + y;
    let p1 = le_bytes(rows.len(), 8) + p2;
    let q1 = le_bytes(other.len(), 8) + q2;
    assert(b == file_bytes(v, rows) + x);
    assert(b == file_bytes(w, other) + y);
    assert(b == le_bytes(v as nat, 4) + p1);
    assert(b == le_bytes(w as nat, 4) + q1);
    lemma_first_number(v as nat, p1, w as nat, q1, 4);
    lemma_first_number(rows.len(), p2, other.len(), q2, 8);
    lemma_rows_unique(rows, x, other, y);
}

/// Bytes begin with one file at most that carries none.
proof fn lemma_old_file_unique(b: Seq<u8>, rows: Seq<Seq<u32>>, other: Seq<Seq<u32>>)
    requires
        writable(rows),
        writable(other),
        old_file(b, rows),
        old_file(b, other),
    ensures
        rows == other,
{
    lemma_le_ranges();
    let x = b.skip(old_file_bytes(rows).len() as int);
    let y = b.skip(old_file_bytes(other).len() as int);
    let p = rows_bytes(rows) + x;
    let q = rows_bytes(other) + y;
    assert(b == old_file_bytes(rows) + x);
    assert(b == old_file_bytes(other) + y);
    assert(b == le_bytes(rows.len(), 8) + p);
    assert(b == le_bytes(other.len(), 8) + q);
    lemma_first_number(rows.len(), p, other.len(), q, 8);
    lemma_rows_unique(rows, x, other, y);
}

/// A file holds one thing at most: the same version and the same embeddings whenever it is read.
pub proof fn file_is_unique(b: Seq<u8>, v: u32, rows: Seq<Seq<u32>>, w: u32, other: Seq<Seq<u32>>)
    requires
        stored(b, v, rows),
        stored(b, w, other),
    ensures
        v == w,
        rows == other,
{
    if holds(b, v, rows) {
        assert(has_version(b, v));
    }
    if holds(b, w, other) {
        assert(has_version(b, w));
    }
    if holds(b, v, rows) {
        lemma_file_unique(b, v, rows, w, other);
    } else {
        lemma_old_file_unique(b, rows, other);
    }
}

/// Whether the bytes begin with a file that carries a version: `v`, and `rows`.
pub open spec fn holds(b: Seq<u8>, v: u32, rows: Seq<Seq<u32>>) -> bool {
    writable(rows) && begins(b, file_bytes(v, rows))
}

/// Whether the bytes begin with a file that carries the version `v`.
pub open spec fn has_version(b: Seq<u8>, v: u32) -> bool {
    exists|rows: Seq<Seq<u32>>| #[trigger] holds(b, v, rows)
}

/// Whether the bytes begin with a file that carries no version, and `rows`.
pub open spec fn old_file(b: Seq<u8>, rows: Seq<Seq<u32>>) -> bool {
    begins(b, old_file_bytes(rows))
}

/// What a file holds. One that carries a version holds what it says. One that cannot be read so
/// holds its rows under the version of files that carry none.
pub open spec fn stored(b: Seq<u8>, v: u32, rows: Seq<Seq<u32>>) -> bool {
    ||| holds(b, v, rows)
    ||| {
        &&& forall|w: u32| !#[trigger] has_version(b, w)
        &&& v == 1
        &&& writable(rows)
        &&& old_file(b, rows)
    }
}

/// Whether a file of the version `v` is there.
pub open spec fn stored_version(b: Seq<u8>, v: u32) -> bool {
    exists|rows: Seq<Seq<u32>>| #[trigger] stored(b, v, rows)
}

impl EnrollmentData {
    /// What a file of the given embeddings holds now.
    pub fn from_arrays(arrays: &Vec<[u32; 512]>) -> (r: EnrollmentData)
        ensures
            r.version == ENROLLMENT_VERSION,
            rows_of(r.embeddings@) == arrays_of(arrays@),
    {
        let mut embeddings: Vec<Vec<u32>> = Vec::new();
        let mut i: usize = 0;
        while i < arrays.len()
            invariant
                i <= arrays.len(),
                embeddings@.len() == i,
                forall|k: int| 0 <= k < i ==> (#[trigger] embeddings@[k])@ == arrays@[k]@,
            decreases arrays.len() - i,
        {
            let a = &arrays[i];
            let mut row: Vec<u32> = Vec::new();
            let mut j: usize = 0;
            while j < 512
                invariant
                    j <= 512,
                    row@ == a@.take(j as int),
                decreases 512 - j,
            {
                row.push(a[j]);
                assert(a@.take(j + 1) == a@.take(j as int).push(a@[j as int]));
                j += 1;
            }
            assert(row@ == a@);
            embeddings.push(row);
            i += 1;
        }
        assert(rows_of(embeddings@) =~= arrays_of(arrays@));
        EnrollmentData { version: ENROLLMENT_VERSION, embeddings }
    }

    /// Whether every embedding has the right length.
    pub open spec fn regular(rows: Seq<Seq<u32>>) -> bool {
        forall|i: int| 0 <= i < rows.len() ==> (#[trigger] rows[i]).len() == 512
    }

    /// What is said of a row of another length.
    pub open spec fn wrong_length(n: nat) -> Seq<char> {
        "expected 512-dim embedding, got "@ + decimal(n)
    }

    /// The embeddings, where all have the right length. Otherwise the error speaks of the first
    /// that has not.
    pub fn to_arrays(&self) -> (r: Result<Vec<[u32; 512]>, EnrollmentError>)
        ensures
            ({
                let rows = rows_of(self.embeddings@);
                match r {
                    Ok(a) => Self::regular(rows) && arrays_of(a@) == rows,
                    Err(e) => exists|i: int|
                        {
                            &&& 0 <= i < rows.len()
                            &&& (#[trigger] rows[i]).len() != 512
                            &&& forall|k: int| 0 <= k < i ==> (#[trigger] rows[k]).len() == 512
                            &&& e matches EnrollmentError::Deserialize(t)
                            &&& t@ == Self::wrong_length(rows[i].len())
                        },
                }
            }),
    {
        let ghost rows = rows_of(self.embeddings@);
        let mut out: Vec<[u32; 512]> = Vec::new();
        let mut i: usize = 0;
        while i < self.embeddings.len()
            invariant
                i <= self.embeddings@.len(),
                rows == rows_of(self.embeddings@),
                out@.len() == i,
                forall|k: int| 0 <= k < i ==> (#[trigger] rows[k]).len() == 512,
                forall|k: int| 0 <= k < i ==> (#[trigger] out@[k])@ == rows[k],
            decreases self.embeddings.len() - i,
        {
            let row = &self.embeddings[i];
            assert(rows[i as int] == row@);
            if row.len() != 512 {
                let mut t: String = "expected 512-dim embedding, got ".to_owned();
                let digits = decimal_of(row.len() as u64);
                t.append(digits.as_str());
                return Err(EnrollmentError::Deserialize(t));
            }
            let mut a: [u32; 512] = [0;512];
            let mut j: usize = 0;
            while j < 512
                invariant
                    j <= 512,
                    row@.len() == 512,
                    forall|k: int| 0 <= k < j ==> #[trigger] a@[k] == row@[k],
                decreases 512 - j,
            {
                a[j] = row[j];
                j += 1;
            }
            assert(a@ =~= row@);
            out.push(a);
            i += 1;
        }
        assert(arrays_of(out@) =~= rows);
        Ok(out)
    }

    /// The file with this content.
    pub fn encode(&self) -> (r: Result<Vec<u8>, EnrollmentError>)
        ensures
            r matches Ok(b) && b@ == file_bytes(self.version, rows_of(self.embeddings@)),
    {
        match serialize_rows(self.version, &self.embeddings) {
            Ok(b) => Ok(b),
            Err(e) => Err(EnrollmentError::Serialize(error_text(e))),
        }
    }

    /// The content of a file, with or without a version.
    pub fn decode(bytes: &Vec<u8>) -> (r: Result<EnrollmentData, EnrollmentError>)
        ensures
            match r {
                Ok(d) => stored(bytes@, d.version, rows_of(d.embeddings@)),
                Err(e) => {
                    &&& e is Deserialize
                    &&& forall|v: u32, rows: Seq<Seq<u32>>| !#[trigger] stored(bytes@, v, rows)
                },
            },
    {
        match deserialize_rows(bytes) {
            Ok((version, embeddings)) => {
                proof {
                    lemma_rows_writable(&embeddings);
                    assert(holds(bytes@, version, rows_of(embeddings@)));
                }
                Ok(EnrollmentData { version, embeddings })
            },
            Err(e) => {
                assert forall|v: u32| !#[trigger] has_version(bytes@, v) by {
                    if has_version(bytes@, v) {
                        let rows = choose|rows: Seq<Seq<u32>>| #[trigger] holds(bytes@, v, rows);
                        assert(begins(bytes@, file_bytes(v, rows)));
                    }
                }
                match deserialize_bare_rows(bytes) {
                    Ok(embeddings) => {
                        proof {
                            lemma_rows_writable(&embeddings);
                        }
                        Ok(EnrollmentData { version: default_version(), embeddings })
                    },
                    Err(_) => {
                        assert forall|v: u32, rows: Seq<Seq<u32>>|
                            !#[trigger] stored(bytes@, v, rows) by {
                            if stored(bytes@, v, rows) {
                                if holds(bytes@, v, rows) {
                                    assert(has_version(bytes@, v));
                                }
                                assert(begins(bytes@, old_file_bytes(rows)));
                            }
                        }
                        Err(EnrollmentError::Deserialize(error_text(e)))
                    },
                }
            },
        }
    }
}

/// Rows in memory are short enough to be written.
proof fn lemma_rows_writable(rows: &Vec<Vec<u32>>)
    ensures
        writable(rows_of(rows@)),
{
    assert forall|i: int| 0 <= i < rows@.len() implies rows_of(rows@)[i].len() <= u64::MAX by {
        assert(rows@[i]@.len() == rows@[i].len());
    }
    assert(rows@.len() == rows.len());
}

/// The embeddings of a user, from their file: `None` where there is no file, an error text where
/// it could not be read.
pub fn load_embeddings(username: &str, file: &Option<Result<Vec<u8>, String>>) -> (r: Result<
    Vec<[u32; 512]>,
    EnrollmentError,
>)
    ensures
        match (file, r) {
            (None, Err(EnrollmentError::NotFound(u))) => u@ == username@,
            (Some(Err(e)), Err(EnrollmentError::Io(t))) => t@ == e@,
            (Some(Ok(b)), Ok(a)) => exists|v: u32| #[trigger] stored(b@, v, arrays_of(a@)),
            (Some(Ok(b)), Err(e)) => e is Deserialize && forall|v: u32, rows: Seq<Seq<u32>>|
                EnrollmentData::regular(rows) ==> !#[trigger] stored(b@, v, rows),
            _ => false,
        },
{
    match file {
        None => Err(EnrollmentError::NotFound(username.to_owned())),
        Some(Err(e)) => Err(EnrollmentError::Io(e.clone())),
        Some(Ok(b)) => match EnrollmentData::decode(b) {
            Ok(d) => {
                let r = d.to_arrays();
                proof {
                    let found = rows_of(d.embeddings@);
                    assert(stored(b@, d.version, found));
                    if r is Err {
                        assert forall|v: u32, rows: Seq<Seq<u32>>|
                            EnrollmentData::regular(rows) implies !#[trigger] stored(
                            b@,
                            v,
                            rows,
                        ) by {
                            if stored(b@, v, rows) {
                                file_is_unique(b@, v, rows, d.version, found);
                            }
                        }
                    }
                }
                r
            },
            Err(e) => Err(e),
        },
    }
}

/// The version of a user's file: `None` where there is no file, or none that can be read. A file
/// that carries no version has the first.
pub fn enrollment_version(file: &Option<Result<Vec<u8>, String>>) -> (r: Option<u32>)
    ensures
        match file {
            Some(Ok(b)) => match r {
                Some(v) => stored_version(b@, v),
                None => forall|v: u32| !#[trigger] stored_version(b@, v),
            },
            _ => r is None,
        },
{
    match file {
        Some(Ok(b)) => match EnrollmentData::decode(b) {
            Ok(d) => {
                assert(stored(b@, d.version, rows_of(d.embeddings@)));
                assert(stored_version(b@, d.version));
                Some(d.version)
            },
            Err(_) => {
                assert forall|v: u32| !#[trigger] stored_version(b@, v) by {
                    if stored_version(b@, v) {
                        let rows = choose|rows: Seq<Seq<u32>>| #[trigger] stored(b@, v, rows);
                        assert(stored(b@, v, rows));
                    }
                }
                None
            },
        },
        _ => None,
    }
}

/// The file to save for a user, unless the embeddings are too many.
pub fn save_embeddings(embeddings: &Vec<[u32; 512]>, max_enrollment: u32) -> (r: Result<
    Vec<u8>,
    EnrollmentError,
>)
    ensures
        match r {
            Ok(b) => embeddings@.len() <= max_enrollment && b@ == file_bytes(
                ENROLLMENT_VERSION,
                arrays_of(embeddings@),
            ),
            Err(e) => embeddings@.len() > max_enrollment && (e matches EnrollmentError::MaxEmbeddings(
                n,
            ) && n == max_enrollment),
        },
{
    if embeddings.len() as u64 > max_enrollment as u64 {
        return Err(EnrollmentError::MaxEmbeddings(max_enrollment));
    }
    let data = EnrollmentData::from_arrays(embeddings);
    data.encode()
}

/// How many embeddings may still be enrolled where so many are there.
pub fn room(max_enrollment: u32, there: usize) -> (r: u32)
    ensures
        r == if there <= max_enrollment {
            max_enrollment - there
        } else {
            0
        },
{
    if there as u64 <= max_enrollment as u64 {
        max_enrollment - there as u32
    } else {
        0
    }
}

/// The file to save for a user who adds embeddings to those of the file that is there, unless they
/// become too many. It keeps the old file's version, so that old embeddings can still be told.
pub fn append_embeddings(
    username: &str,
    file: &Option<Result<Vec<u8>, String>>,
    added: &Vec<[u32; 512]>,
    max_enrollment: u32,
) -> (r: Result<Vec<u8>, EnrollmentError>)
    ensures
        match (file, r) {
            (None, Ok(b)) => added@.len() <= max_enrollment && b@ == file_bytes(
                ENROLLMENT_VERSION,
                arrays_of(added@),
            ),
            (None, Err(EnrollmentError::MaxEmbeddings(n))) => n == max_enrollment && added@.len()
                > max_enrollment,
            (Some(Err(e)), Err(EnrollmentError::Io(t))) => t@ == e@,
            (Some(Ok(f)), Ok(b)) => exists|v: u32, rows: Seq<Seq<u32>>|
                #[trigger] stored(f@, v, rows) && EnrollmentData::regular(rows) && rows.len()
                    + added@.len() <= max_enrollment && b@ == file_bytes(
                    v,
                    rows + arrays_of(added@),
                ),
            (Some(Ok(f)), Err(EnrollmentError::MaxEmbeddings(n))) => n == max_enrollment && exists|
                v: u32,
                rows: Seq<Seq<u32>>,
            | #[trigger] stored(f@, v, rows) && EnrollmentData::regular(rows) && rows.len()
                + added@.len() > max_enrollment,
            (Some(Ok(f)), Err(e)) => e is Deserialize && forall|v: u32, rows: Seq<Seq<u32>>|
                EnrollmentData::regular(rows) ==> !#[trigger] stored(f@, v, rows),
            _ => false,
        },
{
    let version: u32 = match enrollment_version(file) {
        Some(v) => v,
        None => ENROLLMENT_VERSION,
    };
    let mut all: Vec<[u32; 512]> = match load_embeddings(username, file) {
        Ok(old) => old,
        Err(EnrollmentError::NotFound(_)) => Vec::new(),
        Err(e) => {
            return Err(e);
        },
    };
    let ghost old = all@;
    proof {
        if let Some(Ok(f)) = file {
            let v = choose|v: u32| #[trigger] stored(f@, v, arrays_of(old));
            assert(stored_version(f@, v));
            let rows = choose|rows: Seq<Seq<u32>>| #[trigger] stored(f@, version, rows);
            file_is_unique(f@, v, arrays_of(old), version, rows);
            lemma_arrays_regular(old);
        }
    }
    if all.len() as u128 + added.len() as u128 > max_enrollment as u128 {
        return Err(EnrollmentError::MaxEmbeddings(max_enrollment));
    }
    let mut i: usize = 0;
    while i < added.len()
        invariant
            i <= added@.len(),
            all@ == old + added@.take(i as int),
        decreases added.len() - i,
    {
        all.push(added[i]);
        assert(added@.take(i + 1) == added@.take(i as int).push(added@[i as int]));
        i += 1;
    }
    assert(added@.take(added@.len() as int) == added@);
    assert(arrays_of(all@) =~= arrays_of(old) + arrays_of(added@));
    let mut data = EnrollmentData::from_arrays(&all);
    data.version = version;
    proof {
        if file is None {
            assert(arrays_of(all@) =~= arrays_of(added@));
        }
    }
    data.encode()
}

proof fn lemma_arrays_regular(arrays: Seq<[u32; 512]>)
    ensures
        EnrollmentData::regular(arrays_of(arrays)),
{
    assert forall|i: int| 0 <= i < arrays.len() implies (#[trigger] arrays_of(arrays)[i]).len()
        == 512 by {
        assert(arrays[i]@.len() == 512);
    }
}

/// Adding embeddings loses none: a file that was added to holds the old ones, then the new.
pub proof fn appending_keeps_the_old(version: u32, old: Seq<[u32; 512]>, added: Seq<[u32; 512]>)
    requires
        old.len() + added.len() <= u32::MAX,
    ensures
        stored(
            file_bytes(version, arrays_of(old) + arrays_of(added)),
            version,
            arrays_of(old + added),
        ),
{
    lemma_arrays_regular(old + added);
    let file = file_bytes(version, arrays_of(old + added));
    assert(arrays_of(old + added) =~= arrays_of(old) + arrays_of(added));
    assert(file.take(file.len() as int) == file);
    assert(holds(file, version, arrays_of(old + added)));
}

/// Loading gives back what was saved: of a saved file nothing else can be read, neither other
/// embeddings nor another version.
pub proof fn saved_embeddings_are_loaded(saved: Seq<[u32; 512]>, v: u32, rows: Seq<Seq<u32>>)
    requires
        saved.len() <= u32::MAX,
    ensures
        ({
            let file = file_bytes(ENROLLMENT_VERSION, arrays_of(saved));
            &&& stored(file, ENROLLMENT_VERSION, arrays_of(saved))
            &&& EnrollmentData::regular(arrays_of(saved))
            &&& stored(file, v, rows) ==> v == ENROLLMENT_VERSION && rows == arrays_of(saved)
        }),
{
    let file = file_bytes(ENROLLMENT_VERSION, arrays_of(saved));
    assert(file.take(file.len() as int) == file);
    lemma_arrays_regular(saved);
    assert(holds(file, ENROLLMENT_VERSION, arrays_of(saved)));
    if stored(file, v, rows) {
        file_is_unique(file, v, rows, ENROLLMENT_VERSION, arrays_of(saved));
    }
}

proof fn lemma_words_len(row: Seq<u32>)
    ensures
        words(row).len() == 4 * row.len(),
    decreases row.len(),
{
    if row.len() > 0 {
        lemma_le_len(row[0] as nat, 4);
        lemma_words_len(row.drop_first());
    }
}

/// Every row takes the bytes of its length, and a regular one those of its numbers too.
proof fn lemma_rows_len(rows: Seq<Seq<u32>>)
    ensures
        rows_bytes(rows).len() >= 8 * rows.len(),
        EnrollmentData::regular(rows) ==> rows_bytes(rows).len() == 2056 * rows.len(),
    decreases rows.len(),
{
    if rows.len() > 0 {
        let rest = rows.drop_first();
        lemma_le_len(rows[0].len(), 8);
        lemma_words_len(rows[0]);
        lemma_rows_len(rest);
        if EnrollmentData::regular(rows) {
            assert(rows[0].len() == 512);
            assert forall|i: int| 0 <= i < rest.len() implies (#[trigger] rest[i]).len() == 512 by {
                assert(rest[i] == rows[i + 1]);
            }
        }
    }
}

/// A file that was written before files carried a version is read: it holds the embeddings that
/// were saved, under the first version, and nothing else.
pub proof fn old_files_are_read(saved: Seq<[u32; 512]>, v: u32, rows: Seq<Seq<u32>>)
    requires
        saved.len() <= u32::MAX,
    ensures
        ({
            let file = old_file_bytes(arrays_of(saved));
            &&& stored(file, 1, arrays_of(saved))
            &&& EnrollmentData::regular(arrays_of(saved))
            &&& stored(file, v, rows) ==> v == 1 && rows == arrays_of(saved)
        }),
{
    let all = arrays_of(saved);
    let file = old_file_bytes(all);
    assert(file.take(file.len() as int) == file);
    lemma_arrays_regular(saved);
    assert forall|w: u32| !#[trigger] has_version(file, w) by {
        if has_version(file, w) {
            let other = choose|other: Seq<Seq<u32>>| #[trigger] holds(file, w, other);
            lemma_old_file_has_no_version(all, w, other);
        }
    }
    if stored(file, v, rows) {
        file_is_unique(file, v, rows, 1, all);
    }
}

/// Read as a file with a version, one without would claim more rows than it has bytes: the length
/// of its first row stands where their number would be.
proof fn lemma_old_file_has_no_version(rows: Seq<Seq<u32>>, v: u32, other: Seq<Seq<u32>>)
    requires
        rows.len() <= u32::MAX,
        EnrollmentData::regular(rows),
    ensures
        !holds(old_file_bytes(rows), v, other),
{
    let b = old_file_bytes(rows);
    let n = rows.len();
    lemma_rows_len(rows);
    lemma_rows_len(other);
    lemma_le_len(n, 8);
    lemma_le_len(v as nat, 4);
    lemma_le_len(other.len(), 8);
    lemma_le_ranges();
    if n > 0 && holds(b, v, other) {
        let claimed = 0x200_0000_0000nat;
        let tail = words(rows[0]) + rows_bytes(rows.drop_first());
        assert(rows[0].len() == 512);
        assert(le_bytes(n, 8) =~= le_bytes(n, 4) + le_bytes(0, 4)) by {
            reveal_with_fuel(le_bytes, 9);
        }
        assert(le_bytes(512, 8) =~= le_bytes(512, 4) + le_bytes(0, 4)) by {
            reveal_with_fuel(le_bytes, 9);
        }
        assert(le_bytes(claimed, 8) =~= le_bytes(0, 4) + le_bytes(512, 4)) by {
            reveal_with_fuel(le_bytes, 9);
        }
        let p2 = le_bytes(0, 4) + tail;
        let p1 = le_bytes(claimed, 8) + p2;
        assert(b =~= le_bytes(n, 4) + p1);
        let x = b.skip(file_bytes(v, other).len() as int);
        let q2 = rows_bytes(other) + x;
        let q1 = le_bytes(other.len(), 8) + q2;
        assert(b =~= file_bytes(v, other) + x);
        assert(b =~= le_bytes(v as nat, 4) + q1);
        lemma_first_number(n, p1, v as nat, q1, 4);
        lemma_first_number(claimed, p2, other.len(), q2, 8);
    }
}

// Where the file is.

/// The path `part`, taken from the directory `base`. An absolute path stays as it is.
pub open spec fn joined(base: Seq<char>, part: Seq<char>) -> Seq<char> {
    if base.len() == 0 || (part.len() > 0 && part[0] == '/') {
        part
    } else if base.last() == '/' {
        base + part
    } else {
        base.push('/') + part
    }
}

/// The path `part`, taken from the directory `base`.
pub fn join_path(base: &str, part: &str) -> (r: String)
    ensures
        r@ == joined(base@, part@),
{
    let b = chars_of(base);
    let p = chars_of(part);
    if b.len() == 0 || (p.len() > 0 && p[0] == '/') {
        return part.to_owned();
    }
    let mut r: String = base.to_owned();
    if b[b.len() - 1] != '/' {
        r.push('/');
    }
    r.append(part);
    r
}

/// The fields of the first line of the user list that has at least `least` fields, the first of
/// which is the name.
pub open spec fn entry(ls: Seq<Seq<char>>, name: Seq<char>, least: nat) -> Option<Seq<Seq<char>>>
    decreases ls.len(),
{
    if ls.len() == 0 {
        None
    } else {
        let fields = split(ls[0], ':');
        if fields.len() >= least && fields[0] == name {
            Some(fields)
        } else {
            entry(ls.drop_first(), name, least)
        }
    }
}

/// Finds a user's line in the user list.
fn find_entry(passwd: &str, name: &str, least: usize) -> (r: Option<Vec<Vec<char>>>)
    requires
        least >= 1,
    ensures
        match (r, entry(lines(passwd@), name@, least as nat)) {
            (Some(f), Some(g)) => texts(f@) == g && f@.len() >= least,
            (None, None) => true,
            _ => false,
        },
{
    let all = lines_of(&chars_of(passwd));
    let ghost ls = texts(all@);
    let mut i: usize = 0;
    assert(ls.skip(0) == ls);
    while i < all.len()
        invariant
            i <= all.len(),
            least >= 1,
            ls == texts(all@),
            ls == lines(passwd@),
            entry(ls.skip(i as int), name@, least as nat) == entry(ls, name@, least as nat),
        decreases all.len() - i,
    {
        let fields = split_at(&all[i], ':');
        proof {
            let rest = ls.skip(i as int);
            assert(rest[0] == all@[i as int]@);
            assert(rest.drop_first() == ls.skip(i + 1));
            assert(texts(fields@).len() == fields@.len());
            if fields@.len() > 0 {
                assert(texts(fields@)[0] == fields@[0]@);
            }
        }
        if fields.len() >= least {
            let first = string_of(&fields[0]);
            if crate::text::same(first.as_str(), name) {
                return Some(fields);
            }
        }
        i += 1;
    }
    assert(ls.skip(ls.len() as int) == Seq::<Seq<char>>::empty());
    None
}

/// The home directory of a user, by the user list.
pub open spec fn home_of(passwd: Seq<char>, name: Seq<char>) -> Option<Seq<char>> {
    match entry(lines(passwd), name, 6) {
        Some(f) => Some(f[5]),
        None => None,
    }
}

/// The home directory of a user, by the user list.
pub fn resolve_home(passwd: &str, username: &str) -> (r: Option<String>)
    ensures
        match (r, home_of(passwd@, username@)) {
            (Some(h), Some(g)) => h@ == g,
            (None, None) => true,
            _ => false,
        },
{
    match find_entry(passwd, username, 6) {
        Some(f) => {
            assert(texts(f@)[5] == f@[5]@);
            Some(string_of(&f[5]))
        },
        None => None,
    }
}

/// A 32-bit number in decimal.
pub open spec fn number(s: Seq<char>) -> Option<u32> {
    match unsigned_value(s, 10, u32::MAX as nat) {
        Some(v) => Some(v as u32),
        None => None,
    }
}

fn parse_number(s: &Vec<char>) -> (r: Option<u32>)
    ensures
        r == number(s@),
{
    match parse_unsigned(s, 10, u32::MAX as u64) {
        Some(v) => Some(v as u32),
        None => None,
    }
}

/// The user and group number of a user, by the user list.
pub open spec fn ids_of(passwd: Seq<char>, name: Seq<char>) -> Option<(u32, u32)> {
    match entry(lines(passwd), name, 4) {
        Some(f) => match (number(f[2]), number(f[3])) {
            (Some(u), Some(g)) => Some((u, g)),
            _ => None,
        },
        None => None,
    }
}

/// The user and group number of a user, by the user list.
pub fn resolve_uid_gid(passwd: &str, username: &str) -> (r: Option<(u32, u32)>)
    ensures
        r == ids_of(passwd@, username@),
{
    match find_entry(passwd, username, 4) {
        Some(f) => {
            assert(texts(f@)[2] == f@[2]@);
            assert(texts(f@)[3] == f@[3]@);
            match (parse_number(&f[2]), parse_number(&f[3])) {
                (Some(u), Some(g)) => Some((u, g)),
                _ => None,
            }
        },
        None => None,
    }
}

/// The user number of a user, by the user list.
pub open spec fn uid_of(passwd: Seq<char>, name: Seq<char>) -> Option<u32> {
    match entry(lines(passwd), name, 3) {
        Some(f) => number(f[2]),
        None => None,
    }
}

/// The user number of a user, by the user list.
pub fn resolve_uid(passwd: &str, username: &str) -> (r: Option<u32>)
    ensures
        r == uid_of(passwd@, username@),
{
    match find_entry(passwd, username, 3) {
        Some(f) => {
            assert(texts(f@)[2] == f@[2]@);
            parse_number(&f[2])
        },
        None => None,
    }
}

/// The home directory to use: that of the user list; failing that the one that the environment
/// names; failing that the usual place.
pub open spec fn home_dir(
    passwd: Option<Seq<char>>,
    env_home: Option<Seq<char>>,
    name: Seq<char>,
) -> Seq<char> {
    let listed = match passwd {
        Some(p) => home_of(p, name),
        None => None,
    };
    match (listed, env_home) {
        (Some(h), _) => h,
        (None, Some(h)) => h,
        (None, None) => "/home/"@ + name,
    }
}

/// The directory of a user's enrollment. `passwd` is the content of the user list, where it could
/// be read, and `env_home` the home directory that the environment names.
pub fn enrollment_dir(username: &str, passwd: &Option<String>, env_home: &Option<String>) -> (r:
    String)
    ensures
        ({
            let home = home_dir(
                match passwd {
                    Some(p) => Some(p@),
                    None => None,
                },
                match env_home {
                    Some(h) => Some(h@),
                    None => None,
                },
                username@,
            );
            r@ == joined(joined(home, ".local/share/face-auth"@), username@)
        }),
{
    let listed = match passwd {
        Some(p) => resolve_home(p.as_str(), username),
        None => None,
    };
    let home: String = match listed {
        Some(h) => h,
        None => match env_home {
            Some(h) => h.clone(),
            None => {
                let mut h: String = "/home/".to_owned();
                h.append(username);
                h
            },
        },
    };
    let base = join_path(home.as_str(), ".local/share/face-auth");
    join_path(base.as_str(), username)
}

/// The file in the directory of an enrollment.
pub fn embeddings_path(dir: &str) -> (r: String)
    ensures
        r@ == joined(dir@, "embeddings.bin"@),
{
    join_path(dir, "embeddings.bin")
}

/// Where the file is written before it takes the place of the old one.
pub fn temporary_path(dir: &str) -> (r: String)
    ensures
        r@ == joined(dir@, "embeddings.bin.tmp"@),
{
    join_path(dir, "embeddings.bin.tmp")
}

/// Of the lines that are about a user and have fields enough, the first counts.
pub proof fn first_entry_counts(ls: Seq<Seq<char>>, name: Seq<char>, least: nat, i: int)
    requires
        0 <= i < ls.len(),
        split(ls[i], ':').len() >= least,
        split(ls[i], ':')[0] == name,
        forall|k: int|
            0 <= k < i ==> split(#[trigger] ls[k], ':').len() < least || split(ls[k], ':')[0] != name,
    ensures
        entry(ls, name, least) == Some(split(ls[i], ':')),
    decreases ls.len(),
{
    if i > 0 {
        let rest = ls.drop_first();
        assert(split(ls[0], ':').len() < least || split(ls[0], ':')[0] != name);
        assert forall|k: int| 0 <= k < i - 1 implies split(#[trigger] rest[k], ':').len() < least
            || split(rest[k], ':')[0] != name by {
            assert(rest[k] == ls[k + 1]);
        }
        assert(rest[i - 1] == ls[i]);
        first_entry_counts(rest, name, least, i - 1);
    }
}

/// A user whom no line is about, or none with fields enough, has no entry.
pub proof fn unlisted_user_has_no_entry(ls: Seq<Seq<char>>, name: Seq<char>, least: nat)
    requires
        forall|k: int|
            0 <= k < ls.len() ==> split(#[trigger] ls[k], ':').len() < least || split(ls[k], ':')[0]
                != name,
    ensures
        entry(ls, name, least) is None,
    decreases ls.len(),
{
    if ls.len() > 0 {
        let rest = ls.drop_first();
        assert(split(ls[0], ':').len() < least || split(ls[0], ':')[0] != name);
        assert forall|k: int| 0 <= k < rest.len() implies split(#[trigger] rest[k], ':').len() < least
            || split(rest[k], ':')[0] != name by {
            assert(rest[k] == ls[k + 1]);
        }
        unlisted_user_has_no_entry(rest, name, least);
    }
}

/// A line of the user list: the name, a password mark, the two numbers, a remark, the home directory
/// and the shell, with colons between them.
pub open spec fn user_line(
    name: Seq<char>,
    mark: Seq<char>,
    uid: u32,
    gid: u32,
    remark: Seq<char>,
    home: Seq<char>,
    shell: Seq<char>,
) -> Seq<char> {
    name.push(':') + (mark.push(':') + (decimal(uid as nat).push(':') + (decimal(gid as nat).push(':') + (
    remark.push(':') + (home.push(':') + shell)))))
}

/// What the user list says of a user is found: the home directory and the two numbers are those of
/// the first line about the user.
pub proof fn listed_user_is_found(
    passwd: Seq<char>,
    i: int,
    name: Seq<char>,
    mark: Seq<char>,
    uid: u32,
    gid: u32,
    remark: Seq<char>,
    home: Seq<char>,
    shell: Seq<char>,
)
    requires
        0 <= i < lines(passwd).len(),
        lines(passwd)[i] == user_line(name, mark, uid, gid, remark, home, shell),
        !name.contains(':'),
        !mark.contains(':'),
        !remark.contains(':'),
        !home.contains(':'),
        !shell.contains(':'),
        forall|k: int| 0 <= k < i ==> split(#[trigger] lines(passwd)[k], ':')[0] != name,
    ensures
        home_of(passwd, name) == Some(home),
        ids_of(passwd, name) == Some((uid, gid)),
        uid_of(passwd, name) == Some(uid),
{
    let ls = lines(passwd);
    let u = decimal(uid as nat);
    let g = decimal(gid as nat);
    lemma_decimal_has_no_colon(uid as nat);
    lemma_decimal_has_no_colon(gid as nat);
    let f = home.push(':') + shell;
    let e = remark.push(':') + f;
    let d = g.push(':') + e;
    let c = u.push(':') + d;
    let b = mark.push(':') + c;
    crate::text::parts_end_at_separators(home, shell, ':');
    crate::text::parts_end_at_separators(shell, Seq::empty(), ':');
    crate::text::parts_end_at_separators(remark, f, ':');
    crate::text::parts_end_at_separators(g, e, ':');
    crate::text::parts_end_at_separators(u, d, ':');
    crate::text::parts_end_at_separators(mark, c, ':');
    crate::text::parts_end_at_separators(name, b, ':');
    let fields = split(ls[i], ':');
    assert(fields =~= seq![name, mark, u, g, remark, home, shell]);
    first_entry_counts(ls, name, 6, i);
    first_entry_counts(ls, name, 4, i);
    first_entry_counts(ls, name, 3, i);
    lemma_decimal_is_number(uid);
    lemma_decimal_is_number(gid);
}

proof fn lemma_decimal_has_no_colon(n: nat)
    ensures
        !decimal(n).contains(':'),
{
    crate::text::decimal_has_no_leading_zero(n);
}

proof fn lemma_decimal_is_number(n: u32)
    ensures
        number(decimal(n as nat)) == Some(n),
{
    crate::text::decimal_reads_back(n as nat);
}

/// A user who is not in the list has neither a home directory nor numbers there.
pub proof fn unlisted_user_is_not_found(passwd: Seq<char>, name: Seq<char>)
    requires
        forall|k: int|
            0 <= k < lines(passwd).len() ==> split(#[trigger] lines(passwd)[k], ':')[0] != name,
    ensures
        home_of(passwd, name) is None,
        ids_of(passwd, name) is None,
        uid_of(passwd, name) is None,
{
    unlisted_user_has_no_entry(lines(passwd), name, 6);
    unlisted_user_has_no_entry(lines(passwd), name, 4);
    unlisted_user_has_no_entry(lines(passwd), name, 3);
}

/// The user list comes before the environment, and the environment before the usual place.
pub proof fn listed_home_comes_first(
    passwd: Option<Seq<char>>,
    env_home: Option<Seq<char>>,
    name: Seq<char>,
    home: Seq<char>,
)
    ensures
        passwd is Some && home_of(passwd->0, name) == Some(home) ==> home_dir(passwd, env_home, name)
            == home,
        (passwd is None || home_of(passwd->0, name) is None) ==> home_dir(passwd, Some(home), name)
            == home && home_dir(passwd, None, name) == "/home/"@ + name,
{
}

/// One slash stands between a directory and what is in it, whether or not the directory is written
/// with one. A path from the root stands for itself.
pub proof fn one_slash_joins(base: Seq<char>, part: Seq<char>)
    ensures
        base.len() > 0 && base.last() != '/' && (part.len() > 0 ==> part[0] != '/') ==> joined(
            base,
            part,
        ) == base.push('/') + part && joined(base.push('/'), part) == joined(base, part),
        part.len() > 0 && part[0] == '/' ==> joined(base, part) == part,
        joined(Seq::empty(), part) == part,
{
}

/// There is room for as many embeddings as are missing to the limit.
pub proof fn room_is_what_is_missing(max_enrollment: u32, there: usize, r: u32)
    requires
        call_ensures(room, (max_enrollment, there), r),
    ensures
        there <= max_enrollment ==> there + r == max_enrollment,
        there > max_enrollment ==> r == 0,
{
}

/// Embeddings of a version before the second were made in an older way.
pub proof fn first_version_is_stale(version: u32, r: bool)
    requires
        call_ensures(is_stale, (version,), r),
    ensures
        r <==> version <= 1,
{
}

} // verus!
