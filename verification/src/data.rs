//! The codepoint table: parsing the newline-delimited, semicolon-separated
//! dataset into records, and the compact gap list that lets dense iteration
//! skip unassigned codepoint ranges.

use vstd::prelude::*;
use crate::text::{chars_of, string_range};

verus! {

// ---------------------------------------------------------------------------
// Splitting a character sequence on a separator.
// ---------------------------------------------------------------------------

/// The pieces of `s` between occurrences of `sep`, in order; there is always
/// at least one piece, and a separator at the edge yields an empty piece.
pub open spec fn split_seq(s: Seq<char>, sep: char) -> Seq<Seq<char>>
    decreases s.len(),
{
    if s.len() == 0 {
        seq![Seq::<char>::empty()]
    } else if s[0] == sep {
        seq![Seq::<char>::empty()] + split_seq(s.drop_first(), sep)
    } else {
        let rest = split_seq(s.drop_first(), sep);
        seq![seq![s[0]] + rest[0]] + rest.drop_first()
    }
}

proof fn lemma_split_seq_nonempty(s: Seq<char>, sep: char)
    ensures
        split_seq(s, sep).len() >= 1,
    decreases s.len(),
{
    if s.len() != 0 && s[0] != sep {
        lemma_split_seq_nonempty(s.drop_first(), sep);
    }
}

fn split_chars(v: &Vec<char>, sep: char) -> (r: Vec<Vec<char>>)
    ensures
        r@.len() == split_seq(v@, sep).len(),
        forall|k: int| 0 <= k < r@.len() ==> r@[k]@ == split_seq(v@, sep)[k],
{
    let n = v.len();
    let mut r: Vec<Vec<char>> = Vec::new();
    let mut cur: Vec<char> = Vec::new();
    let mut i: usize = 0;
    proof {
        lemma_split_seq_nonempty(v@, sep);
        assert(v@.skip(0) =~= v@);
        assert(cur@ + split_seq(v@, sep)[0] =~= split_seq(v@, sep)[0]);
    }
    while i < n
        invariant
            n == v@.len(),
            i <= n,
            ({
                let full = split_seq(v@, sep);
                let rest = split_seq(v@.skip(i as int), sep);
                &&& rest.len() >= 1
                &&& full.len() == r@.len() + rest.len()
                &&& forall|k: int| 0 <= k < r@.len() ==> full[k] == r@[k]@
                &&& full[r@.len() as int] == cur@ + rest[0]
                &&& forall|k: int| 1 <= k < rest.len() ==> full[r@.len() + k] == rest[k]
            }),
        decreases n - i,
    {
        let c = v[i];
        let ghost full = split_seq(v@, sep);
        let ghost rest = split_seq(v@.skip(i as int), sep);
        let ghost rest2 = split_seq(v@.skip(i as int + 1), sep);
        let ghost cur0 = cur@;
        let ghost done0 = r@.len() as int;
        proof {
            let s = v@.skip(i as int);
            assert(s.len() > 0);
            assert(s[0] == v@[i as int]);
            assert(s.drop_first() =~= v@.skip(i as int + 1));
            lemma_split_seq_nonempty(v@.skip(i as int + 1), sep);
        }
        if c == sep {
            let done = cur;
            cur = Vec::new();
            r.push(done);
            proof {
                assert(rest =~= seq![Seq::<char>::empty()] + rest2);
                assert(rest[0] =~= Seq::<char>::empty());
                assert(full[done0] == cur0 + rest[0]);
                assert(cur0 + rest[0] =~= cur0);
                assert(r@[done0]@ == cur0);
                assert(full[done0 + 1] == rest[1]) by {
                    assert(rest.len() >= 2);
                }
                assert(rest[1] == rest2[0]);
                assert(cur@ + rest2[0] =~= rest2[0]);
                assert(forall|k: int| 1 <= k < rest2.len() ==> rest[k + 1] == rest2[k]);
            }
        } else {
            cur.push(c);
            proof {
                assert(rest =~= seq![seq![v@[i as int]] + rest2[0]] + rest2.drop_first());
                assert(rest[0] == seq![v@[i as int]] + rest2[0]);
                assert(cur@ =~= cur0.push(c));
                assert(cur0 + rest[0] =~= cur@ + rest2[0]);
                assert(forall|k: int| 1 <= k < rest2.len() ==> rest[k] == rest2.drop_first()[k - 1]
                    && rest2.drop_first()[k - 1] == rest2[k]);
            }
        }
        i = i + 1;
    }
    r.push(cur);
    proof {
        assert(v@.skip(n as int) =~= Seq::<char>::empty());
        let full = split_seq(v@, sep);
        let rest = split_seq(v@.skip(n as int), sep);
        assert(rest =~= seq![Seq::<char>::empty()]);
        assert(full[(r@.len() - 1) as int] == r@[(r@.len() - 1) as int]@ + rest[0]);
        assert(r@[(r@.len() - 1) as int]@ + rest[0] =~= r@[(r@.len() - 1) as int]@);
    }
    r
}

// ---------------------------------------------------------------------------
// Hexadecimal codepoint fields.
// ---------------------------------------------------------------------------

pub open spec fn is_hex_digit(c: char) -> bool {
    ('0' as u32 <= c as u32 && c as u32 <= '9' as u32)
    || ('a' as u32 <= c as u32 && c as u32 <= 'f' as u32)
    || ('A' as u32 <= c as u32 && c as u32 <= 'F' as u32)
}

pub open spec fn hex_digit_value(c: char) -> nat {
    if '0' as u32 <= c as u32 && c as u32 <= '9' as u32 {
        (c as u32 - '0' as u32) as nat
    } else if 'a' as u32 <= c as u32 && c as u32 <= 'f' as u32 {
        (c as u32 - 'a' as u32 + 10) as nat
    } else {
        (c as u32 - 'A' as u32 + 10) as nat
    }
}

/// One or more hexadecimal digits, nothing else.
pub open spec fn is_hex_seq(s: Seq<char>) -> bool {
    s.len() > 0 && forall|i: int| 0 <= i < s.len() ==> is_hex_digit(#[trigger] s[i])
}

/// The number the digit sequence denotes, most significant digit first.
pub open spec fn hex_value(s: Seq<char>) -> nat
    decreases s.len(),
{
    if s.len() == 0 {
        0
    } else {
        hex_value(s.drop_last()) * 16 + hex_digit_value(s.last())
    }
}

proof fn lemma_hex_value_prefix(s: Seq<char>, i: int)
    requires
        0 <= i <= s.len(),
    ensures
        hex_value(s.take(i)) <= hex_value(s),
    decreases s.len() - i,
{
    if i == s.len() {
        assert(s.take(i) =~= s);
    } else {
        assert(s.take(i + 1).drop_last() =~= s.take(i));
        assert(s.take(i + 1).last() == s[i]);
        assert(hex_value(s.take(i)) <= hex_value(s.take(i + 1)));
        lemma_hex_value_prefix(s, i + 1);
    }
}

fn hex_digit_of(c: char) -> (r: Option<u32>)
    ensures
        r is Some <==> is_hex_digit(c),
        r matches Some(d) ==> d as nat == hex_digit_value(c) && d < 16,
{
    let u = c as u32;
    if u >= '0' as u32 && u <= '9' as u32 {
        Some(u - '0' as u32)
    } else if u >= 'a' as u32 && u <= 'f' as u32 {
        Some(u - 'a' as u32 + 10)
    } else if u >= 'A' as u32 && u <= 'F' as u32 {
        Some(u - 'A' as u32 + 10)
    } else {
        None
    }
}

/// Reads a field as a hexadecimal number; `None` when the field is not one
/// or more hex digits, or denotes a number beyond `u32`.
fn parse_hex(v: &Vec<char>) -> (r: Option<u32>)
    ensures
        r is Some <==> is_hex_seq(v@) && hex_value(v@) <= u32::MAX,
        r matches Some(x) ==> x as nat == hex_value(v@),
{
    let n = v.len();
    if n == 0 {
        return None;
    }
    let mut acc: u64 = 0;
    let mut i: usize = 0;
    while i < n
        invariant
            n == v@.len(),
            i <= n,
            forall|k: int| 0 <= k < i ==> is_hex_digit(#[trigger] v@[k]),
            acc as nat == hex_value(v@.take(i as int)),
            acc <= u32::MAX,
        decreases n - i,
    {
        let d = match hex_digit_of(v[i]) {
            Some(d) => d,
            None => {
                return None;
            },
        };
        acc = acc * 16 + d as u64;
        proof {
            assert(v@.take(i + 1).drop_last() =~= v@.take(i as int));
            assert(v@.take(i + 1).last() == v@[i as int]);
        }
        i = i + 1;
        if acc > u32::MAX as u64 {
            proof {
                lemma_hex_value_prefix(v@, i as int);
            }
            return None;
        }
    }
    proof {
        assert(v@.take(n as int) =~= v@);
    }
    Some(acc as u32)
}

// ---------------------------------------------------------------------------
// Lines, fields and records.
// ---------------------------------------------------------------------------

/// The sub-sequence of non-empty entries, order kept.
pub open spec fn nonempty_of(ls: Seq<Seq<char>>) -> Seq<Seq<char>>
    decreases ls.len(),
{
    if ls.len() == 0 {
        Seq::empty()
    } else if ls.last().len() == 0 {
        nonempty_of(ls.drop_last())
    } else {
        nonempty_of(ls.drop_last()).push(ls.last())
    }
}

/// The non-empty lines of the raw dataset text.
pub open spec fn file_lines(s: Seq<char>) -> Seq<Seq<char>> {
    nonempty_of(split_seq(s, '\n'))
}

pub open spec fn line_fields(l: Seq<char>) -> Seq<Seq<char>> {
    split_seq(l, ';')
}

/// Field 0 denotes a codepoint: hex digits whose value fits in `u32`.
pub open spec fn line_codepoint_ok(l: Seq<char>) -> bool {
    is_hex_seq(line_fields(l)[0]) && hex_value(line_fields(l)[0]) <= u32::MAX
}

pub open spec fn line_codepoint(l: Seq<char>) -> u32 {
    hex_value(line_fields(l)[0]) as u32
}

pub open spec fn line_has_fields(l: Seq<char>) -> bool {
    line_fields(l).len() >= 3
}

pub open spec fn line_name(l: Seq<char>) -> Seq<char> {
    line_fields(l)[1]
}

pub open spec fn line_category(l: Seq<char>) -> Seq<char> {
    line_fields(l)[2]
}

/// Why table construction failed.
#[derive(Clone, Copy, PartialEq, Eq, Structural, Debug)]
pub enum ParseError {
    /// A non-empty line whose first field is not a hexadecimal codepoint.
    InvalidCodepoint,
    /// A non-empty line with fewer than the expected number of fields.
    MissingFields,
    /// A codepoint no greater than the one on the line before it.
    OutOfOrder,
}

/// The outcome of validating the given lines in order: `Ok` when every line
/// has a codepoint, enough fields, and strictly ascending codepoints, else
/// the error of the first offending line.
pub open spec fn lines_outcome(ls: Seq<Seq<char>>) -> Result<(), ParseError>
    decreases ls.len(),
{
    if ls.len() == 0 {
        Ok(())
    } else {
        let pre = lines_outcome(ls.drop_last());
        let l = ls.last();
        if pre is Err {
            pre
        } else if !line_codepoint_ok(l) {
            Err(ParseError::InvalidCodepoint)
        } else if !line_has_fields(l) {
            Err(ParseError::MissingFields)
        } else if ls.len() >= 2 && line_codepoint(ls[ls.len() - 2]) >= line_codepoint(l) {
            Err(ParseError::OutOfOrder)
        } else {
            Ok(())
        }
    }
}

proof fn lemma_nonempty_prefix(ls: Seq<Seq<char>>, i: int)
    requires
        0 <= i <= ls.len(),
    ensures
        nonempty_of(ls.take(i)).len() <= nonempty_of(ls).len(),
        nonempty_of(ls.take(i)) == nonempty_of(ls).take(nonempty_of(ls.take(i)).len() as int),
    decreases ls.len(),
{
    if i == ls.len() {
        assert(ls.take(i) =~= ls);
        assert(nonempty_of(ls) =~= nonempty_of(ls).take(nonempty_of(ls).len() as int));
    } else {
        assert(ls.take(i) =~= ls.drop_last().take(i));
        lemma_nonempty_prefix(ls.drop_last(), i);
        let pre = nonempty_of(ls.drop_last());
        let k = nonempty_of(ls.take(i)).len() as int;
        if ls.last().len() == 0 {
            assert(nonempty_of(ls) == pre);
        } else {
            assert(nonempty_of(ls) == pre.push(ls.last()));
            assert(pre.take(k) =~= pre.push(ls.last()).take(k));
        }
    }
}

proof fn lemma_outcome_err_persists(ls: Seq<Seq<char>>, k: int)
    requires
        0 <= k <= ls.len(),
        lines_outcome(ls.take(k)) is Err,
    ensures
        lines_outcome(ls) == lines_outcome(ls.take(k)),
    decreases ls.len() - k,
{
    if k == ls.len() {
        assert(ls.take(k) =~= ls);
    } else {
        assert(ls.take(k + 1).drop_last() =~= ls.take(k));
        assert(lines_outcome(ls.take(k + 1)) == lines_outcome(ls.take(k)));
        lemma_outcome_err_persists(ls, k + 1);
    }
}

// ---------------------------------------------------------------------------
// Records and the table.
// ---------------------------------------------------------------------------

/// One assigned codepoint: its number, name and general category.
#[derive(Clone)]
pub struct UnicodeData {
    pub codepoint: u32,
    pub name: String,
    pub category: String,
}

/// `r` is the record that the dataset line `l` describes.
pub open spec fn rec_matches_line(r: UnicodeData, l: Seq<char>) -> bool {
    &&& r.codepoint == line_codepoint(l)
    &&& r.name@ == line_name(l)
    &&& r.category@ == line_category(l)
}

/// The codepoints the records carry, in record order.
pub open spec fn recs_codepoints(recs: Seq<UnicodeData>) -> Seq<u32> {
    recs.map(|i: int, r: UnicodeData| r.codepoint)
}

/// Adjacent entries strictly ascend.
pub open spec fn cps_sorted(cps: Seq<u32>) -> bool {
    forall|i: int| 0 <= i && i + 1 < cps.len() ==> #[trigger] cps[i] < cps[i + 1]
}

pub proof fn lemma_cps_sorted_total(cps: Seq<u32>, i: int, j: int)
    requires
        cps_sorted(cps),
        0 <= i < j < cps.len(),
    ensures
        cps[i] < cps[j],
    decreases j - i,
{
    if i + 1 < j {
        lemma_cps_sorted_total(cps, i + 1, j);
    }
}

/// The maximal runs of unassigned codepoints: one pair `(a, b)` for every
/// two adjacent listed codepoints that are not consecutive.
pub open spec fn gaps_of(cps: Seq<u32>) -> Seq<(u32, u32)>
    decreases cps.len(),
{
    if cps.len() < 2 {
        Seq::empty()
    } else if cps[0] + 1 == cps[1] {
        gaps_of(cps.drop_first())
    } else {
        seq![(cps[0], cps[1])] + gaps_of(cps.drop_first())
    }
}

/// The parsed dataset: every assigned codepoint's record in ascending
/// codepoint order, with the gap list that dense iteration skips by.
pub struct UnicodeFile {
    pub gaps: Vec<(u32, u32)>,
    pub records: Vec<UnicodeData>,
}

impl UnicodeFile {
    pub open spec fn codepoints(self) -> Seq<u32> {
        recs_codepoints(self.records@)
    }

    /// Codepoints strictly ascend (so keys are unique) and the gap list is
    /// exactly the gaps of the codepoint sequence.
    pub open spec fn wf(self) -> bool {
        &&& cps_sorted(self.codepoints())
        &&& self.gaps@ == gaps_of(self.codepoints())
    }
}

/// The gap list of a codepoint sequence, by one scan of adjacent pairs.
fn gaps_from_codepoints(cps: &Vec<u32>) -> (r: Vec<(u32, u32)>)
    ensures
        r@ == gaps_of(cps@),
{
    let n = cps.len();
    let mut r: Vec<(u32, u32)> = Vec::new();
    if n < 2 {
        return r;
    }
    let mut i: usize = 0;
    proof {
        assert(cps@.skip(0) =~= cps@);
        assert(r@ + gaps_of(cps@) =~= gaps_of(cps@));
    }
    while i + 1 < n
        invariant
            n == cps@.len(),
            i + 1 <= n,
            gaps_of(cps@) =~= r@ + gaps_of(cps@.skip(i as int)),
        decreases n - i,
    {
        let a = cps[i];
        let b = cps[i + 1];
        proof {
            let s = cps@.skip(i as int);
            assert(s.len() >= 2);
            assert(s[0] == cps@[i as int]);
            assert(s[1] == cps@[i + 1]);
            assert(s.drop_first() =~= cps@.skip(i as int + 1));
        }
        if !(a < b && b - a == 1) {
            r.push((a, b));
        }
        i = i + 1;
        proof {
            assert(gaps_of(cps@) =~= r@ + gaps_of(cps@.skip(i as int)));
        }
    }
    proof {
        assert(cps@.skip(i as int).len() < 2);
        assert(r@ =~= gaps_of(cps@));
    }
    r
}

/// Builds the codepoint table from the raw dataset text.
///
/// Each non-empty line is `hexCodepoint;NAME;CATEGORY;...` (extra fields
/// ignored); lines must carry strictly ascending codepoints. The first
/// offending line decides the error, exactly as `lines_outcome` says.
#[verifier::loop_isolation(false)]
pub fn parse_unicode_data(data: &str) -> (r: Result<UnicodeFile, ParseError>)
    ensures
        r is Ok <==> lines_outcome(file_lines(data@)) is Ok,
        r matches Err(e) ==> lines_outcome(file_lines(data@)) == Err::<(), ParseError>(e),
        r matches Ok(f) ==> {
            &&& f.wf()
            &&& f.records@.len() == file_lines(data@).len()
            &&& forall|i: int| 0 <= i < f.records@.len()
                ==> rec_matches_line(#[trigger] f.records@[i], file_lines(data@)[i])
        },
{
    let all = chars_of(data);
    let lines = split_chars(&all, '\n');
    let ghost m = split_seq(data@, '\n');
    let n = lines.len();
    let mut records: Vec<UnicodeData> = Vec::new();
    let mut cpsv: Vec<u32> = Vec::new();
    let mut i: usize = 0;
    proof {
        assert(m.take(0) =~= Seq::<Seq<char>>::empty());
    }
    while i < n
        invariant
            n == lines@.len(),
            n == m.len(),
            i <= n,
            forall|k: int| 0 <= k < n ==> #[trigger] lines@[k]@ == m[k],
            records@.len() == nonempty_of(m.take(i as int)).len(),
            lines_outcome(nonempty_of(m.take(i as int))) is Ok,
            forall|k: int| 0 <= k < records@.len()
                ==> rec_matches_line(#[trigger] records@[k], nonempty_of(m.take(i as int))[k]),
            cpsv@.len() == records@.len(),
            forall|k: int| 0 <= k < records@.len() ==> #[trigger] cpsv@[k] == records@[k].codepoint,
            cps_sorted(cpsv@),
        decreases n - i,
    {
        let ghost nl0 = nonempty_of(m.take(i as int));
        proof {
            assert(m.take(i + 1).drop_last() =~= m.take(i as int));
            assert(m.take(i + 1).last() == m[i as int]);
        }
        if lines[i].len() == 0 {
            proof {
                assert(nonempty_of(m.take(i + 1)) == nl0);
            }
            i = i + 1;
            continue ;
        }
        let ghost nl = nl0.push(m[i as int]);
        proof {
            assert(nonempty_of(m.take(i + 1)) == nl);
            assert(nl.drop_last() =~= nl0);
            assert(nl.last() == m[i as int]);
        }
        let fields = split_chars(&lines[i], ';');
        proof {
            lemma_split_seq_nonempty(lines@[i as int]@, ';');
        }
        let cp = match parse_hex(&fields[0]) {
            Some(cp) => cp,
            None => {
                proof {
                    assert(!line_codepoint_ok(m[i as int]));
                    assert(lines_outcome(nl) == Err::<(), ParseError>(ParseError::InvalidCodepoint));
                    lemma_nonempty_prefix(m, i + 1);
                    lemma_outcome_err_persists(file_lines(data@), nl.len() as int);
                }
                return Err(ParseError::InvalidCodepoint);
            },
        };
        if fields.len() < 3 {
            proof {
                assert(!line_has_fields(m[i as int]));
                assert(lines_outcome(nl) == Err::<(), ParseError>(ParseError::MissingFields));
                lemma_nonempty_prefix(m, i + 1);
                lemma_outcome_err_persists(file_lines(data@), nl.len() as int);
            }
            return Err(ParseError::MissingFields);
        }
        if records.len() > 0 {
            let prev = records[records.len() - 1].codepoint;
            if prev >= cp {
                proof {
                    assert(nl[nl.len() - 2] == nl0.last());
                    assert(rec_matches_line(records@[records@.len() - 1], nl0.last()));
                    assert(line_codepoint(nl[nl.len() - 2]) >= line_codepoint(nl.last()));
                    assert(lines_outcome(nl) == Err::<(), ParseError>(ParseError::OutOfOrder));
                    lemma_nonempty_prefix(m, i + 1);
                    lemma_outcome_err_persists(file_lines(data@), nl.len() as int);
                }
                return Err(ParseError::OutOfOrder);
            }
        }
        let name = string_range(&fields[1], 0, fields[1].len());
        let category = string_range(&fields[2], 0, fields[2].len());
        let rec = UnicodeData { codepoint: cp, name, category };
        proof {
            assert(fields@[1]@.subrange(0, fields@[1]@.len() as int) =~= fields@[1]@);
            assert(fields@[2]@.subrange(0, fields@[2]@.len() as int) =~= fields@[2]@);
            assert(rec_matches_line(rec, m[i as int]));
            assert(lines_outcome(nl) is Ok);
        }
        records.push(rec);
        cpsv.push(cp);
        i = i + 1;
    }
    proof {
        assert(m.take(n as int) =~= m);
    }
    let gaps = gaps_from_codepoints(&cpsv);
    let file = UnicodeFile { gaps, records };
    proof {
        assert(cpsv@ =~= file.codepoints());
    }
    Ok(file)
}

// ---------------------------------------------------------------------------
// Gap extraction straight from the raw text.
// ---------------------------------------------------------------------------

/// The codepoints of the lines whose first field reads as one, in order;
/// lines that do not are passed over.
pub open spec fn listed_codepoints(ls: Seq<Seq<char>>) -> Seq<u32>
    decreases ls.len(),
{
    if ls.len() == 0 {
        Seq::empty()
    } else {
        let pre = listed_codepoints(ls.drop_last());
        if line_codepoint_ok(ls.last()) {
            pre.push(line_codepoint(ls.last()))
        } else {
            pre
        }
    }
}

/// The gap list of the raw dataset text: one pair for every two adjacent
/// readable codepoints that are not consecutive.
#[verifier::loop_isolation(false)]
pub fn get_codepoint_gaps(data: &str) -> (r: Vec<(u32, u32)>)
    ensures
        r@ == gaps_of(listed_codepoints(file_lines(data@))),
{
    let all = chars_of(data);
    let lines = split_chars(&all, '\n');
    let ghost m = split_seq(data@, '\n');
    let n = lines.len();
    let mut cpsv: Vec<u32> = Vec::new();
    let mut i: usize = 0;
    proof {
        assert(m.take(0) =~= Seq::<Seq<char>>::empty());
    }
    while i < n
        invariant
            n == lines@.len(),
            n == m.len(),
            i <= n,
            forall|k: int| 0 <= k < n ==> #[trigger] lines@[k]@ == m[k],
            cpsv@ == listed_codepoints(nonempty_of(m.take(i as int))),
        decreases n - i,
    {
        let ghost nl0 = nonempty_of(m.take(i as int));
        proof {
            assert(m.take(i + 1).drop_last() =~= m.take(i as int));
            assert(m.take(i + 1).last() == m[i as int]);
        }
        if lines[i].len() == 0 {
            proof {
                assert(nonempty_of(m.take(i + 1)) == nl0);
            }
            i = i + 1;
            continue ;
        }
        proof {
            assert(nonempty_of(m.take(i + 1)) == nl0.push(m[i as int]));
            assert(nl0.push(m[i as int]).drop_last() =~= nl0);
        }
        let fields = split_chars(&lines[i], ';');
        proof {
            lemma_split_seq_nonempty(lines@[i as int]@, ';');
        }
        match parse_hex(&fields[0]) {
            Some(cp) => {
                cpsv.push(cp);
            },
            None => {},
        }
        i = i + 1;
    }
    proof {
        assert(m.take(n as int) =~= m);
    }
    gaps_from_codepoints(&cpsv)
}

} // verus!

