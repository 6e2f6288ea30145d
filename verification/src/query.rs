//! The query engine: the dense gap-skipping walk over the table, and
//! substring or regular-expression matching of record names against the
//! query text, in ascending codepoint order.

use vstd::prelude::*;
use crate::data::{
    UnicodeData, UnicodeFile, cps_sorted, gaps_of, lemma_cps_sorted_total, recs_codepoints,
};
use crate::text::{chars_of, contains_chars, contains_seq, to_upper, upper_of};

verus! {

// ---------------------------------------------------------------------------
// Dense iteration: the gap-skipping walk.
// ---------------------------------------------------------------------------

proof fn lemma_gaps_first_lb(cps: Seq<u32>)
    requires
        cps_sorted(cps),
        cps.len() >= 2,
        gaps_of(cps).len() > 0,
    ensures
        gaps_of(cps)[0].0 >= cps[0],
    decreases cps.len(),
{
    if cps[0] + 1 == cps[1] {
        assert(gaps_of(cps) == gaps_of(cps.drop_first()));
        assert(cps_sorted(cps.drop_first())) by {
            assert forall|i: int| 0 <= i && i + 1 < cps.drop_first().len()
                implies #[trigger] cps.drop_first()[i] < cps.drop_first()[i + 1] by {
                assert(cps.drop_first()[i] == cps[i + 1]);
                assert(cps.drop_first()[i + 1] == cps[i + 2]);
            }
        }
        if cps.drop_first().len() < 2 {
            assert(gaps_of(cps.drop_first()).len() == 0);
        }
        lemma_gaps_first_lb(cps.drop_first());
        assert(cps.drop_first()[0] == cps[1]);
    }
}

/// The dense walk of the table: all assigned codepoints in ascending order,
/// produced by counting upward from the first one and consulting the gap
/// list to jump over every unassigned run.
#[verifier::loop_isolation(false)]
#[verifier::rlimit(80)]
pub fn get_unicode_items(unicode_file: &UnicodeFile) -> (r: Vec<u32>)
    requires
        unicode_file.wf(),
    ensures
        r@ == unicode_file.codepoints(),
{
    let ghost cps = unicode_file.codepoints();
    let n = unicode_file.records.len();
    let mut r: Vec<u32> = Vec::new();
    if n == 0 {
        proof {
            assert(r@ =~= cps);
        }
        return r;
    }
    let mut cur: u32 = unicode_file.records[0].codepoint;
    let mut g: usize = 0;
    let mut i: usize = 0;
    proof {
        assert(cps.skip(0) =~= cps);
        assert(gaps_of(cps).skip(0) =~= gaps_of(cps));
        assert(cur == cps[0]);
        assert(r@ =~= cps.take(0));
    }
    while i < n
        invariant
            i <= n,
            r@ == cps.take(i as int),
            i < n ==> cur == cps[i as int],
            g <= unicode_file.gaps@.len(),
            i < n ==> gaps_of(cps).skip(g as int) == gaps_of(cps.skip(i as int)),
        decreases n - i,
    {
        r.push(cur);
        proof {
            assert(r@ =~= cps.take(i + 1));
        }
        if i + 1 < n {
            proof {
                let s = cps.skip(i as int);
                assert(s.len() >= 2);
                assert(s[0] == cps[i as int]);
                assert(s[1] == cps[i + 1]);
                assert(s.drop_first() =~= cps.skip(i as int + 1));
                assert(cps_sorted(cps.skip(i as int + 1))) by {
                    assert forall|k: int| 0 <= k && k + 1 < cps.skip(i as int + 1).len()
                        implies #[trigger] cps.skip(i as int + 1)[k] < cps.skip(
                        i as int + 1,
                    )[k + 1] by {
                        assert(cps.skip(i as int + 1)[k] == cps[i + 1 + k]);
                        assert(cps.skip(i as int + 1)[k + 1] == cps[i + 2 + k]);
                    }
                }
                if s[0] + 1 == s[1] {
                    assert(gaps_of(s) == gaps_of(cps.skip(i as int + 1)));
                    if gaps_of(cps.skip(i as int + 1)).len() > 0 {
                        if cps.skip(i as int + 1).len() < 2 {
                            assert(gaps_of(cps.skip(i as int + 1)).len() == 0);
                        }
                        lemma_gaps_first_lb(cps.skip(i as int + 1));
                        assert(gaps_of(cps.skip(i as int + 1))[0].0 >= cps[i + 1]);
                    }
                } else {
                    assert(gaps_of(s) == seq![(s[0], s[1])] + gaps_of(cps.skip(i as int + 1)));
                    assert(gaps_of(s)[0] == (cps[i as int], cps[i + 1]));
                    assert(gaps_of(s).drop_first() =~= gaps_of(cps.skip(i as int + 1)));
                }
            }
            if g < unicode_file.gaps.len() && unicode_file.gaps[g].0 == cur {
                proof {
                    assert(unicode_file.gaps@[g as int] == gaps_of(cps).skip(g as int)[0]);
                }
                cur = unicode_file.gaps[g].1;
                g = g + 1;
                proof {
                    assert(gaps_of(cps).skip(g as int) =~= gaps_of(cps).skip(g - 1).drop_first());
                }
            } else {
                proof {
                    let s = cps.skip(i as int);
                    if s[0] + 1 != s[1] {
                        assert(gaps_of(cps).skip(g as int)[0] == (cps[i as int], cps[i + 1]));
                        assert(gaps_of(cps).skip(g as int).len() > 0);
                        assert(g < gaps_of(cps).len());
                        assert(unicode_file.gaps@[g as int].0 == cur);
                        assert(false);
                    }
                }
                cur = cur + 1;
            }
        }
        i = i + 1;
    }
    proof {
        assert(cps.take(n as int) =~= cps);
    }
    r
}

// ---------------------------------------------------------------------------
// Trusted regular-expression facade.
// ---------------------------------------------------------------------------

#[verifier::external_type_specification]
#[verifier::external_body]
pub struct ExRegex(regex::Regex);

/// Whether the regex crate accepts `pattern`; compilation succeeds or fails
/// on the pattern text alone.
pub uninterp spec fn regex_compiles(pattern: Seq<char>) -> bool;

/// Whether the regular expression `pattern` matches anywhere inside `text`;
/// the result depends on the two texts alone.
pub uninterp spec fn regex_match(pattern: Seq<char>, text: Seq<char>) -> bool;

/// The pattern text a compiled regex carries, as regex::Regex::as_str
/// returns it: the string the value was compiled from.
pub uninterp spec fn pattern_of(re: regex::Regex) -> Seq<char>;

/// Relies on regex::Regex::new: `Ok` exactly when the pattern compiles,
/// and the compiled value carries the pattern it was built from.
#[verifier::external_body]
fn regex_new(pat: &str) -> (r: Option<regex::Regex>)
    ensures
        r is Some <==> regex_compiles(pat@),
        r matches Some(re) ==> pattern_of(re) == pat@,
{
    regex::Regex::new(pat).ok()
}

/// Relies on regex::Regex::is_match: true exactly when the pattern the
/// regex was compiled from matches somewhere in `text`.
#[verifier::external_body]
fn regex_is_match(re: &regex::Regex, text: &str) -> (r: bool)
    ensures
        r == regex_match(pattern_of(*re), text@),
{
    re.is_match(text)
}

// ---------------------------------------------------------------------------
// The delimited form `/pattern/flags`.
// ---------------------------------------------------------------------------

pub open spec fn is_lower_flag(c: char) -> bool {
    'a' as u32 <= c as u32 && c as u32 <= 'z' as u32
}

/// Position `k` closes the delimited form: a `/` followed only by lowercase
/// flag letters up to the end.
pub open spec fn is_close_at(s: Seq<char>, k: int) -> bool {
    s[k] == '/' && forall|j: int| k < j < s.len() ==> is_lower_flag(#[trigger] s[j])
}

/// The first closing position at or after `k`, or the length when none.
pub open spec fn close_pos(s: Seq<char>, k: int) -> int
    decreases s.len() - k,
{
    if k >= s.len() {
        s.len() as int
    } else if is_close_at(s, k) {
        k
    } else {
        close_pos(s, k + 1)
    }
}

proof fn lemma_close_pos(s: Seq<char>, k: int)
    requires
        0 <= k <= s.len(),
    ensures
        k <= close_pos(s, k) <= s.len(),
        close_pos(s, k) < s.len() ==> is_close_at(s, close_pos(s, k)),
        forall|j: int| k <= j < close_pos(s, k) ==> !is_close_at(s, j),
    decreases s.len() - k,
{
    if k < s.len() && !is_close_at(s, k) {
        lemma_close_pos(s, k + 1);
    }
}

/// The query is a delimited regular expression: an opening `/`, at least one
/// pattern character none of which is a line break, the earliest closing
/// `/`, then optional lowercase flag letters.
pub open spec fn is_delim(s: Seq<char>) -> bool {
    &&& s.len() >= 3
    &&& s[0] == '/'
    &&& close_pos(s, 2) < s.len()
    &&& forall|j: int| 1 <= j < close_pos(s, 2) ==> s[j] != '\n'
}

/// The pattern text between the delimiters.
pub open spec fn delim_inner(s: Seq<char>) -> Seq<char> {
    s.subrange(1, close_pos(s, 2))
}

fn is_lower_exec(c: char) -> (r: bool)
    ensures
        r == is_lower_flag(c),
{
    let u = c as u32;
    u >= 'a' as u32 && u <= 'z' as u32
}

/// Finds the closing delimiter of a delimited query, if the query has that
/// form; returns its position, so the pattern is the characters `1..k`.
fn find_delim(q: &Vec<char>) -> (r: Option<usize>)
    ensures
        r is Some <==> is_delim(q@),
        r matches Some(k) ==> k == close_pos(q@, 2) && 2 <= k < q@.len(),
{
    let n = q.len();
    if n < 3 {
        return None;
    }
    if q[0] != '/' {
        return None;
    }
    let mut m: usize = n;
    loop
        invariant
            n == q@.len(),
            m <= n,
            forall|j: int| m <= j < n ==> is_lower_flag(#[trigger] q@[j]),
        ensures
            m <= n,
            forall|j: int| m <= j < n ==> is_lower_flag(#[trigger] q@[j]),
            m > 0 ==> !is_lower_flag(q@[m - 1]),
        decreases m,
    {
        if m == 0 {
            break ;
        }
        if !is_lower_exec(q[m - 1]) {
            break ;
        }
        m = m - 1;
    }
    let mut k: usize = 1;
    while k < n
        invariant
            n == q@.len(),
            n >= 3,
            q@[0] == '/',
            m <= n,
            forall|j: int| m <= j < n ==> is_lower_flag(#[trigger] q@[j]),
            m > 0 ==> !is_lower_flag(q@[m - 1]),
            1 <= k <= n,
            forall|kk: int| 2 <= kk < k ==> !is_close_at(q@, kk),
            forall|j: int| 1 <= j < k ==> q@[j] != '\n',
        decreases n - k,
    {
        let c = q[k];
        if k >= 2 && c == '/' && k + 1 >= m {
            proof {
                assert(is_close_at(q@, k as int)) by {
                    assert forall|j: int| k < j < q@.len() implies is_lower_flag(
                        #[trigger] q@[j],
                    ) by {
                        assert(j >= m);
                    }
                }
                lemma_close_pos(q@, 2);
                assert(close_pos(q@, 2) == k as int);
                assert(is_delim(q@));
            }
            return Some(k);
        }
        if c == '\n' {
            proof {
                lemma_close_pos(q@, 2);
                if is_delim(q@) {
                    let cp = close_pos(q@, 2);
                    assert(is_close_at(q@, cp));
                    assert(q@[cp] == '/');
                    if cp > k {
                        assert(q@[k as int] != '\n');
                    } else {
                        assert(!is_close_at(q@, cp));
                    }
                }
            }
            return None;
        }
        proof {
            if k >= 2 && is_close_at(q@, k as int) {
                if q@[k as int] != '/' {
                } else {
                    assert(k + 1 < m);
                    assert(m > 0);
                    assert(k < m - 1 < q@.len());
                    assert(is_lower_flag(q@[m - 1]));
                }
            }
        }
        k = k + 1;
    }
    proof {
        lemma_close_pos(q@, 2);
        if is_delim(q@) {
            assert(!is_close_at(q@, close_pos(q@, 2)));
        }
    }
    None
}

// ---------------------------------------------------------------------------
// Matching.
// ---------------------------------------------------------------------------

/// Whether a record name matches the case-folded query: by the inner
/// regular expression when the query has the delimited form and compiles,
/// else by literal substring containment.
pub open spec fn query_matches(upq: Seq<char>, name: Seq<char>) -> bool {
    if is_delim(upq) && regex_compiles(delim_inner(upq)) {
        regex_match(delim_inner(upq), name)
    } else {
        contains_seq(name, upq)
    }
}

/// The indices of all matching records, in table order.
pub open spec fn match_indices(recs: Seq<UnicodeData>, upq: Seq<char>) -> Seq<int>
    decreases recs.len(),
{
    if recs.len() == 0 {
        Seq::empty()
    } else if query_matches(upq, recs.last().name@) {
        match_indices(recs.drop_last(), upq).push(recs.len() - 1)
    } else {
        match_indices(recs.drop_last(), upq)
    }
}

/// The indices of the matching records, truncated to the cap.
pub open spec fn query_results(recs: Seq<UnicodeData>, upq: Seq<char>, cap: nat) -> Seq<int> {
    let m = match_indices(recs, upq);
    if m.len() <= cap {
        m
    } else {
        m.take(cap as int)
    }
}

pub proof fn lemma_match_indices_bounds(recs: Seq<UnicodeData>, upq: Seq<char>)
    ensures
        forall|a: int| 0 <= a < match_indices(recs, upq).len()
            ==> 0 <= #[trigger] match_indices(recs, upq)[a] < recs.len(),
        forall|a: int, b: int| 0 <= a < b < match_indices(recs, upq).len()
            ==> #[trigger] match_indices(recs, upq)[a] < #[trigger] match_indices(recs, upq)[b],
    decreases recs.len(),
{
    if recs.len() > 0 {
        lemma_match_indices_bounds(recs.drop_last(), upq);
        let pre = match_indices(recs.drop_last(), upq);
        let m = match_indices(recs, upq);
        assert(recs.drop_last().len() == recs.len() - 1);
        if query_matches(upq, recs.last().name@) {
            assert(m == pre.push(recs.len() - 1));
            assert forall|a: int| 0 <= a < m.len() implies 0 <= #[trigger] m[a] < recs.len() by {
                if a < pre.len() {
                    assert(m[a] == pre[a]);
                } else {
                    assert(m[a] == recs.len() - 1);
                }
            }
            assert forall|a: int, b: int| 0 <= a < b < m.len() implies #[trigger] m[a]
                < #[trigger] m[b] by {
                assert(m[a] == pre[a]);
                if b < pre.len() {
                    assert(m[b] == pre[b]);
                } else {
                    assert(m[b] == recs.len() - 1);
                    assert(pre[a] < recs.drop_last().len());
                }
            }
        } else {
            assert(m == pre);
            assert forall|a: int| 0 <= a < m.len() implies 0 <= #[trigger] m[a] < recs.len() by {
                assert(m[a] == pre[a]);
            }
        }
    } else {
        assert(match_indices(recs, upq).len() == 0);
    }
}

proof fn lemma_match_indices_prefix(recs: Seq<UnicodeData>, upq: Seq<char>, i: int)
    requires
        0 <= i <= recs.len(),
    ensures
        match_indices(recs.take(i), upq).len() <= match_indices(recs, upq).len(),
        match_indices(recs.take(i), upq) == match_indices(recs, upq).take(
            match_indices(recs.take(i), upq).len() as int,
        ),
    decreases recs.len(),
{
    let pre = match_indices(recs.take(i), upq);
    if i == recs.len() {
        assert(recs.take(i) =~= recs);
        assert(match_indices(recs, upq).take(match_indices(recs, upq).len() as int)
            =~= match_indices(recs, upq));
    } else {
        assert(recs.take(i) =~= recs.drop_last().take(i));
        lemma_match_indices_prefix(recs.drop_last(), upq, i);
        let md = match_indices(recs.drop_last(), upq);
        if query_matches(upq, recs.last().name@) {
            assert(match_indices(recs, upq) == md.push(recs.len() - 1));
        }
        assert(pre =~= match_indices(recs, upq).take(pre.len() as int));
    }
}

/// All records whose name matches the query, case-folded to upper case:
/// a delimited query that compiles matches as a regular expression, any
/// other query as a literal substring (so a broken pattern falls back, and
/// the empty query matches everything). Scanned in table order and cut off
/// after `max_results` hits.
#[verifier::loop_isolation(false)]
pub fn query_name(name: String, unicode_file: &UnicodeFile, max_results: usize) -> (r: Vec<
    usize,
>)
    ensures
        r@.map_values(|u: usize| u as int) == query_results(
            unicode_file.records@,
            upper_of(name@),
            max_results as nat,
        ),
        forall|k: int| 0 <= k < r@.len() ==> #[trigger] r@[k] < unicode_file.records@.len(),
{
    let ghost upq = upper_of(name@);
    let ghost recs = unicode_file.records@;
    let up = to_upper(name.as_str());
    let upc = chars_of(up.as_str());
    let mut compiled: Option<regex::Regex> = None;
    match find_delim(&upc) {
        Some(k) => {
            let pat = up.as_str().substring_char(1, k);
            proof {
                assert(pat@ == delim_inner(upq));
            }
            compiled = regex_new(pat);
        },
        None => {},
    }
    proof {
        assert(compiled is Some <==> is_delim(upq) && regex_compiles(delim_inner(upq)));
        assert(compiled matches Some(re) ==> pattern_of(re) == delim_inner(upq));
    }
    let n = unicode_file.records.len();
    let mut r: Vec<usize> = Vec::new();
    let mut i: usize = 0;
    proof {
        assert(recs.take(0) =~= Seq::<UnicodeData>::empty());
        assert(r@.map_values(|u: usize| u as int) =~= match_indices(recs.take(0), upq));
    }
    while i < n && r.len() < max_results
        invariant
            i <= n,
            r@.map_values(|u: usize| u as int) == match_indices(recs.take(i as int), upq),
            r@.len() <= max_results,
            forall|k: int| 0 <= k < r@.len() ==> #[trigger] r@[k] < n,
        decreases n - i,
    {
        let is_m = match &compiled {
            Some(re) => regex_is_match(re, unicode_file.records[i].name.as_str()),
            None => {
                let nm = chars_of(unicode_file.records[i].name.as_str());
                contains_chars(&nm, &upc)
            },
        };
        proof {
            assert(is_m == query_matches(upq, recs[i as int].name@));
            assert(recs.take(i + 1).drop_last() =~= recs.take(i as int));
            assert(recs.take(i + 1).last() == recs[i as int]);
        }
        if is_m {
            r.push(i);
        }
        proof {
            assert(r@.map_values(|u: usize| u as int) =~= match_indices(recs.take(i + 1), upq));
        }
        i = i + 1;
    }
    proof {
        let mfull = match_indices(recs, upq);
        lemma_match_indices_prefix(recs, upq, i as int);
        if i == n {
            assert(recs.take(i as int) =~= recs);
            assert(r@.map_values(|u: usize| u as int) =~= query_results(
                recs,
                upq,
                max_results as nat,
            ));
        } else {
            assert(r@.len() == max_results);
            assert(match_indices(recs.take(i as int), upq) =~= mfull.take(max_results as int));
            assert(mfull.len() > max_results || mfull.len() == max_results);
            assert(r@.map_values(|u: usize| u as int) =~= query_results(
                recs,
                upq,
                max_results as nat,
            ));
        }
    }
    r
}

// ---------------------------------------------------------------------------
// Laws of the engine.
// ---------------------------------------------------------------------------

/// Law: for every query and every cap, the engine's result list is strictly
/// ascending by codepoint, because matches are collected along the
/// ascending walk of the table.
pub proof fn lemma_results_ascending(
    recs: Seq<UnicodeData>,
    upq: Seq<char>,
    cap: nat,
    a: int,
    b: int,
)
    requires
        cps_sorted(recs_codepoints(recs)),
        0 <= a < b < query_results(recs, upq, cap).len(),
    ensures
        recs[query_results(recs, upq, cap)[a]].codepoint < recs[query_results(
            recs,
            upq,
            cap,
        )[b]].codepoint,
{
    lemma_match_indices_bounds(recs, upq);
    let res = query_results(recs, upq, cap);
    let m = match_indices(recs, upq);
    assert(res[a] == m[a] && res[b] == m[b]);
    assert(0 <= m[a] < m[b] < recs.len());
    lemma_cps_sorted_total(recs_codepoints(recs), m[a], m[b]);
    assert(recs_codepoints(recs)[m[a]] == recs[m[a]].codepoint);
    assert(recs_codepoints(recs)[m[b]] == recs[m[b]].codepoint);
}

/// Law: rerunning a query against an unchanged table yields the same
/// ordered, truncated result list; the results are a function of the table,
/// the folded query and the cap alone.
pub proof fn lemma_query_deterministic(
    recs: Seq<UnicodeData>,
    upq: Seq<char>,
    cap: nat,
    r1: Seq<int>,
    r2: Seq<int>,
)
    requires
        r1 == query_results(recs, upq, cap),
        r2 == query_results(recs, upq, cap),
    ensures
        r1 == r2,
{
}

} // verus!
