//! Title matching: prefix-scoped fuzzy comparison of a tracker query title
//! against a streamer series title, and the air-date window policy used to
//! pick a season.
//!
//! A candidate series title is accepted when, after normalization, it is
//! nonempty, no longer than the query, and its edit distance to the query's
//! prefix of the same length is at most 12.5% of its length.

use vstd::prelude::*;
use crate::text::norm_spec;
use crate::text::normalize;
use crate::text::all_wsp;
use crate::text::case_eq;
use crate::text::trim_wsp;
use crate::text::lemma_norm_trailing_wsp;
use crate::text::lemma_norm_case;

verus! {

/// The Levenshtein edit distance: the least number of single-character
/// insertions, deletions and substitutions that turns `a` into `b`.
pub open spec fn lev_dist(a: Seq<char>, b: Seq<char>) -> nat
    decreases a.len(), b.len(),
{
    if a.len() == 0 {
        b.len()
    } else if b.len() == 0 {
        a.len()
    } else {
        let subst: nat = if a.last() == b.last() {
            lev_dist(a.drop_last(), b.drop_last())
        } else {
            lev_dist(a.drop_last(), b.drop_last()) + 1
        };
        let del: nat = lev_dist(a.drop_last(), b) + 1;
        let ins: nat = lev_dist(a, b.drop_last()) + 1;
        if subst <= del && subst <= ins {
            subst
        } else if del <= ins {
            del
        } else {
            ins
        }
    }
}

/// Relies on `levenshtein::levenshtein`: the Levenshtein edit distance over
/// the characters of the two strings.
#[verifier::external_body]
fn edit_distance(a: &Vec<char>, b: &Vec<char>) -> (r: usize)
    ensures
        r == lev_dist(a@, b@),
{
    let sa: String = a.iter().collect();
    let sb: String = b.iter().collect();
    levenshtein::levenshtein(&sa, &sb)
}

/// Series acceptance over normalized titles: the candidate `c` must be
/// nonempty, no longer than the query `q`, and appear as a near-prefix of
/// `q`: the edit distance between `c` and the prefix of `q` of `c`'s length
/// is at most 12.5% of `c`'s length.
pub open spec fn accept_spec(q: Seq<char>, c: Seq<char>) -> bool {
    &&& c.len() > 0
    &&& q.len() >= c.len()
    &&& 8 * lev_dist(c, q.take(c.len() as int)) <= c.len()
}

/// The prefix-scoped distance of a candidate against a query, both already
/// normalized: the edit distance between the candidate and the query's
/// prefix of the candidate's length. Nothing when the candidate is empty or
/// longer than the query, which the near-prefix rule rejects outright.
pub fn match_distance_normalized(qn: &Vec<char>, cn: &Vec<char>) -> (r: Option<usize>)
    ensures
        r is Some <==> cn@.len() > 0 && qn@.len() >= cn@.len(),
        r matches Some(d) ==> d == lev_dist(cn@, qn@.take(cn@.len() as int)),
{
    let n = cn.len();
    if n == 0 || qn.len() < n {
        return None;
    }
    let mut prefix: Vec<char> = Vec::new();
    let mut i: usize = 0;
    while i < n
        invariant
            i <= n <= qn@.len(),
            prefix@ == qn@.take(i as int),
        decreases n - i,
    {
        prefix.push(qn[i]);
        i = i + 1;
        assert(prefix@ =~= qn@.take(i as int));
    }
    Some(edit_distance(cn, &prefix))
}

/// Series acceptance over already-normalized titles.
pub fn accept_series_normalized(qn: &Vec<char>, cn: &Vec<char>) -> (r: bool)
    ensures
        r == accept_spec(qn@, cn@),
{
    let n = cn.len();
    match match_distance_normalized(qn, cn) {
        None => false,
        Some(d) => {
            let r = d <= n / 8;
            proof {
                assert(8 * (n as int / 8) <= n as int) by (nonlinear_arith);
                assert(r == (8 * lev_dist(cn@, qn@.take(n as int)) <= n as int))
                    by (nonlinear_arith)
                    requires
                        r == (d <= n / 8),
                        d == lev_dist(cn@, qn@.take(n as int)),
                        8 * (n as int / 8) <= n as int,
                        n as int / 8 >= 0,
                ;
            }
            r
        },
    }
}

/// The prefix-scoped distance and the normalized candidate length for raw
/// titles, for diagnostics: the caller can report how close a candidate came
/// to the query. Nothing when the near-prefix rule rejects the pair outright
/// by its lengths.
pub fn match_score(query: &str, candidate: &str) -> (r: Option<(usize, usize)>)
    ensures
        r is Some <==> norm_spec(candidate@).len() > 0 && norm_spec(query@).len() >= norm_spec(
            candidate@,
        ).len(),
        r matches Some(p) ==> p.0 == lev_dist(
            norm_spec(candidate@),
            norm_spec(query@).take(norm_spec(candidate@).len() as int),
        ) && p.1 == norm_spec(candidate@).len(),
{
    let qn = normalize(query);
    let cn = normalize(candidate);
    let n = cn.len();
    match match_distance_normalized(&qn, &cn) {
        None => None,
        Some(d) => Some((d, n)),
    }
}

/// Series acceptance for raw titles: both are normalized, then the
/// near-prefix rule is applied.
pub fn accept_series(query: &str, candidate: &str) -> (r: bool)
    ensures
        r == accept_spec(norm_spec(query@), norm_spec(candidate@)),
{
    let qn = normalize(query);
    let cn = normalize(candidate);
    accept_series_normalized(&qn, &cn)
}

/// Series acceptance is insensitive to trailing whitespace and to letter
/// case of its inputs: a query and a candidate that differ from another pair
/// only by trailing whitespace, and by case — the lowercase mapping
/// identifies their trimmed forms — are accepted exactly alike.
pub proof fn lemma_accept_series_insensitive(
    q1: Seq<char>,
    qb: Seq<char>,
    wq: Seq<char>,
    c1: Seq<char>,
    cb: Seq<char>,
    wc: Seq<char>,
)
    requires
        case_eq(trim_wsp(q1), trim_wsp(qb)),
        all_wsp(wq),
        case_eq(trim_wsp(c1), trim_wsp(cb)),
        all_wsp(wc),
    ensures
        accept_spec(norm_spec(qb + wq), norm_spec(cb + wc)) == accept_spec(
            norm_spec(q1),
            norm_spec(c1),
        ),
{
    lemma_norm_trailing_wsp(qb, wq);
    lemma_norm_case(q1, qb);
    lemma_norm_trailing_wsp(cb, wc);
    lemma_norm_case(c1, cb);
}

/// The outcome of walking one season's episodes against a query air date.
#[derive(Clone, Copy, PartialEq, Eq, Structural, Debug)]
pub enum SeasonScan {
    /// An episode airs within the window around the query date.
    Accept,
    /// No episode decides; the season is not a match.
    Reject,
    /// An episode airs past the window: the whole series is abandoned,
    /// since later seasons air later still.
    AbandonSeries,
}

/// The policy tolerance, in days, for the air-date discrepancy between the
/// two services.
pub const DATE_WINDOW_DAYS: i64 = 60;

/// The season scan over episode air days, oldest first, against query day
/// `d`: the first episode within `DATE_WINDOW_DAYS` of `d` (bounds included)
/// accepts the season; an episode strictly past `d + DATE_WINDOW_DAYS`
/// abandons the series; a walk that ends undecided rejects the season.
pub open spec fn scan_spec(days: Seq<int>, d: int) -> SeasonScan
    decreases days.len(),
{
    if days.len() == 0 {
        SeasonScan::Reject
    } else if -(DATE_WINDOW_DAYS as int) <= days[0] - d <= DATE_WINDOW_DAYS as int {
        SeasonScan::Accept
    } else if days[0] > d + DATE_WINDOW_DAYS as int {
        SeasonScan::AbandonSeries
    } else {
        scan_spec(days.drop_first(), d)
    }
}

} // verus!
