use vstd::prelude::*;

use crate::text::{chars_of, lower_of, lowercase};

verus! {

/// `q` is the start of `t`.
pub open spec fn is_prefix(q: Seq<char>, t: Seq<char>) -> bool {
    q.len() <= t.len() && t.take(q.len() as int) == q
}

/// `q` stands in `t` starting at position `k`.
pub open spec fn occurs_at(q: Seq<char>, t: Seq<char>, k: int) -> bool {
    0 <= k && k + q.len() <= t.len() && t.subrange(k, k + q.len()) == q
}

/// `q` stands somewhere in `t` as a contiguous run.
pub open spec fn contains(t: Seq<char>, q: Seq<char>) -> bool {
    exists|k: int| occurs_at(q, t, k)
}

/// The characters of `q` appear in `t` in the same order, not necessarily
/// next to each other.
pub open spec fn is_subsequence(q: Seq<char>, t: Seq<char>) -> bool
    decreases t.len(),
{
    if q.len() == 0 {
        true
    } else if t.len() == 0 {
        false
    } else if t[0] == q[0] {
        is_subsequence(q.drop_first(), t.drop_first())
    } else {
        is_subsequence(q, t.drop_first())
    }
}

pub const EXACT_SCORE: u128 = 1000;

pub const PREFIX_BASE: u128 = 500;

pub const PREFIX_PER_BYTE: u128 = 10;

pub const CONTAINS_BASE: u128 = 100;

pub const CONTAINS_PER_BYTE: u128 = 5;

/// The score of a lower-cased project name against a lower-cased query whose
/// original text is `qlen` bytes long; zero means no match.
pub open spec fn match_score(name: Seq<char>, query: Seq<char>, qlen: nat) -> nat {
    if name == query {
        EXACT_SCORE as nat
    } else if is_prefix(query, name) {
        (PREFIX_BASE + PREFIX_PER_BYTE * qlen) as nat
    } else if contains(name, query) {
        (CONTAINS_BASE + CONTAINS_PER_BYTE * qlen) as nat
    } else if is_subsequence(query, name) {
        query.len()
    } else {
        0
    }
}

/// For one query, an exact name outranks a name that begins with the query,
/// which outranks one that contains it elsewhere, which outranks one that the
/// query is only scattered through. This needs a query short enough that a
/// prefix score stays under the exact score, and whose lower-case form is
/// shorter than a contained match's score.
pub proof fn lemma_match_tiers(
    exact: Seq<char>,
    prefixed: Seq<char>,
    containing: Seq<char>,
    scattered: Seq<char>,
    query: Seq<char>,
    qlen: nat,
)
    requires
        exact == query,
        prefixed != query,
        is_prefix(query, prefixed),
        containing != query,
        !is_prefix(query, containing),
        contains(containing, query),
        scattered != query,
        !is_prefix(query, scattered),
        !contains(scattered, query),
        is_subsequence(query, scattered),
        PREFIX_BASE + PREFIX_PER_BYTE * qlen < EXACT_SCORE,
        query.len() < CONTAINS_BASE + CONTAINS_PER_BYTE * qlen,
    ensures
        match_score(exact, query, qlen) > match_score(prefixed, query, qlen),
        match_score(prefixed, query, qlen) > match_score(containing, query, qlen),
        match_score(containing, query, qlen) > match_score(scattered, query, qlen),
{
}

/// Whether `q` stands in `t` at position `k`.
fn matches_at(q: &Vec<char>, t: &Vec<char>, k: usize) -> (r: bool)
    requires
        k + q@.len() <= t@.len(),
    ensures
        r == occurs_at(q@, t@, k as int),
{
    let tl = t.len();
    let mut i: usize = 0;
    while i < q.len()
        invariant
            i <= q@.len(),
            tl == t@.len(),
            k + q@.len() <= t@.len(),
            forall|j: int| 0 <= j < i ==> t@[k + j] == q@[j],
        decreases q@.len() - i,
    {
        if t[k + i] != q[i] {
            assert(t@.subrange(k as int, k + q@.len())[i as int] != q@[i as int]);
            return false;
        }
        i = i + 1;
    }
    assert(t@.subrange(k as int, k + q@.len()) =~= q@);
    true
}

fn same_chars(a: &Vec<char>, b: &Vec<char>) -> (r: bool)
    ensures
        r == (a@ == b@),
{
    if a.len() != b.len() {
        return false;
    }
    let r = matches_at(a, b, 0);
    assert(b@.subrange(0, a@.len() as int) =~= b@);
    r
}

fn starts_with(t: &Vec<char>, q: &Vec<char>) -> (r: bool)
    ensures
        r == is_prefix(q@, t@),
{
    if q.len() > t.len() {
        return false;
    }
    let r = matches_at(q, t, 0);
    assert(t@.take(q@.len() as int) =~= t@.subrange(0, q@.len() as int));
    r
}

fn contains_run(t: &Vec<char>, q: &Vec<char>) -> (r: bool)
    ensures
        r == contains(t@, q@),
{
    if q.len() > t.len() {
        return false;
    }
    let last = t.len() - q.len();
    let mut k: usize = 0;
    loop
        invariant
            last == t@.len() - q@.len(),
            k <= last,
            forall|j: int| 0 <= j < k ==> !occurs_at(q@, t@, j),
        ensures
            forall|j: int| 0 <= j <= last ==> !occurs_at(q@, t@, j),
        decreases last - k,
    {
        if matches_at(q, t, k) {
            return true;
        }
        if k == last {
            break;
        }
        k = k + 1;
    }
    assert forall|j: int| !occurs_at(q@, t@, j) by {
        if 0 <= j <= last {
        }
    }
    false
}

fn subsequence(q: &Vec<char>, t: &Vec<char>) -> (r: bool)
    ensures
        r == is_subsequence(q@, t@),
{
    let mut i: usize = 0;
    let mut j: usize = 0;
    assert(q@.skip(0) =~= q@);
    assert(t@.skip(0) =~= t@);
    while i < t.len()
        invariant
            i <= t@.len(),
            j <= q@.len(),
            is_subsequence(q@, t@) == is_subsequence(q@.skip(j as int), t@.skip(i as int)),
        decreases t@.len() - i,
    {
        assert(t@.skip(i as int).drop_first() =~= t@.skip(i + 1));
        if j < q.len() && t[i] == q[j] {
            assert(q@.skip(j as int).drop_first() =~= q@.skip(j + 1));
            j = j + 1;
        }
        i = i + 1;
    }
    assert(t@.skip(i as int).len() == 0);
    j == q.len()
}

/// The score of a name against a query, both already lower-cased; `qlen`
/// is the byte length of the query as the user wrote it.
pub fn score_lowered(name: &Vec<char>, query: &Vec<char>, qlen: usize) -> (r: u128)
    ensures
        r == match_score(name@, query@, qlen as nat),
{
    if same_chars(name, query) {
        EXACT_SCORE
    } else if starts_with(name, query) {
        PREFIX_BASE + PREFIX_PER_BYTE * (qlen as u128)
    } else if contains_run(name, query) {
        CONTAINS_BASE + CONTAINS_PER_BYTE * (qlen as u128)
    } else if subsequence(query, name) {
        query.len() as u128
    } else {
        0
    }
}

/// The score of `project_name` against `query`, compared without regard to
/// case.
pub fn calculate_match_score(project_name: &str, query: &str) -> (r: u128)
    ensures
        r == match_score(lower_of(project_name@), lower_of(query@), query.len() as nat),
{
    let name_lower = lowercase(project_name);
    let query_lower = lowercase(query);
    let name_chars = chars_of(name_lower.as_str());
    let query_chars = chars_of(query_lower.as_str());
    score_lowered(&name_chars, &query_chars, query.len())
}

} // verus!
