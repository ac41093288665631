use vstd::prelude::*;

use crate::config::texts;
use crate::score::{calculate_match_score, match_score, EXACT_SCORE, PREFIX_BASE, PREFIX_PER_BYTE};
use crate::text::{get_project_name, lower_of, parse_index, parsed_index, project_name};

verus! {

/// The most candidates listed when a query is ambiguous.
pub const MAX_LISTED: usize = 5;

/// A saved path that matched a query, with its position in the list.
pub struct MatchCandidate {
    pub index: usize,
    pub path: String,
    pub score: u128,
}

/// What a query resolves to.
pub enum ResolveResult {
    /// The query named a position in the list.
    DirectIndex(String),
    /// The query was a number past the end of the list.
    IndexOutOfRange(usize),
    /// The query was empty, which matches nothing by policy.
    EmptyQuery,
    /// One path scored higher than every other.
    Unique(String),
    /// Several paths share the top score: the best ones, best first.
    Ambiguous(Vec<MatchCandidate>),
    /// No path matched at all.
    NotFound,
}

/// The score of the path at `k` against query `q`, `qlen` bytes long.
pub open spec fn score_at(ps: Seq<Seq<char>>, q: Seq<char>, qlen: nat, k: int) -> nat {
    match_score(lower_of(project_name(ps[k])), lower_of(q), qlen)
}

/// The scores of all paths against a query.
pub open spec fn scores_of(ps: Seq<Seq<char>>, q: Seq<char>, qlen: nat) -> Seq<nat> {
    Seq::new(ps.len(), |k: int| score_at(ps, q, qlen, k))
}

/// Higher scores rank first; among equal scores, the earlier position.
pub open spec fn ranks_before(s1: int, i1: int, s2: int, i2: int) -> bool {
    s1 > s2 || (s1 == s2 && i1 < i2)
}

/// `c` is the path at its index, with that path's positive score.
pub open spec fn is_candidate(ps: Seq<Seq<char>>, sc: Seq<nat>, c: MatchCandidate) -> bool {
    &&& c.index < ps.len()
    &&& sc.len() == ps.len()
    &&& c.path@ == ps[c.index as int]
    &&& c.score == sc[c.index as int]
    &&& c.score > 0
}

/// `v` lists the best-ranked candidates, best first: all of them, or the first
/// `MAX_LISTED` where there are more.
pub open spec fn is_ranking(ps: Seq<Seq<char>>, sc: Seq<nat>, v: Seq<MatchCandidate>) -> bool {
    &&& v.len() <= MAX_LISTED
    &&& forall|t: int| 0 <= t < v.len() ==> is_candidate(ps, sc, #[trigger] v[t])
    &&& forall|t: int, u: int|
        0 <= t < u < v.len() ==> ranks_before(
            v[t].score as int,
            v[t].index as int,
            v[u].score as int,
            v[u].index as int,
        )
    &&& forall|k: int|
        0 <= k < sc.len() && sc[k] > 0 && (forall|t: int| 0 <= t < v.len() ==> v[t].index != k)
            ==> v.len() == MAX_LISTED && ranks_before(
            v[MAX_LISTED - 1].score as int,
            v[MAX_LISTED - 1].index as int,
            sc[k] as int,
            k,
        )
}

/// The path at `i` scores above zero and above every other path.
pub open spec fn unique_top(sc: Seq<nat>, i: int) -> bool {
    &&& 0 <= i < sc.len()
    &&& sc[i] > 0
    &&& forall|k: int| 0 <= k < sc.len() && k != i ==> sc[k] < sc[i]
}

/// The outcome of text matching, given each path's score.
pub open spec fn ranked_outcome(ps: Seq<Seq<char>>, sc: Seq<nat>, r: ResolveResult) -> bool {
    if forall|k: int| 0 <= k < sc.len() ==> sc[k] == 0 {
        r is NotFound
    } else if exists|i: int| unique_top(sc, i) {
        r matches ResolveResult::Unique(p) && exists|i: int| unique_top(sc, i) && p@ == ps[i]
    } else {
        r matches ResolveResult::Ambiguous(v) && is_ranking(ps, sc, v@)
    }
}

/// What query `q`, `qlen` bytes long, resolves to among the paths `ps`.
pub open spec fn resolves_to(ps: Seq<Seq<char>>, q: Seq<char>, qlen: nat, r: ResolveResult) -> bool {
    match parsed_index(q) {
        Some(i) => if i < ps.len() {
            r matches ResolveResult::DirectIndex(p) && p@ == ps[i as int]
        } else {
            r matches ResolveResult::IndexOutOfRange(j) && j == i
        },
        None => if q.len() == 0 {
            r is EmptyQuery
        } else {
            ranked_outcome(ps, scores_of(ps, q, qlen), r)
        },
    }
}

/// A query that names a position in the list resolves to the path there,
/// whatever the project names are.
pub proof fn lemma_index_wins(ps: Seq<Seq<char>>, q: Seq<char>, qlen: nat, r: ResolveResult)
    requires
        resolves_to(ps, q, qlen, r),
        parsed_index(q) is Some,
        parsed_index(q)->0 < ps.len(),
    ensures
        r matches ResolveResult::DirectIndex(p) && p@ == ps[parsed_index(q)->0 as int],
{
}

/// A query that is not an index and equals, without regard to case, the
/// project name of exactly one path resolves to that path alone. This needs a
/// query short enough that no prefix match and no scattered match can reach
/// the exact score.
pub proof fn lemma_exact_name_is_unique(
    ps: Seq<Seq<char>>,
    q: Seq<char>,
    qlen: nat,
    i: int,
    r: ResolveResult,
)
    requires
        resolves_to(ps, q, qlen, r),
        q.len() > 0,
        parsed_index(q) is None,
        0 <= i < ps.len(),
        lower_of(project_name(ps[i])) == lower_of(q),
        forall|k: int| 0 <= k < ps.len() && k != i ==> lower_of(project_name(ps[k])) != lower_of(q),
        PREFIX_BASE + PREFIX_PER_BYTE * qlen < EXACT_SCORE,
        lower_of(q).len() < EXACT_SCORE,
    ensures
        r matches ResolveResult::Unique(p) && p@ == ps[i],
{
    let sc = scores_of(ps, q, qlen);
    assert(sc[i] == EXACT_SCORE);
    assert forall|k: int| 0 <= k < sc.len() && k != i implies sc[k] < sc[i] by {
        assert(sc[k] == score_at(ps, q, qlen, k));
    }
    assert(unique_top(sc, i));
    assert(sc[i] != 0);
    if let ResolveResult::Unique(p) = r {
        let j = choose|j: int| unique_top(sc, j) && p@ == ps[j];
        if j != i {
            assert(sc[i] < sc[j]);
            assert(sc[j] < sc[i]);
        }
    }
}

/// The best candidate that ranks after `last` (or the best of all), if any.
fn next_best(scores: &Vec<u128>, last: Option<(u128, usize)>) -> (r: Option<usize>)
    ensures
        r matches Some(f) ==> f < scores@.len() && scores@[f as int] > 0 && (last matches Some(
            l,
        ) ==> ranks_before(l.0 as int, l.1 as int, scores@[f as int] as int, f as int)),
        r matches Some(f) ==> forall|k: int|
            0 <= k < scores@.len() && k != f && scores@[k] > 0 && (last matches Some(l)
                ==> ranks_before(l.0 as int, l.1 as int, scores@[k] as int, k)) ==> ranks_before(
                scores@[f as int] as int,
                f as int,
                scores@[k] as int,
                k,
            ),
        r is None ==> forall|k: int|
            0 <= k < scores@.len() && scores@[k] > 0 ==> (last matches Some(l) && !ranks_before(
                l.0 as int,
                l.1 as int,
                scores@[k] as int,
                k,
            )),
{
    let mut found: Option<usize> = None;
    let mut k: usize = 0;
    while k < scores.len()
        invariant
            k <= scores@.len(),
            found matches Some(f) ==> f < k && scores@[f as int] > 0 && (last matches Some(l)
                ==> ranks_before(l.0 as int, l.1 as int, scores@[f as int] as int, f as int)),
            found matches Some(f) ==> forall|j: int|
                0 <= j < k && j != f && scores@[j] > 0 && (last matches Some(l) ==> ranks_before(
                    l.0 as int,
                    l.1 as int,
                    scores@[j] as int,
                    j,
                )) ==> ranks_before(scores@[f as int] as int, f as int, scores@[j] as int, j),
            found is None ==> forall|j: int|
                0 <= j < k && scores@[j] > 0 ==> (last matches Some(l) && !ranks_before(
                    l.0 as int,
                    l.1 as int,
                    scores@[j] as int,
                    j,
                )),
        decreases scores@.len() - k,
    {
        let s = scores[k];
        let eligible = s > 0 && match last {
            Some(l) => l.0 > s || (l.0 == s && l.1 < k),
            None => true,
        };
        if eligible {
            match found {
                Some(f) => {
                    if s > scores[f] {
                        found = Some(k);
                    }
                },
                None => {
                    found = Some(k);
                },
            }
        }
        k = k + 1;
    }
    found
}

/// Decides among the paths by their scores, already computed.
pub fn resolve_scored(paths: &Vec<String>, scores: &Vec<u128>) -> (r: ResolveResult)
    requires
        scores@.len() == paths@.len(),
    ensures
        ranked_outcome(texts(paths@), scores@.map_values(|s: u128| s as nat), r),
{
    let ghost ps = texts(paths@);
    let ghost sc = scores@.map_values(|s: u128| s as nat);
    let n = scores.len();
    let mut best: u128 = 0;
    let mut best_idx: usize = 0;
    let mut tied = false;
    let mut i: usize = 0;
    while i < n
        invariant
            n == scores@.len(),
            i <= n,
            forall|k: int| 0 <= k < i ==> scores@[k] <= best,
            best > 0 ==> best_idx < i && scores@[best_idx as int] == best,
            best > 0 ==> (tied <==> exists|k: int|
                0 <= k < i && k != best_idx && scores@[k] == best),
        decreases n - i,
    {
        let s = scores[i];
        if s > best {
            best = s;
            best_idx = i;
            tied = false;
        } else if s == best && s > 0 {
            tied = true;
            assert(scores@[i as int] == best);
        }
        i = i + 1;
    }
    if best == 0 {
        assert(forall|k: int| 0 <= k < sc.len() ==> sc[k] == 0);
        return ResolveResult::NotFound;
    }
    assert(sc[best_idx as int] > 0);
    if !tied {
        assert(unique_top(sc, best_idx as int));
        return ResolveResult::Unique(paths[best_idx].clone());
    }
    assert forall|i: int| !unique_top(sc, i) by {
        let k = choose|k: int| 0 <= k < n && k != best_idx && scores@[k] == best;
        if unique_top(sc, i) {
            if i == best_idx {
                assert(sc[k] < sc[i]);
            } else {
                assert(sc[best_idx as int] < sc[i]);
            }
        }
    }
    let mut out: Vec<MatchCandidate> = Vec::new();
    let mut last: Option<(u128, usize)> = None;
    while out.len() < MAX_LISTED
        invariant
            n == scores@.len(),
            n == paths@.len(),
            ps == texts(paths@),
            sc == scores@.map_values(|s: u128| s as nat),
            out@.len() <= MAX_LISTED,
            last is None <==> out@.len() == 0,
            last matches Some(l) ==> l.0 == out@.last().score && l.1 == out@.last().index,
            forall|t: int| 0 <= t < out@.len() ==> is_candidate(ps, sc, #[trigger] out@[t]),
            forall|t: int, u: int|
                0 <= t < u < out@.len() ==> ranks_before(
                    out@[t].score as int,
                    out@[t].index as int,
                    out@[u].score as int,
                    out@[u].index as int,
                ),
            forall|k: int|
                0 <= k < n && scores@[k] > 0 && (forall|t: int|
                    0 <= t < out@.len() ==> out@[t].index != k) && out@.len() > 0
                    ==> ranks_before(
                    out@.last().score as int,
                    out@.last().index as int,
                    scores@[k] as int,
                    k,
                ),
        ensures
            is_ranking(ps, sc, out@),
        decreases MAX_LISTED - out@.len(),
    {
        match next_best(scores, last) {
            Some(f) => {
                let ghost prev = out@;
                let c = MatchCandidate { index: f, path: paths[f].clone(), score: scores[f] };
                out.push(c);
                last = Some((scores[f], f));
                proof {
                    assert(out@.last() == out@[prev.len() as int]);
                    assert forall|t: int, u: int| 0 <= t < u < out@.len() implies ranks_before(
                        out@[t].score as int,
                        out@[t].index as int,
                        out@[u].score as int,
                        out@[u].index as int,
                    ) by {
                        assert(out@[t] == prev[t] || t == prev.len());
                        if u == prev.len() && t < prev.len() - 1 {
                            assert(ranks_before(
                                prev[t].score as int,
                                prev[t].index as int,
                                prev.last().score as int,
                                prev.last().index as int,
                            ));
                        }
                    }
                    assert forall|k: int|
                        0 <= k < n && scores@[k] > 0 && (forall|t: int|
                            0 <= t < out@.len() ==> out@[t].index != k) && out@.len() > 0
                        implies ranks_before(
                        out@.last().score as int,
                        out@.last().index as int,
                        scores@[k] as int,
                        k,
                    ) by {
                        assert(out@[prev.len() as int].index != k);
                        assert forall|t: int| 0 <= t < prev.len() implies prev[t].index != k by {
                            assert(out@[t] == prev[t]);
                        }
                    }
                }
            },
            None => {
                break;
            },
        }
    }
    ResolveResult::Ambiguous(out)
}

/// Resolves `query` against the listed paths: a number picks a position, any
/// other text is matched against each path's project name.
pub fn resolve(paths: &Vec<String>, query: &str) -> (r: ResolveResult)
    ensures
        resolves_to(texts(paths@), query@, query.len() as nat, r),
{
    match parse_index(query) {
        Some(i) => {
            if i < paths.len() {
                return ResolveResult::DirectIndex(paths[i].clone());
            } else {
                return ResolveResult::IndexOutOfRange(i);
            }
        },
        None => {},
    }
    if query.is_empty() {
        return ResolveResult::EmptyQuery;
    }
    let ghost ps = texts(paths@);
    let mut scores: Vec<u128> = Vec::new();
    let mut k: usize = 0;
    while k < paths.len()
        invariant
            k <= paths@.len(),
            ps == texts(paths@),
            scores@.len() == k,
            forall|j: int| 0 <= j < k ==> scores@[j] as nat == score_at(ps, query@, query.len() as nat, j),
        decreases paths@.len() - k,
    {
        let name = get_project_name(paths[k].as_str());
        let s = calculate_match_score(name.as_str(), query);
        scores.push(s);
        k = k + 1;
    }
    assert(scores@.map_values(|s: u128| s as nat) =~= scores_of(ps, query@, query.len() as nat));
    resolve_scored(paths, &scores)
}

} // verus!
