//! Choosing the suggestion for the line being typed.
//!
//! Scopes are searched in order: the current directory, then its parents
//! (nearest first), then the whole history. Within a scope the newest
//! exact-case prefix match wins, falling back to the newest case-insensitive
//! one; a candidate whose recorded files are gone is skipped.

use vstd::prelude::*;
use crate::clock;
use crate::db::{self, StoreError};
use crate::paths;
use crate::text::{
    chars_of, is_blank, is_blank_text, normalize_dir, normalized_dir, same_text, string_views,
};

verus! {

/// The most candidates looked at per scope and case mode.
pub const CANDIDATE_LIMIT: usize = 10;

/// Virtual-machine steps between two checks of the deadline while a query
/// runs.
pub const PROGRESS_OPS: i32 = 100_000;

/// The parent of a path as `std::path::Path::parent` computes it.
pub uninterp spec fn path_parent_of(path: Seq<char>) -> Option<Seq<char>>;

/// The parent directory of `path` (`std::path::Path::parent`): the path
/// without its final component, `None` for a root or the empty path. The
/// parent is shorter than the path.
#[verifier::external_body]
fn parent_dir(path: &str) -> (r: Option<String>)
    ensures
        match r {
            Some(p) => path_parent_of(path@) == Some(p@) && p@.len() < path@.len(),
            None => path_parent_of(path@) is None,
        },
{
    std::path::Path::new(path).parent().map(|p| p.to_string_lossy().into_owned())
}

/// Whether a parent ends the walk up: the empty path or the root.
pub open spec fn ends_walk(p: Seq<char>) -> bool {
    p.len() == 0 || p == seq!['/']
}

/// The parents of `cur`, nearest first, stopping before the root, walking at
/// most `fuel` steps.
pub open spec fn ancestors_from(cur: Seq<char>, fuel: nat) -> Seq<Seq<char>>
    decreases fuel,
{
    if fuel == 0 {
        seq![]
    } else {
        match path_parent_of(cur) {
            None => seq![],
            Some(p) => if ends_walk(p) {
                seq![]
            } else {
                seq![p] + ancestors_from(p, (fuel - 1) as nat)
            },
        }
    }
}

/// The parent directories of `cwd` (trailing slashes ignored), nearest first,
/// without the root.
pub open spec fn ancestors_spec(cwd: Seq<char>) -> Seq<Seq<char>> {
    ancestors_from(normalized_dir(cwd), normalized_dir(cwd).len())
}

proof fn lemma_ancestors_from_no_root(cur: Seq<char>, fuel: nat)
    ensures
        forall|k: int|
            0 <= k < ancestors_from(cur, fuel).len() ==> !ends_walk(
                #[trigger] ancestors_from(cur, fuel)[k],
            ),
    decreases fuel,
{
    if fuel > 0 {
        if let Some(p) = path_parent_of(cur) {
            if !ends_walk(p) {
                lemma_ancestors_from_no_root(p, (fuel - 1) as nat);
                let rest = ancestors_from(p, (fuel - 1) as nat);
                assert forall|k: int|
                    0 <= k < ancestors_from(cur, fuel).len() implies !ends_walk(
                    #[trigger] ancestors_from(cur, fuel)[k],
                ) by {
                    if k > 0 {
                        assert(ancestors_from(cur, fuel)[k] == rest[k - 1]);
                    }
                }
            }
        }
    }
}

/// Lists the parent directories of `cwd`, nearest first; the root itself is
/// not included, and trailing slashes are ignored (`/a/b/` and `/a/b` have
/// the same parents).
pub fn ancestors(cwd: &str) -> (r: Vec<String>)
    ensures
        string_views(r@) == ancestors_spec(cwd@),
        forall|k: int| 0 <= k < r@.len() ==> !ends_walk(#[trigger] r@[k]@),
{
    let start = normalize_dir(cwd);
    let ghost total = ancestors_from(start@, start@.len());
    let mut out: Vec<String> = Vec::new();
    let mut cur = start;
    let ghost mut fuel: nat = cur@.len();
    loop
        invariant
            string_views(out@) + ancestors_from(cur@, fuel) == total,
            fuel >= cur@.len(),
        ensures
            string_views(out@) == total,
        decreases cur@.len(),
    {
        match parent_dir(cur.as_str()) {
            None => {
                proof {
                    assert(ancestors_from(cur@, fuel) =~= Seq::<Seq<char>>::empty());
                    assert(string_views(out@) + Seq::<Seq<char>>::empty() =~= string_views(out@));
                }
                break ;
            },
            Some(p) => {
                let pc = chars_of(p.as_str());
                if pc.len() == 0 || (pc.len() == 1 && pc[0] == '/') {
                    proof {
                        if pc.len() == 1 {
                            assert(p@ =~= seq!['/']);
                        }
                        assert(ancestors_from(cur@, fuel) =~= Seq::<Seq<char>>::empty());
                        assert(string_views(out@) + Seq::<Seq<char>>::empty() =~= string_views(
                            out@,
                        ));
                    }
                    break ;
                }
                proof {
                    assert(!ends_walk(p@));
                }
                let ghost before = string_views(out@);
                let ghost rest = ancestors_from(p@, (fuel - 1) as nat);
                out.push(p.clone());
                proof {
                    assert(string_views(out@) =~= before.push(p@));
                    assert(ancestors_from(cur@, fuel) == seq![p@] + rest);
                    assert(before.push(p@) + rest =~= before + (seq![p@] + rest));
                    fuel = (fuel - 1) as nat;
                }
                cur = p;
            },
        }
    }
    proof {
        lemma_ancestors_from_no_root(start@, start@.len());
        assert forall|k: int| 0 <= k < out@.len() implies !ends_walk(#[trigger] out@[k]@) by {
            assert(string_views(out@)[k] == out@[k]@);
        }
    }
    out
}

proof fn lemma_trim_push_slash(s: Seq<char>)
    ensures
        crate::text::trim_end_slashes(s.push('/')) == crate::text::trim_end_slashes(s),
{
    assert(s.push('/').drop_last() =~= s);
}

/// A trailing slash does not change the parents of a directory.
pub proof fn ancestors_ignore_trailing_slash(cwd: Seq<char>)
    ensures
        ancestors_spec(cwd.push('/')) == ancestors_spec(cwd),
{
    lemma_trim_push_slash(cwd);
}

/// What the candidates of one scope decide.
#[derive(Debug, PartialEq, Eq)]
pub enum Outcome {
    /// Suggest this command.
    Suggest(String),
    /// A valid candidate equals the typed line: suggest nothing.
    Identical,
    /// No valid candidate: look at the next scope.
    NoMatch,
}

/// What the candidates of one scope decide, with the suggested command as a
/// sequence of characters.
pub enum Verdict {
    Suggest(Seq<char>),
    Identical,
    NoMatch,
}

/// The meaning of an `Outcome`.
pub open spec fn verdict_of(o: Outcome) -> Verdict {
    match o {
        Outcome::Suggest(s) => Verdict::Suggest(s@),
        Outcome::Identical => Verdict::Identical,
        Outcome::NoMatch => Verdict::NoMatch,
    }
}

/// The views of a list of (command, recorded paths) candidates.
pub open spec fn candidate_views(c: Seq<(String, String)>) -> Seq<(Seq<char>, Seq<char>)> {
    c.map_values(|p: (String, String)| (p.0@, p.1@))
}

proof fn lemma_ancestors_chain(cur: Seq<char>, fuel: nat)
    ensures
        ancestors_from(cur, fuel).len() > 0 ==> path_parent_of(cur) == Some(
            ancestors_from(cur, fuel)[0],
        ),
        forall|k: int|
            0 <= k < ancestors_from(cur, fuel).len() - 1 ==> path_parent_of(
                #[trigger] ancestors_from(cur, fuel)[k],
            ) == Some(ancestors_from(cur, fuel)[k + 1]),
    decreases fuel,
{
    if fuel > 0 {
        if let Some(p) = path_parent_of(cur) {
            if !ends_walk(p) {
                lemma_ancestors_chain(p, (fuel - 1) as nat);
                let a = ancestors_from(cur, fuel);
                let rest = ancestors_from(p, (fuel - 1) as nat);
                assert(a == seq![p] + rest);
                assert forall|k: int| 0 <= k < a.len() - 1 implies path_parent_of(#[trigger] a[k])
                    == Some(a[k + 1]) by {
                    if k == 0 {
                        assert(a[0] == p);
                        assert(a[1] == rest[0]);
                    } else {
                        assert(a[k] == rest[k - 1]);
                        assert(a[k + 1] == rest[k]);
                    }
                }
            }
        }
    }
}

/// The scopes of a suggestion go up from the current directory, nearest
/// first: the first is the directory itself (trailing slashes removed), each
/// next one until the last is the parent (`Path::parent`) of the one before,
/// the root is never one of them, and the last is the whole history. The
/// lookups take the scopes in that order, exact case before
/// case-insensitive within each.
pub proof fn scopes_go_up_nearest_first(cwd: Seq<char>)
    ensures
        scope_dirs(cwd).len() == ancestors_spec(cwd).len() + 2,
        scope_dirs(cwd)[0] == Some(normalized_dir(cwd)),
        scope_dirs(cwd).last() is None,
        forall|k: int|
            0 <= k < ancestors_spec(cwd).len() ==> scope_dirs(cwd)[k + 1] == Some(
                #[trigger] ancestors_spec(cwd)[k],
            ),
        ancestors_spec(cwd).len() > 0 ==> path_parent_of(normalized_dir(cwd)) == Some(
            ancestors_spec(cwd)[0],
        ),
        forall|k: int|
            0 <= k < ancestors_spec(cwd).len() - 1 ==> path_parent_of(
                #[trigger] ancestors_spec(cwd)[k],
            ) == Some(ancestors_spec(cwd)[k + 1]),
        forall|k: int|
            0 <= k < ancestors_spec(cwd).len() ==> !ends_walk(#[trigger] ancestors_spec(cwd)[k]),
        query_plan(cwd).len() == 2 * scope_dirs(cwd).len(),
        forall|s: int|
            0 <= s < scope_dirs(cwd).len() ==> query_plan(cwd)[2 * s] == (
                #[trigger] scope_dirs(cwd)[s],
                true,
            ) && query_plan(cwd)[2 * s + 1] == (scope_dirs(cwd)[s], false),
{
    let n = normalized_dir(cwd);
    lemma_ancestors_chain(n, n.len());
    lemma_ancestors_from_no_root(n, n.len());
    assert forall|s: int| 0 <= s < scope_dirs(cwd).len() implies query_plan(cwd)[2 * s] == (
        #[trigger] scope_dirs(cwd)[s],
        true,
    ) && query_plan(cwd)[2 * s + 1] == (scope_dirs(cwd)[s], false) by {
        lemma_plan_at(cwd, s);
    }
}

/// The last directory of a walk up from `cur`: the last parent found, or
/// `cur` itself when none was.
pub open spec fn walk_end(cur: Seq<char>, parents: Seq<Seq<char>>) -> Seq<char> {
    if parents.len() == 0 {
        cur
    } else {
        parents.last()
    }
}

proof fn lemma_walk_reaches_root(cur: Seq<char>, fuel: nat)
    requires
        fuel >= cur.len(),
        forall|p: Seq<char>|
            #[trigger] path_parent_of(p) is Some ==> path_parent_of(p)->0.len() < p.len(),
    ensures
        match path_parent_of(walk_end(cur, ancestors_from(cur, fuel))) {
            None => true,
            Some(p) => ends_walk(p),
        },
    decreases fuel,
{
    if fuel > 0 {
        if let Some(p) = path_parent_of(cur) {
            if !ends_walk(p) {
                lemma_walk_reaches_root(p, (fuel - 1) as nat);
                let rest = ancestors_from(p, (fuel - 1) as nat);
                let a = ancestors_from(cur, fuel);
                assert(a == seq![p] + rest);
                if rest.len() > 0 {
                    assert(a.last() == rest.last());
                } else {
                    assert(a.last() == p);
                }
            }
        }
    } else {
        if let Some(q) = path_parent_of(cur) {
            assert(q.len() < cur.len());
        }
    }
}

/// The walk up goes all the way: as long as every parent is shorter than
/// its path (as `Path::parent` gives it), the last scope before the whole
/// history is a directory whose parent is the root or nothing, so no parent
/// below the root is left out.
pub proof fn scopes_reach_the_root(cwd: Seq<char>)
    requires
        forall|p: Seq<char>|
            #[trigger] path_parent_of(p) is Some ==> path_parent_of(p)->0.len() < p.len(),
    ensures
        match path_parent_of(walk_end(normalized_dir(cwd), ancestors_spec(cwd))) {
            None => true,
            Some(p) => ends_walk(p),
        },
{
    lemma_walk_reaches_root(normalized_dir(cwd), normalized_dir(cwd).len());
}

/// `ok` is what `paths::valid` can answer for the recorded `paths` of a
/// candidate, read from `cwd`: the file system was asked about the paths of
/// `checked_paths_spec(cwd, paths)` in order.
pub open spec fn files_answered(cwd: Seq<char>, paths: Seq<char>, ok: bool) -> bool {
    exists|answers: Seq<bool>|
        #[trigger] paths::valid_run(paths::checked_paths_spec(cwd, paths), answers, ok)
}

/// A run of `pick` over `cands` that observed `obs`, one observation per
/// candidate looked at, in order: `obs[j].0` is the clock's answer to
/// whether the deadline had passed when candidate `j` came up, and, when it
/// had not, `obs[j].1` is `valid`'s answer for that candidate's recorded
/// files. Every candidate but the last one looked at was reached in time
/// and had files missing; the run stops early only at a passed deadline or
/// at a candidate whose files all exist.
pub open spec fn pick_run(
    cwd: Seq<char>,
    line: Seq<char>,
    cands: Seq<(Seq<char>, Seq<char>)>,
    deadline: Option<std::time::Instant>,
    obs: Seq<(bool, bool)>,
) -> bool {
    &&& obs.len() <= cands.len()
    &&& cands.len() > 0 ==> obs.len() > 0
    &&& forall|j: int| 0 <= j < obs.len() ==> clock::clock_answered(deadline, (#[trigger] obs[j]).0)
    &&& forall|j: int|
        0 <= j < obs.len() && !(#[trigger] obs[j]).0 ==> files_answered(cwd, cands[j].1, obs[j].1)
    &&& forall|j: int| 0 <= j < obs.len() - 1 ==> !(#[trigger] obs[j]).0 && !obs[j].1
    &&& obs.len() < cands.len() ==> obs.last().0 || obs.last().1
}

/// What `pick` decides after observing `obs`: the last candidate looked at
/// decides when it was reached in time and its files exist (`Identical`
/// when it is the typed line, else it is suggested); otherwise nothing.
pub open spec fn pick_verdict(
    line: Seq<char>,
    cands: Seq<(Seq<char>, Seq<char>)>,
    obs: Seq<(bool, bool)>,
) -> Verdict {
    if obs.len() == 0 {
        Verdict::NoMatch
    } else if obs.last().0 || !obs.last().1 {
        Verdict::NoMatch
    } else if cands[obs.len() - 1].0 == line {
        Verdict::Identical
    } else {
        Verdict::Suggest(cands[obs.len() - 1].0)
    }
}

/// Picks among the candidates of one scope, newest first: candidates whose
/// recorded files no longer exist (relative to `cwd`, as `paths::valid`
/// says) are skipped; the first remaining one is suggested, or decides
/// `Identical` when it equals `line`. Before each candidate the clock is
/// asked about `deadline`; once it has passed no further candidate is looked
/// at and nothing is decided.
pub fn pick(
    cwd: &str,
    line: &str,
    candidates: Vec<(String, String)>,
    deadline: Option<std::time::Instant>,
) -> (r: Outcome)
    ensures
        exists|obs: Seq<(bool, bool)>|
            #[trigger] pick_run(cwd@, line@, candidate_views(candidates@), deadline, obs)
                && verdict_of(r) == pick_verdict(line@, candidate_views(candidates@), obs),
        r matches Outcome::Suggest(s) ==> s@ != line@,
{
    let ghost cv = candidate_views(candidates@);
    let ghost mut seen: Seq<(bool, bool)> = seq![];
    let n: usize = candidates.len();
    let mut i: usize = 0;
    while i < n
        invariant
            n == candidates.len(),
            i <= n,
            cv == candidate_views(candidates@),
            seen.len() == i,
            forall|j: int| 0 <= j < i ==> #[trigger] seen[j] == (false, false),
            forall|j: int| 0 <= j < i ==> clock::clock_answered(deadline, (#[trigger] seen[j]).0),
            forall|j: int| 0 <= j < i ==> files_answered(cwd@, cv[j].1, (#[trigger] seen[j]).1),
        decreases n - i,
    {
        proof {
            assert(cv[i as int] == (candidates@[i as int].0@, candidates@[i as int].1@));
        }
        let passed = clock::expired(deadline);
        if passed {
            let ghost obs = seen.push((true, false));
            proof {
                assert(obs.last() == (true, false));
                assert forall|j: int| 0 <= j < obs.len() implies clock::clock_answered(
                    deadline,
                    (#[trigger] obs[j]).0,
                ) by {
                    if j < i {
                        assert(obs[j] == seen[j]);
                    }
                }
                assert forall|j: int| 0 <= j < obs.len() && !(#[trigger] obs[j]).0 implies files_answered(
                    cwd@,
                    cv[j].1,
                    obs[j].1,
                ) by {
                    assert(obs[j] == seen[j]);
                }
                assert forall|j: int| 0 <= j < obs.len() - 1 implies !(#[trigger] obs[j]).0
                    && !obs[j].1 by {
                    assert(obs[j] == seen[j]);
                }
                assert(pick_run(cwd@, line@, cv, deadline, obs));
            }
            return Outcome::NoMatch;
        }
        let ok = paths::valid(cwd, candidates[i].1.as_str());
        let ghost now_seen = seen.push((false, ok));
        proof {
            assert(files_answered(cwd@, cv[i as int].1, ok));
            assert(now_seen.last() == (false, ok));
            assert forall|j: int| 0 <= j < now_seen.len() implies clock::clock_answered(
                deadline,
                (#[trigger] now_seen[j]).0,
            ) by {
                if j < i {
                    assert(now_seen[j] == seen[j]);
                }
            }
            assert forall|j: int| 0 <= j < now_seen.len() implies files_answered(
                cwd@,
                cv[j].1,
                (#[trigger] now_seen[j]).1,
            ) by {
                if j < i {
                    assert(now_seen[j] == seen[j]);
                }
            }
            assert forall|j: int| 0 <= j < now_seen.len() - 1 implies !(
            #[trigger] now_seen[j]).0 && !now_seen[j].1 by {
                assert(now_seen[j] == seen[j]);
            }
        }
        if ok {
            proof {
                assert(pick_run(cwd@, line@, cv, deadline, now_seen));
                assert(cv[i as int].0 == candidates@[i as int].0@);
            }
            if same_text(candidates[i].0.as_str(), line) {
                return Outcome::Identical;
            } else {
                let cmd = candidates[i].0.clone();
                return Outcome::Suggest(cmd);
            }
        }
        proof {
            seen = now_seen;
        }
        i = i + 1;
    }
    proof {
        if n > 0 {
            assert(seen.last() == seen[n - 1]);
        }
        assert(pick_run(cwd@, line@, cv, deadline, seen));
    }
    Outcome::NoMatch
}

/// The view of an optional text.
pub open spec fn opt_string_view(o: Option<String>) -> Option<Seq<char>> {
    match o {
        Some(s) => Some(s@),
        None => None,
    }
}

/// The scopes of a search from `cwd`, in the order they are consulted: the
/// directory itself (trailing slashes removed), its parents nearest first,
/// then all directories (`None`).
pub open spec fn scope_dirs(cwd: Seq<char>) -> Seq<Option<Seq<char>>> {
    seq![Some(normalized_dir(cwd))] + ancestors_spec(cwd).map_values(|a: Seq<char>| Some(a)) + seq![
        None,
    ]
}

/// The candidate lookups of a search from `cwd`, in order: for each scope,
/// exact-case matches (`true`) and then case-insensitive ones (`false`).
pub open spec fn query_plan(cwd: Seq<char>) -> Seq<(Option<Seq<char>>, bool)> {
    let sc = scope_dirs(cwd);
    Seq::new(2 * sc.len(), |k: int| (sc[k / 2], k % 2 == 0))
}

/// `reply` is what `query` answered to the lookup `q`.
pub open spec fn answered<F: Fn(Option<String>, bool) -> Result<Vec<(String, String)>, StoreError>>(
    query: F,
    q: (Option<Seq<char>>, bool),
    reply: Vec<(String, String)>,
) -> bool {
    exists|d: Option<String>| opt_string_view(d) == q.0 && call_ensures(query, (d, q.1), Ok(reply))
}

/// `query` failed with `e` on the lookup `q`.
pub open spec fn failed<F: Fn(Option<String>, bool) -> Result<Vec<(String, String)>, StoreError>>(
    query: F,
    q: (Option<Seq<char>>, bool),
    e: StoreError,
) -> bool {
    exists|d: Option<String>| opt_string_view(d) == q.0 && call_ensures(query, (d, q.1), Err(e))
}

/// `v` is what `pick`, run from the directory `here`, decided from the
/// candidates `reply`.
pub open spec fn decided(
    here: Seq<char>,
    line: Seq<char>,
    reply: Vec<(String, String)>,
    deadline: Option<std::time::Instant>,
    v: Verdict,
) -> bool {
    exists|obs: Seq<(bool, bool)>|
        #[trigger] pick_run(here, line, candidate_views(reply@), deadline, obs) && v == pick_verdict(
            line,
            candidate_views(reply@),
            obs,
        )
}

/// A run of the scoped search: the lookups made follow the plan from its
/// start; each reply came from `query` and was decided by `pick`; every
/// lookup but the last decided nothing; and the search stopped before the
/// end of the plan only on a decision or a deadline.
pub open spec fn search_trace<F: Fn(Option<String>, bool) -> Result<
    Vec<(String, String)>,
    StoreError,
>>(
    query: F,
    cwd: Seq<char>,
    line: Seq<char>,
    deadline: Option<std::time::Instant>,
    replies: Seq<Vec<(String, String)>>,
    verdicts: Seq<Verdict>,
) -> bool {
    let plan = query_plan(cwd);
    &&& replies.len() == verdicts.len()
    &&& verdicts.len() <= plan.len()
    &&& forall|k: int| 0 <= k < replies.len() ==> answered(query, plan[k], #[trigger] replies[k])
    &&& forall|k: int|
        0 <= k < replies.len() ==> decided(normalized_dir(cwd), line, replies[k], deadline, #[trigger] verdicts[k])
    &&& forall|k: int| 0 <= k < verdicts.len() - 1 ==> #[trigger] verdicts[k] is NoMatch
    &&& verdicts.len() < plan.len() ==> (clock::clock_answered(deadline, true) || (verdicts.len()
        > 0 && !(verdicts.last() is NoMatch)))
}

/// A run of the lookups of `query_plan(cwd)` that stopped on an error: the
/// lookups before it were answered by `replies` and found nothing to
/// suggest, and the next one in the plan failed with `e`.
pub open spec fn failed_trace<F: Fn(Option<String>, bool) -> Result<
    Vec<(String, String)>,
    StoreError,
>>(
    query: F,
    cwd: Seq<char>,
    line: Seq<char>,
    deadline: Option<std::time::Instant>,
    replies: Seq<Vec<(String, String)>>,
    verdicts: Seq<Verdict>,
    e: StoreError,
) -> bool {
    let plan = query_plan(cwd);
    &&& replies.len() == verdicts.len()
    &&& verdicts.len() < plan.len()
    &&& forall|k: int| 0 <= k < replies.len() ==> answered(query, plan[k], #[trigger] replies[k])
    &&& forall|k: int|
        0 <= k < replies.len() ==> decided(normalized_dir(cwd), line, replies[k], deadline, #[trigger] verdicts[k])
    &&& forall|k: int| 0 <= k < verdicts.len() ==> #[trigger] verdicts[k] is NoMatch
    &&& failed(query, plan[verdicts.len() as int], e)
}

/// The answer of a run: the command of a final `Suggest`, else nothing.
pub open spec fn trace_answer(verdicts: Seq<Verdict>) -> Option<Seq<char>> {
    if verdicts.len() > 0 {
        match verdicts.last() {
            Verdict::Suggest(c) => Some(c),
            _ => None,
        }
    } else {
        None
    }
}

/// The views of a list of optional texts.
pub open spec fn opt_string_views(v: Seq<Option<String>>) -> Seq<Option<Seq<char>>> {
    v.map_values(|o: Option<String>| opt_string_view(o))
}

/// The scopes of a search from `cwd`, in order.
fn scope_list(cwd: &str) -> (r: Vec<Option<String>>)
    ensures
        opt_string_views(r@) == scope_dirs(cwd@),
{
    let here = normalize_dir(cwd);
    let parents = ancestors(here.as_str());
    proof {
        crate::text::normalize_dir_is_stable(cwd@);
    }
    let mut out: Vec<Option<String>> = Vec::new();
    out.push(Some(here));
    let ghost anc = ancestors_spec(cwd@).map_values(|a: Seq<char>| Some(a));
    let mut k: usize = 0;
    while k < parents.len()
        invariant
            k <= parents.len(),
            string_views(parents@) == ancestors_spec(cwd@),
            anc == ancestors_spec(cwd@).map_values(|a: Seq<char>| Some(a)),
            opt_string_views(out@) == seq![Some(normalized_dir(cwd@))] + anc.subrange(0, k as int),
        decreases parents.len() - k,
    {
        let p = parents[k].clone();
        let ghost before = out@;
        out.push(Some(p));
        proof {
            assert(anc[k as int] == Some(parents@[k as int]@));
            assert(opt_string_views(out@) =~= opt_string_views(before).push(Some(p@)));
            assert(anc.subrange(0, k + 1) =~= anc.subrange(0, k as int).push(anc[k as int]));
        }
        k = k + 1;
    }
    let ghost before = out@;
    out.push(None);
    proof {
        assert(anc.subrange(0, parents.len() as int) =~= anc);
        assert(opt_string_views(out@) =~= opt_string_views(before).push(None));
    }
    out
}

/// Runs the lookup `(dir, sensitive)` and picks among its candidates.
fn ask<F: Fn(Option<String>, bool) -> Result<Vec<(String, String)>, StoreError>>(
    query: &F,
    dir: &Option<String>,
    sensitive: bool,
    here: &str,
    line: &str,
    deadline: Option<std::time::Instant>,
) -> (r: Result<(Outcome, Ghost<Vec<(String, String)>>), StoreError>)
    requires
        forall|d: Option<String>, s: bool| call_requires(*query, (d, s)),
    ensures
        r matches Ok((o, g)) ==> {
            &&& answered(*query, (opt_string_view(*dir), sensitive), g@)
            &&& decided(here@, line@, g@, deadline, verdict_of(o))
            &&& o matches Outcome::Suggest(c) ==> c@ != line@
        },
        r matches Err(e) ==> failed(*query, (opt_string_view(*dir), sensitive), e),
{
    let d: Option<String> = match dir {
        Some(x) => Some(x.clone()),
        None => None,
    };
    let ghost dv = d;
    let reply = match query(d, sensitive) {
        Ok(c) => c,
        Err(e) => {
            proof {
                assert(opt_string_view(dv) == opt_string_view(*dir));
            }
            return Err(e);
        },
    };
    let ghost rv = reply;
    proof {
        assert(opt_string_view(dv) == opt_string_view(*dir));
    }
    let o = pick(here, line, reply, deadline);
    Ok((o, Ghost(rv)))
}

proof fn lemma_plan_at(cwd: Seq<char>, s: int)
    requires
        0 <= s < scope_dirs(cwd).len(),
    ensures
        query_plan(cwd).len() == 2 * scope_dirs(cwd).len(),
        query_plan(cwd)[2 * s] == (scope_dirs(cwd)[s], true),
        query_plan(cwd)[2 * s + 1] == (scope_dirs(cwd)[s], false),
{
    assert((2 * s) / 2 == s);
    assert((2 * s + 1) / 2 == s);
    assert((2 * s) % 2 == 0);
    assert((2 * s + 1) % 2 == 1);
}

/// The scoped search over the candidate source `query`, which answers a
/// lookup `(dir, sensitive)` with the candidates (command, recorded paths)
/// of `dir` (all directories for `None`) that start with `line`, newest
/// first. Scopes are consulted in order: the current directory, its parents
/// nearest first, then all directories; within a scope, exact-case
/// candidates before case-insensitive ones. The first lookup whose
/// candidates decide (see `pick`) answers. Once `deadline` has passed no
/// further scope is consulted and the answer is "no suggestion".
pub fn search_with<F: Fn(Option<String>, bool) -> Result<Vec<(String, String)>, StoreError>>(
    query: F,
    cwd: &str,
    line: &str,
    deadline: Option<std::time::Instant>,
) -> (r: Result<Option<String>, StoreError>)
    requires
        forall|d: Option<String>, s: bool| call_requires(query, (d, s)),
    ensures
        is_blank(line@) ==> r matches Ok(None),
        r matches Ok(Some(s)) ==> s@ != line@,
        !is_blank(line@) ==> (r matches Ok(ans) ==> exists|
            replies: Seq<Vec<(String, String)>>,
            verdicts: Seq<Verdict>,
        |
            #[trigger] search_trace(query, cwd@, line@, deadline, replies, verdicts)
                && opt_string_view(ans) == trace_answer(verdicts)),
        r matches Err(e) ==> exists|
            replies: Seq<Vec<(String, String)>>,
            verdicts: Seq<Verdict>,
        |
            #[trigger] failed_trace(query, cwd@, line@, deadline, replies, verdicts, e),
{
    if is_blank_text(line) {
        return Ok(None);
    }
    let ghost mut replies: Seq<Vec<(String, String)>> = seq![];
    let ghost mut verdicts: Seq<Verdict> = seq![];
    if clock::expired(deadline) {
        proof {
            assert(search_trace(query, cwd@, line@, deadline, replies, verdicts));
        }
        return Ok(None);
    }
    let here = normalize_dir(cwd);
    let scopes = scope_list(cwd);
    let ghost plan = query_plan(cwd@);
    let mut s: usize = 0;
    while s < scopes.len()
        invariant
            s <= scopes.len(),
            !is_blank(line@),
            forall|d: Option<String>, t: bool| call_requires(query, (d, t)),
            opt_string_views(scopes@) == scope_dirs(cwd@),
            plan == query_plan(cwd@),
            replies.len() == 2 * s,
            verdicts.len() == 2 * s,
            forall|k: int| 0 <= k < replies.len() ==> answered(query, plan[k], #[trigger] replies[k]),
            forall|k: int|
                0 <= k < replies.len() ==> decided(
                    normalized_dir(cwd@),
                    line@,
                    replies[k],
                    deadline,
                    #[trigger] verdicts[k],
                ),
            here@ == normalized_dir(cwd@),
            forall|k: int| 0 <= k < verdicts.len() ==> #[trigger] verdicts[k] is NoMatch,
        decreases scopes.len() - s,
    {
        proof {
            lemma_plan_at(cwd@, s as int);
            assert(opt_string_views(scopes@)[s as int] == opt_string_view(scopes@[s as int]));
        }
        if s > 0 && clock::expired(deadline) {
            proof {
                assert(search_trace(query, cwd@, line@, deadline, replies, verdicts));
            }
            return Ok(None);
        }
        let (o1, Ghost(g1)) = match ask(&query, &scopes[s], true, here.as_str(), line, deadline) {
            Ok(x) => x,
            Err(e) => {
                proof {
                    assert(plan[2 * s as int] == (scope_dirs(cwd@)[s as int], true));
                    assert(failed_trace(query, cwd@, line@, deadline, replies, verdicts, e));
                }
                return Err(e);
            },
        };
        proof {
            replies = replies.push(g1);
            verdicts = verdicts.push(verdict_of(o1));
            assert(plan[2 * s as int] == (scope_dirs(cwd@)[s as int], true));
        }
        match o1 {
            Outcome::NoMatch => {},
            other => {
                proof {
                    assert(search_trace(query, cwd@, line@, deadline, replies, verdicts));
                }
                return match other {
                    Outcome::Suggest(c) => Ok(Some(c)),
                    _ => Ok(None),
                };
            },
        }
        let (o2, Ghost(g2)) = match ask(&query, &scopes[s], false, here.as_str(), line, deadline) {
            Ok(x) => x,
            Err(e) => {
                proof {
                    assert(plan[2 * s + 1] == (scope_dirs(cwd@)[s as int], false));
                    assert(failed_trace(query, cwd@, line@, deadline, replies, verdicts, e));
                }
                return Err(e);
            },
        };
        proof {
            replies = replies.push(g2);
            verdicts = verdicts.push(verdict_of(o2));
            assert(plan[2 * s + 1] == (scope_dirs(cwd@)[s as int], false));
        }
        match o2 {
            Outcome::NoMatch => {},
            other => {
                proof {
                    assert(search_trace(query, cwd@, line@, deadline, replies, verdicts));
                }
                return match other {
                    Outcome::Suggest(c) => Ok(Some(c)),
                    _ => Ok(None),
                };
            },
        }
        s = s + 1;
    }
    proof {
        assert(search_trace(query, cwd@, line@, deadline, replies, verdicts));
    }
    Ok(None)
}

/// `c` is what the store answered to the lookup `q` = (directory, case mode)
/// of a search for `line`: the answer of `db::suggest_prefix` on `conn` for
/// that directory, the needle `line`, at most `CANDIDATE_LIMIT` candidates
/// and that case mode.
pub open spec fn store_answered(
    conn: &rusqlite::Connection,
    q: (Option<Seq<char>>, bool),
    line: &str,
    c: Result<Vec<(String, String)>, StoreError>,
) -> bool {
    exists|d: Option<&str>|
        #![trigger call_ensures(db::suggest_prefix, (conn, d, line, CANDIDATE_LIMIT, q.1), c)]
        db::opt_view(d) == q.0 && call_ensures(
            db::suggest_prefix,
            (conn, d, line, CANDIDATE_LIMIT, q.1),
            c,
        )
}

/// `search_trace` over the store: the lookups of `query_plan(cwd)` were
/// answered by the store with `replies`, in order.
pub open spec fn store_trace(
    conn: &rusqlite::Connection,
    cwd: Seq<char>,
    line: &str,
    deadline: Option<std::time::Instant>,
    replies: Seq<Vec<(String, String)>>,
    verdicts: Seq<Verdict>,
) -> bool {
    let plan = query_plan(cwd);
    &&& replies.len() == verdicts.len()
    &&& verdicts.len() <= plan.len()
    &&& forall|k: int|
        0 <= k < replies.len() ==> store_answered(conn, plan[k], line, Ok(#[trigger] replies[k]))
    &&& forall|k: int|
        0 <= k < replies.len() ==> decided(normalized_dir(cwd), line@, replies[k], deadline, #[trigger] verdicts[k])
    &&& forall|k: int| 0 <= k < verdicts.len() - 1 ==> #[trigger] verdicts[k] is NoMatch
    &&& verdicts.len() < plan.len() ==> (clock::clock_answered(deadline, true) || (verdicts.len()
        > 0 && !(verdicts.last() is NoMatch)))
}

/// `failed_trace` over the store: the lookups before the failing one were
/// answered by the store with `replies` and found nothing, and the store
/// answered the next lookup of the plan with the error `e`.
pub open spec fn store_failed_trace(
    conn: &rusqlite::Connection,
    cwd: Seq<char>,
    line: &str,
    deadline: Option<std::time::Instant>,
    replies: Seq<Vec<(String, String)>>,
    verdicts: Seq<Verdict>,
    e: StoreError,
) -> bool {
    let plan = query_plan(cwd);
    &&& replies.len() == verdicts.len()
    &&& verdicts.len() < plan.len()
    &&& forall|k: int|
        0 <= k < replies.len() ==> store_answered(conn, plan[k], line, Ok(#[trigger] replies[k]))
    &&& forall|k: int|
        0 <= k < replies.len() ==> decided(normalized_dir(cwd), line@, replies[k], deadline, #[trigger] verdicts[k])
    &&& forall|k: int| 0 <= k < verdicts.len() ==> #[trigger] verdicts[k] is NoMatch
    &&& store_answered(conn, plan[verdicts.len() as int], line, Err(e))
}

/// What a suggestion from the store gives for `line` typed in `cwd` with
/// the deadline `dl`. A blank line gives no suggestion and a suggestion is
/// never the line itself. Otherwise the scopes are consulted as
/// `search_with` consults them, each lookup answered by
/// `db::suggest_prefix`: the answer is that of such a run; or no suggestion
/// when a lookup failed with an interruption (an error that
/// `is_interruption` classified so); any other failure of a lookup is the
/// error.
pub open spec fn store_search(
    conn: &rusqlite::Connection,
    cwd: Seq<char>,
    line: &str,
    dl: Option<std::time::Instant>,
    r: Result<Option<String>, StoreError>,
) -> bool {
    &&& is_blank(line@) ==> (r matches Ok(None))
    &&& (r matches Ok(Some(s)) ==> s@ != line@)
    &&& !is_blank(line@) ==> match r {
        Ok(ans) => (exists|replies: Seq<Vec<(String, String)>>, verdicts: Seq<Verdict>|
            #[trigger] store_trace(conn, cwd, line, dl, replies, verdicts) && opt_string_view(ans)
                == trace_answer(verdicts)) || (ans is None && exists|
            replies: Seq<Vec<(String, String)>>,
            verdicts: Seq<Verdict>,
            e: StoreError,
        |
            #[trigger] store_failed_trace(conn, cwd, line, dl, replies, verdicts, e) && e is Interrupted
                && db::reported(e, true)),
        Err(e) => e is Sqlite && db::reported(e, false) && exists|
            replies: Seq<Vec<(String, String)>>,
            verdicts: Seq<Verdict>,
        | #[trigger] store_failed_trace(conn, cwd, line, dl, replies, verdicts, e),
    }
}

/// The progress handler that interrupts queries once the deadline `d` has
/// passed was installed on `conn` (`interrupt_after`).
pub closed spec fn interrupt_installed(conn: &rusqlite::Connection, d: std::time::Instant) -> bool {
    call_ensures(crate::sqlite::interrupt_after, (conn, PROGRESS_OPS, d), ())
}

/// The progress handler was removed from `conn` (`clear_interrupt`).
pub closed spec fn interrupt_removed(conn: &rusqlite::Connection) -> bool {
    call_ensures(crate::sqlite::clear_interrupt, (conn, PROGRESS_OPS), ())
}

/// An error that the store gave for a lookup is classified as SQLite's
/// `is_interruption` says.
proof fn lemma_store_error_reported(
    conn: &rusqlite::Connection,
    q: (Option<Seq<char>>, bool),
    line: &str,
    e: StoreError,
)
    requires
        store_answered(conn, q, line, Err(e)),
    ensures
        db::reported(e, e is Interrupted),
{
    let d = choose|d: Option<&str>|
        db::opt_view(d) == q.0 && call_ensures(
            db::suggest_prefix,
            (conn, d, line, CANDIDATE_LIMIT, q.1),
            Err::<Vec<(String, String)>, StoreError>(e),
        );
    assert(call_ensures(
        db::suggest_prefix,
        (conn, d, line, CANDIDATE_LIMIT, q.1),
        Err::<Vec<(String, String)>, StoreError>(e),
    ));
}

/// A run of `search_with` over a lookup that answers as the store does is a
/// run over the store.
proof fn lemma_store_runs<F: Fn(Option<String>, bool) -> Result<Vec<(String, String)>, StoreError>>(
    query: F,
    conn: &rusqlite::Connection,
    line: &str,
)
    requires
        forall|d: Option<String>, s: bool, c: Result<Vec<(String, String)>, StoreError>|
            call_ensures(query, (d, s), c) ==> #[trigger] store_answered(
                conn,
                (opt_string_view(d), s),
                line,
                c,
            ),
    ensures
        forall|
            cwd: Seq<char>,
            dl: Option<std::time::Instant>,
            replies: Seq<Vec<(String, String)>>,
            verdicts: Seq<Verdict>,
        |
            #[trigger] search_trace(query, cwd, line@, dl, replies, verdicts) ==> store_trace(
                conn,
                cwd,
                line,
                dl,
                replies,
                verdicts,
            ),
        forall|
            cwd: Seq<char>,
            dl: Option<std::time::Instant>,
            replies: Seq<Vec<(String, String)>>,
            verdicts: Seq<Verdict>,
            e: StoreError,
        |
            #[trigger] failed_trace(query, cwd, line@, dl, replies, verdicts, e)
                ==> store_failed_trace(conn, cwd, line, dl, replies, verdicts, e),
{
    assert forall|q: (Option<Seq<char>>, bool), rep: Vec<(String, String)>|
        answered(query, q, rep) implies #[trigger] store_answered(conn, q, line, Ok(rep)) by {
        let d = choose|d: Option<String>|
            opt_string_view(d) == q.0 && call_ensures(query, (d, q.1), Ok(rep));
        assert(store_answered(conn, (opt_string_view(d), q.1), line, Ok(rep)));
    }
    assert forall|q: (Option<Seq<char>>, bool), e: StoreError|
        failed(query, q, e) implies #[trigger] store_answered(conn, q, line, Err(e)) by {
        let d = choose|d: Option<String>|
            opt_string_view(d) == q.0 && call_ensures(query, (d, q.1), Err(e));
        assert(store_answered(conn, (opt_string_view(d), q.1), line, Err(e)));
    }
    assert forall|
        cwd: Seq<char>,
        dl: Option<std::time::Instant>,
        replies: Seq<Vec<(String, String)>>,
        verdicts: Seq<Verdict>,
    | #[trigger] search_trace(query, cwd, line@, dl, replies, verdicts) implies store_trace(
        conn,
        cwd,
        line,
        dl,
        replies,
        verdicts,
    ) by {
        let plan = query_plan(cwd);
        assert forall|k: int| 0 <= k < replies.len() implies store_answered(
            conn,
            plan[k],
            line,
            Ok(#[trigger] replies[k]),
        ) by {
            assert(answered(query, plan[k], replies[k]));
        }
    }
    assert forall|
        cwd: Seq<char>,
        dl: Option<std::time::Instant>,
        replies: Seq<Vec<(String, String)>>,
        verdicts: Seq<Verdict>,
        e: StoreError,
    | #[trigger] failed_trace(query, cwd, line@, dl, replies, verdicts, e) implies store_failed_trace(
        conn,
        cwd,
        line,
        dl,
        replies,
        verdicts,
        e,
    ) by {
        let plan = query_plan(cwd);
        assert forall|k: int| 0 <= k < replies.len() implies store_answered(
            conn,
            plan[k],
            line,
            Ok(#[trigger] replies[k]),
        ) by {
            assert(answered(query, plan[k], replies[k]));
        }
        assert(failed(query, plan[verdicts.len() as int], e));
    }
}

/// The best history match for `line` typed in `cwd`, with no time budget:
/// `search_with` over the store, whose lookups are `db::suggest_prefix` with
/// at most `CANDIDATE_LIMIT` candidates each.
pub fn suggest(conn: &rusqlite::Connection, cwd: &str, line: &str) -> (r: Result<
    Option<String>,
    StoreError,
>)
    ensures
        store_search(conn, cwd@, line, None, r),
{
    suggest_budgeted(conn, cwd, line, None)
}

/// Like `suggest`, but gives up once `budget` has elapsed: queries running
/// at that moment are interrupted and the answer is "no suggestion", never
/// an error. `None` sets no time limit.
pub fn suggest_budgeted(
    conn: &rusqlite::Connection,
    cwd: &str,
    line: &str,
    budget: Option<std::time::Duration>,
) -> (r: Result<Option<String>, StoreError>)
    ensures
        exists|dl: Option<std::time::Instant>|
            #[trigger] clock::deadline_set(budget, dl) && store_search(conn, cwd@, line, dl, r) && (
            dl matches Some(d) ==> interrupt_installed(conn, d)),
        budget is Some ==> interrupt_removed(conn),
{
    let deadline = clock::deadline_after(budget);
    if let Some(d) = deadline {
        let install = crate::sqlite::interrupt_after;
        install(conn, PROGRESS_OPS, d);
        proof {
            assert(interrupt_installed(conn, d));
        }
    }
    let lookup = |dir: Option<String>, sensitive: bool| -> (c: Result<
        Vec<(String, String)>,
        StoreError,
    >)
        ensures
            store_answered(conn, (opt_string_view(dir), sensitive), line, c),
        {
            let d: Option<&str> = match &dir {
                Some(x) => Some(x.as_str()),
                None => None,
            };
            let prefix = db::suggest_prefix;
            let c = prefix(conn, d, line, CANDIDATE_LIMIT, sensitive);
            proof {
                assert(db::opt_view(d) == opt_string_view(dir));
            }
            c
        };
    proof {
        assert forall|d: Option<String>, s: bool, c: Result<Vec<(String, String)>, StoreError>|
            call_ensures(lookup, (d, s), c) implies #[trigger] store_answered(
            conn,
            (opt_string_view(d), s),
            line,
            c,
        ) by {}
        lemma_store_runs(lookup, conn, line);
    }
    let out = search_with(lookup, cwd, line, deadline);
    if budget.is_some() {
        let remove = crate::sqlite::clear_interrupt;
        remove(conn, PROGRESS_OPS);
        proof {
            assert(interrupt_removed(conn));
        }
    }
    let ghost o = out;
    let r = match out {
        Ok(v) => Ok(v),
        Err(StoreError::Interrupted(e)) => Ok(None),
        Err(e) => Err(e),
    };
    proof {
        if !is_blank(line@) {
            match o {
                Ok(ans) => {
                    let (replies, verdicts) = choose|
                        replies: Seq<Vec<(String, String)>>,
                        verdicts: Seq<Verdict>,
                    |
                        #[trigger] search_trace(lookup, cwd@, line@, deadline, replies, verdicts)
                            && opt_string_view(ans) == trace_answer(verdicts);
                    assert(store_trace(conn, cwd@, line, deadline, replies, verdicts));
                },
                Err(e) => {
                    let (replies, verdicts) = choose|
                        replies: Seq<Vec<(String, String)>>,
                        verdicts: Seq<Verdict>,
                    |
                        #[trigger] failed_trace(lookup, cwd@, line@, deadline, replies, verdicts, e);
                    assert(store_failed_trace(conn, cwd@, line, deadline, replies, verdicts, e));
                    lemma_store_error_reported(
                        conn,
                        query_plan(cwd@)[verdicts.len() as int],
                        line,
                        e,
                    );
                },
            }
        }
    }
    r
}

} // verus!
