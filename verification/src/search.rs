//! The search engine: classifies a query into one of three modes, scores
//! and orders the candidates, and caps the result list.
//!
//! The scoring constants keep the bands apart: an exact name match always
//! totals more than the binary fallback, which stands above every
//! path-listing row, which stands above any fuzzy match — whatever the
//! launch counts involved.

use crate::bindings::{fold_case, fuzzy_match_score, fuzzy_score, lower_of};
use crate::entry::{
    file_name_of, kind_fields, kind_fields_spec, path_entry_spec, AppEntry, FileKind,
    BONUS_SCORE_BINARY, BONUS_SCORE_EXACT, BONUS_SCORE_FILE_LISTING, BONUS_SCORE_FOLDER,
    BONUS_SCORE_ICON_NAME, BONUS_SCORE_LAUNCH_COUNT, FUZZY_SCORE_CAP, LAUNCH_BONUS_CAP,
};
use crate::index::AppIndex;
use crate::text::{
    lex_le, lex_le_str, lemma_lex_le_total, lemma_lex_le_trans, split_tokens, str_eq, tokens,
};
use vstd::prelude::*;

verus! {

/// One search hit: an entry together with the score that ordered it.
#[derive(Clone, Debug)]
pub struct SearchResult {
    pub app: AppEntry,
    pub score: i64,
}

/// The three mutually exclusive query-handling strategies.
#[derive(Clone, Copy, Debug, PartialEq, Eq, Structural)]
pub enum QueryMode {
    /// The query names a filesystem location: list it.
    PathMode,
    /// The query is empty: show applications by usage.
    EmptyMode,
    /// Anything else: fuzzy-match the indexed names.
    TextMode,
}

/// First matching rule wins: a leading `~`, `$` or `/` makes a path query,
/// the empty string an empty query, anything else a text query.
pub open spec fn classify_spec(q: Seq<char>) -> QueryMode {
    if q.len() == 0 {
        QueryMode::EmptyMode
    } else if q[0] == '~' || q[0] == '$' || q[0] == '/' {
        QueryMode::PathMode
    } else {
        QueryMode::TextMode
    }
}

pub fn classify_query(q: &str) -> (r: QueryMode)
    ensures
        r == classify_spec(q@),
{
    if q.unicode_len() == 0 {
        QueryMode::EmptyMode
    } else {
        let c = q.get_char(0);
        if c == '~' || c == '$' || c == '/' {
            QueryMode::PathMode
        } else {
            QueryMode::TextMode
        }
    }
}

/// The bonus for a resolved icon: anything but the generic executable
/// sentinel counts.
pub open spec fn icon_bonus_spec(icon: Seq<char>) -> int {
    if icon == "application-x-executable"@ {
        0
    } else {
        BONUS_SCORE_ICON_NAME as int
    }
}

/// Empty-query score: launches weigh in full, plus the icon bonus.
pub open spec fn empty_score_spec(e: AppEntry) -> int {
    e.launch_count * BONUS_SCORE_LAUNCH_COUNT + icon_bonus_spec(e.icon_name@)
}

/// Text-mode bonus: launches weigh in only up to `LAUNCH_BONUS_CAP`, so
/// the whole bonus stays within its band.
pub open spec fn text_bonus_spec(e: AppEntry) -> int {
    (if e.launch_count > LAUNCH_BONUS_CAP {
        LAUNCH_BONUS_CAP as int
    } else {
        e.launch_count as int
    }) * BONUS_SCORE_LAUNCH_COUNT + icon_bonus_spec(e.icon_name@)
}

/// A raw fuzzy score clamped into `[0, FUZZY_SCORE_CAP]`.
pub open spec fn clamp_fuzzy(raw: int) -> int {
    if raw < 0 {
        0
    } else if raw > FUZZY_SCORE_CAP {
        FUZZY_SCORE_CAP as int
    } else {
        raw
    }
}

/// Total score of an exact (case-insensitive) name match.
pub open spec fn exact_score_spec(e: AppEntry) -> int {
    BONUS_SCORE_EXACT + text_bonus_spec(e)
}

/// Total score of a fuzzy match with raw matcher score `raw`.
pub open spec fn fuzzy_total_spec(e: AppEntry, raw: int) -> int {
    clamp_fuzzy(raw) + text_bonus_spec(e)
}

/// More launches never lower a score: under empty-query scoring and under
/// both text-mode scorings, the score is monotone in the launch count, all
/// other fields equal.
pub proof fn lemma_launch_count_monotone(a: AppEntry, b: AppEntry, raw: int)
    requires
        a.launch_count <= b.launch_count,
        b == (AppEntry { launch_count: b.launch_count, ..a }),
    ensures
        empty_score_spec(a) <= empty_score_spec(b),
        exact_score_spec(a) <= exact_score_spec(b),
        fuzzy_total_spec(a, raw) <= fuzzy_total_spec(b, raw),
{
}

/// An exact case-insensitive name match outranks every fuzzy match for the
/// same query, whatever either entry's launch count: the least exact total
/// exceeds the greatest fuzzy total.
pub proof fn lemma_exact_outranks_fuzzy(a: AppEntry, b: AppEntry, raw: int)
    ensures
        exact_score_spec(a) > fuzzy_total_spec(b, raw),
{
}

/// The exact band also stands above the binary fallback, which stands
/// above path-listing rows, which stand above every fuzzy total.
pub proof fn lemma_score_bands(e: AppEntry, raw: int)
    ensures
        exact_score_spec(e) > BONUS_SCORE_BINARY,
        BONUS_SCORE_BINARY > BONUS_SCORE_FOLDER,
        BONUS_SCORE_FOLDER > BONUS_SCORE_FILE_LISTING,
        BONUS_SCORE_FILE_LISTING > fuzzy_total_spec(e, raw),
{
}

pub fn icon_bonus(icon: &str) -> (r: i64)
    ensures
        r == icon_bonus_spec(icon@),
{
    if str_eq(icon, "application-x-executable") {
        0
    } else {
        BONUS_SCORE_ICON_NAME
    }
}

pub fn empty_score(e: &AppEntry) -> (r: i64)
    ensures
        r == empty_score_spec(*e),
{
    proof {
        assert(e.launch_count as i64 <= 0xffff_ffffi64);
    }
    (e.launch_count as i64) * BONUS_SCORE_LAUNCH_COUNT + icon_bonus(e.icon_name.as_str())
}

pub fn text_bonus(e: &AppEntry) -> (r: i64)
    ensures
        r == text_bonus_spec(*e),
{
    let capped: i64 = if e.launch_count > LAUNCH_BONUS_CAP {
        LAUNCH_BONUS_CAP as i64
    } else {
        e.launch_count as i64
    };
    capped * BONUS_SCORE_LAUNCH_COUNT + icon_bonus(e.icon_name.as_str())
}

/// The one total order results are sorted by: score descending, ties by
/// name, case-insensitively (folded) and then by code point. (Opaque:
/// callers reason through the lemmas and the comparison function below.)
#[verifier::opaque]
pub open spec fn result_le(a: SearchResult, b: SearchResult) -> bool {
    a.score > b.score || (a.score == b.score && lex_le(
        lower_of(a.app.name@),
        lower_of(b.app.name@),
    ))
}

/// Results in `s` stand in `result_le` order; in particular scores never
/// rise along the list.
pub open spec fn sorted_results(s: Seq<SearchResult>) -> bool {
    forall|i: int, j: int| 0 <= i < j < s.len() ==> result_le(#[trigger] s[i], #[trigger] s[j])
}

proof fn lemma_result_le_total(a: SearchResult, b: SearchResult)
    ensures
        result_le(a, b) || result_le(b, a),
{
    reveal(result_le);
    if a.score == b.score {
        lemma_lex_le_total(lower_of(a.app.name@), lower_of(b.app.name@));
    }
}

proof fn lemma_result_le_trans(a: SearchResult, b: SearchResult, c: SearchResult)
    requires
        result_le(a, b),
        result_le(b, c),
    ensures
        result_le(a, c),
{
    reveal(result_le);
    if a.score == b.score && b.score == c.score {
        lemma_lex_le_trans(lower_of(a.app.name@), lower_of(b.app.name@), lower_of(c.app.name@));
    }
}

fn result_le_exec(a: &SearchResult, b: &SearchResult) -> (r: bool)
    ensures
        r == result_le(*a, *b),
{
    proof {
        reveal(result_le);
    }
    if a.score > b.score {
        true
    } else if a.score == b.score {
        let fa = fold_case(a.app.name.as_str());
        let fb = fold_case(b.app.name.as_str());
        lex_le_str(fa.as_str(), fb.as_str())
    } else {
        false
    }
}

/// Sorts results by score descending (ties by name), keeping exactly the
/// same results.
#[verifier::spinoff_prover]
pub fn sort_results(v: &mut Vec<SearchResult>)
    ensures
        final(v)@.len() == old(v)@.len(),
        final(v)@.to_multiset() == old(v)@.to_multiset(),
        sorted_results(final(v)@),
{
    broadcast use vstd::seq_lib::to_multiset_insert;
    broadcast use vstd::seq_lib::to_multiset_remove;
    broadcast use vstd::multiset::group_multiset_axioms;

    let n = v.len();
    if n <= 1 {
        return ;
    }
    let mut i: usize = 1;
    while i < n
        invariant
            n == v@.len(),
            1 <= i <= n,
            v@.to_multiset() == old(v)@.to_multiset(),
            sorted_results(v@.take(i as int)),
        decreases n - i,
    {
        let ghost before = v@;
        let x = v.remove(i);
        let mut j: usize = 0;
        while j < i && result_le_exec(&v[j], &x)
            invariant
                i < before.len(),
                v@ == before.remove(i as int),
                x == before[i as int],
                j <= i,
                forall|k: int| 0 <= k < j ==> result_le(#[trigger] v@[k], x),
            decreases i - j,
        {
            j = j + 1;
        }
        v.insert(j, x);
        proof {
            broadcast use vstd::seq_lib::to_multiset_insert;
            broadcast use vstd::seq_lib::to_multiset_remove;
            broadcast use vstd::multiset::group_multiset_axioms;

            let cur = before.remove(i as int).insert(j as int, x);
            assert(v@ == cur);
            // the same results, rearranged
            assert(before.to_multiset().contains(x)) by {
                broadcast use vstd::seq_lib::to_multiset_contains;
                assert(before[i as int] == x);
                assert(before.contains(x));
            }
            assert(before.remove(i as int).to_multiset() == before.to_multiset().remove(x));
            assert(cur.to_multiset() == before.remove(i as int).to_multiset().insert(x));
            assert(cur.to_multiset() =~= before.to_multiset());
            // the prefix one longer is ordered again
            assert forall|a: int, b: int| 0 <= a < b < i + 1 implies result_le(
                #[trigger] cur.take(i + 1)[a],
                #[trigger] cur.take(i + 1)[b],
            ) by {
                let jj = j as int;
                let prev = before.remove(i as int);
                assert(forall|k: int| 0 <= k < i ==> prev[k] == before[k]);
                // v[j] (when it exists) is strictly after x in the order
                if jj < i {
                    lemma_result_le_total(prev[jj], x);
                }
                if b < jj {
                    assert(result_le(prev[a], prev[b]));
                } else if b == jj {
                    assert(result_le(prev[a], x));
                } else if a < jj {
                    // a before x, b after: prev[a] <= x <= prev[b-1]
                    assert(cur.take(i + 1)[b] == prev[b - 1]);
                    if b - 1 == jj {
                        lemma_result_le_trans(prev[a], x, prev[jj]);
                    } else {
                        assert(result_le(prev[jj], prev[b - 1]));
                        lemma_result_le_trans(x, prev[jj], prev[b - 1]);
                        lemma_result_le_trans(prev[a], x, prev[b - 1]);
                    }
                } else if a == jj {
                    assert(cur.take(i + 1)[b] == prev[b - 1]);
                    if b - 1 == jj {
                        assert(result_le(x, prev[jj]));
                    } else {
                        assert(result_le(prev[jj], prev[b - 1]));
                        lemma_result_le_trans(x, prev[jj], prev[b - 1]);
                    }
                } else {
                    assert(cur.take(i + 1)[a] == prev[a - 1]);
                    assert(cur.take(i + 1)[b] == prev[b - 1]);
                    assert(result_le(prev[a - 1], prev[b - 1]));
                }
            }
        }
        i = i + 1;
    }
    proof {
        assert(v@.take(n as int) =~= v@);
    }
}

/// Keeps at most the first `max` results.
pub fn truncate_results(v: &mut Vec<SearchResult>, max: usize)
    ensures
        final(v)@ == old(v)@.take(
            if old(v)@.len() <= max {
                old(v)@.len() as int
            } else {
                max as int
            },
        ),
{
    v.truncate(max);
    proof {
        if old(v)@.len() <= max {
            assert(old(v)@.take(old(v)@.len() as int) =~= old(v)@);
        }
    }
}

/// Is `x` among the folded names in `ss`?
pub open spec fn seen_contains(ss: Seq<Seq<char>>, x: Seq<char>) -> bool {
    exists|i: int| 0 <= i < ss.len() && ss[i] == x
}

fn seen_has(seen: &Vec<String>, x: &str) -> (r: bool)
    ensures
        r == seen_contains(seen.deep_view(), x@),
{
    let n = seen.len();
    let mut i: usize = 0;
    while i < n
        invariant
            n == seen@.len(),
            i <= n,
            forall|k: int| 0 <= k < i ==> seen.deep_view()[k] != x@,
        decreases n - i,
    {
        if str_eq(seen[i].as_str(), x) {
            proof {
                assert(seen.deep_view()[i as int] == x@);
            }
            return true;
        }
        i = i + 1;
    }
    false
}

/// The candidate one entry contributes to the (case-folded) text query
/// `q`: an exact name match at the exact band, else its fuzzy match, else
/// nothing.
pub open spec fn text_candidate(e: AppEntry, q: Seq<char>) -> Option<SearchResult> {
    if lower_of(e.name@) == q {
        Some(SearchResult { app: e, score: exact_score_spec(e) as i64 })
    } else {
        match fuzzy_score(lower_of(e.name@), q) {
            Some(raw) => Some(SearchResult { app: e, score: fuzzy_total_spec(e, raw) as i64 }),
            None => None,
        }
    }
}

/// Text-mode candidates of the entries in order, de-duplicated by folded
/// name — the first entry under a folded name wins; `seen` holds the
/// folded names already taken.
pub open spec fn text_candidates(s: Seq<AppEntry>, q: Seq<char>, seen: Seq<Seq<char>>) -> Seq<
    SearchResult,
>
    decreases s.len(),
{
    if s.len() == 0 {
        Seq::empty()
    } else {
        let nl = lower_of(s[0].name@);
        if seen_contains(seen, nl) {
            text_candidates(s.drop_first(), q, seen)
        } else {
            match text_candidate(s[0], q) {
                Some(sr) => seq![sr] + text_candidates(s.drop_first(), q, seen.push(nl)),
                None => text_candidates(s.drop_first(), q, seen),
            }
        }
    }
}

/// Some entry's folded name equals the folded query exactly.
pub open spec fn exact_found(s: Seq<AppEntry>, q: Seq<char>) -> bool {
    exists|i: int| 0 <= i < s.len() && lower_of((#[trigger] s[i]).name@) == q
}

/// The arguments of the binary fallback command: each remaining token,
/// blank-separated, appended after the binary's path.
pub open spec fn args_spaced(ts: Seq<Seq<char>>) -> Seq<char>
    decreases ts.len(),
{
    if ts.len() == 0 {
        Seq::empty()
    } else {
        args_spaced(ts.drop_last()) + seq![' '] + ts.last()
    }
}

/// The entry synthesized for the system-binary fallback: named after the
/// whole folded query, running the binary named by its first token with
/// the remaining tokens as arguments, at the fixed binary-fallback score.
pub open spec fn is_binary_result(q: Seq<char>, sr: SearchResult) -> bool {
    let toks = tokens(q);
    &&& toks.len() > 0
    &&& sr.score == BONUS_SCORE_BINARY
    &&& sr.app.name@ == q
    &&& sr.app.description@ == Seq::<char>::empty()
    &&& sr.app.path@ == "/usr/bin/"@ + toks[0]
    &&& sr.app.command@ == "/usr/bin/"@ + toks[0] + args_spaced(toks.skip(1))
    &&& sr.app.icon_name@ == "application-x-executable"@
    &&& sr.app.launch_count == 0
    &&& sr.app.entry_type == crate::entry::EntryType::File
    &&& sr.app.score_boost == BONUS_SCORE_BINARY
}

/// Builds the system-binary fallback candidate for a text query: `None`
/// exactly when the query has no tokens. The caller decides whether the
/// probed path is an executable and whether the candidate competes (only
/// when no exact match was found).
pub fn binary_candidate(query: &str) -> (r: Option<SearchResult>)
    ensures
        r is Some <==> tokens(lower_of(query@)).len() > 0,
        r matches Some(sr) ==> is_binary_result(lower_of(query@), sr),
{
    let lq = fold_case(query);
    let toks = split_tokens(lq.as_str());
    let ghost tv = tokens(lower_of(query@));
    if toks.len() == 0 {
        proof {
            assert(toks.deep_view().len() == 0);
        }
        return None;
    }
    proof {
        assert(toks.deep_view()[0] == tv[0]);
        assert(toks@[0]@ == tv[0]);
    }
    let path = String::from_str("/usr/bin/").concat(toks[0].as_str());
    let mut command = path.clone();
    let tn = toks.len();
    let mut k: usize = 1;
    proof {
        assert(tv.skip(1).take(0) =~= Seq::<Seq<char>>::empty());
        assert(command@ == "/usr/bin/"@ + tv[0] + args_spaced(tv.skip(1).take(0)));
    }
    while k < tn
        invariant
            tn == toks@.len(),
            tn == tv.len(),
            1 <= k <= tn,
            forall|i: int| 0 <= i < tn ==> (#[trigger] toks@[i])@ == tv[i],
            command@ == "/usr/bin/"@ + tv[0] + args_spaced(tv.skip(1).take(k - 1)),
        decreases tn - k,
    {
        command.append(" ");
        command.append(toks[k].as_str());
        proof {
            reveal_strlit(" ");
            assert(" "@ =~= seq![' ']);
            assert(tv.skip(1).take(k as int).drop_last() =~= tv.skip(1).take(k - 1));
            assert(tv.skip(1).take(k as int).last() == tv[k as int]);
            assert(command@ =~= "/usr/bin/"@ + tv[0] + (args_spaced(tv.skip(1).take(k - 1))
                + seq![' '] + tv[k as int]));
        }
        k = k + 1;
    }
    proof {
        assert(tv.skip(1).take(tn - 1) =~= tv.skip(1));
    }
    Some(
        SearchResult {
            app: AppEntry {
                name: lq,
                description: String::new(),
                path,
                command,
                icon_name: String::from_str("application-x-executable"),
                launch_count: 0,
                entry_type: crate::entry::EntryType::File,
                score_boost: BONUS_SCORE_BINARY,
            },
            score: BONUS_SCORE_BINARY,
        },
    )
}

/// The first whitespace token of the folded query: what the binary
/// fallback is probed and suppressed by. Empty where the query has no
/// token.
pub open spec fn first_token(q: Seq<char>) -> Seq<char> {
    if tokens(q).len() > 0 {
        tokens(q)[0]
    } else {
        Seq::empty()
    }
}

/// The candidate list once the binary fallback has been decided: the
/// fallback joins only where it exists and no indexed entry's folded name
/// equals the query's first token.
pub open spec fn with_binary(
    base: Seq<SearchResult>,
    binary: Option<SearchResult>,
    token_found: bool,
) -> Seq<SearchResult> {
    match binary {
        Some(b) => if !token_found {
            base.push(b)
        } else {
            base
        },
        None => base,
    }
}

/// Extending the scanned prefix by one entry finds an exact match exactly
/// where one was already found or the new entry is one.
proof fn lemma_exact_step(entries: Seq<AppEntry>, q: Seq<char>, i: int, exact: bool)
    requires
        0 <= i < entries.len(),
        exact == exact_found(entries.take(i), q),
    ensures
        exact_found(entries.take(i + 1), q) == (exact || lower_of(entries[i].name@) == q),
{
    let pre = entries.take(i);
    let post = entries.take(i + 1);
    let cur = lower_of(entries[i].name@) == q;
    if exact {
        let w = choose|k: int| 0 <= k < pre.len() && lower_of((#[trigger] pre[k]).name@) == q;
        assert(post[w] == pre[w]);
        assert(exact_found(post, q));
    }
    if cur {
        assert(post[i] == entries[i]);
        assert(exact_found(post, q));
    }
    if exact_found(post, q) && !exact && !cur {
        let w = choose|k: int| 0 <= k < post.len() && lower_of((#[trigger] post[k]).name@) == q;
        if w < i {
            assert(pre[w] == post[w]);
            assert(exact_found(pre, q));
        } else {
            assert(post[i] == entries[i]);
        }
        assert(false);
    }
}

/// Text-mode search: every index entry whose folded name matches the
/// folded query (exactly, or by the fuzzy matcher), de-duplicated by
/// folded name, joined by the caller's binary fallback when no indexed
/// entry's folded name equals the query's first token — ordered by score
/// and capped at `max_results`.
#[verifier::spinoff_prover]
pub fn text_search(
    index: &AppIndex,
    query: &str,
    binary: Option<SearchResult>,
    max_results: usize,
) -> (r: Vec<SearchResult>)
    ensures
        r@.len() <= max_results,
        sorted_results(r@),
        exists|sorted: Seq<SearchResult>|
            {
                &&& sorted.to_multiset() == with_binary(
                    text_candidates(index.view_seq(), lower_of(query@), Seq::empty()),
                    binary,
                    tokens(lower_of(query@)).len() > 0 && exact_found(
                        index.view_seq(),
                        first_token(lower_of(query@)),
                    ),
                ).to_multiset()
                &&& sorted_results(sorted)
                &&& r@ == sorted.take(
                    if sorted.len() <= max_results {
                        sorted.len() as int
                    } else {
                        max_results as int
                    },
                )
            },
{
    let lq = fold_case(query);
    let ghost q = lower_of(query@);
    let ghost entries = index.view_seq();
    let toks = split_tokens(lq.as_str());
    let has_tok = toks.len() > 0;
    let t0: String = if toks.len() > 0 {
        toks[0].clone()
    } else {
        String::new()
    };
    let ghost t0v = first_token(q);
    proof {
        if has_tok {
            assert(toks.deep_view()[0] == tokens(q)[0]);
            assert(t0@ == t0v);
        }
    }
    let n = index.entries.len();
    let mut out: Vec<SearchResult> = Vec::new();
    let mut seen: Vec<String> = Vec::new();
    let mut token_match = false;
    proof {
        assert(entries.skip(0) =~= entries);
        assert(entries.take(0) =~= Seq::<AppEntry>::empty());
        assert(seen.deep_view() =~= Seq::<Seq<char>>::empty());
        assert(out@ + text_candidates(entries.skip(0), q, seen.deep_view()) =~= text_candidates(
            entries,
            q,
            Seq::empty(),
        ));
    }
    let mut i: usize = 0;
    while i < n
        invariant
            n == entries.len(),
            entries == index.view_seq(),
            q == lower_of(query@),
            lq@ == q,
            has_tok == (tokens(q).len() > 0),
            has_tok ==> t0@ == t0v,
            t0v == first_token(q),
            i <= n,
            text_candidates(entries, q, Seq::empty()) == out@ + text_candidates(
                entries.skip(i as int),
                q,
                seen.deep_view(),
            ),
            token_match == (has_tok && exact_found(entries.take(i as int), t0v)),
        decreases n - i,
    {
        proof {
            assert(entries.skip(i as int)[0] == entries[i as int]);
            assert(entries.skip(i as int).drop_first() =~= entries.skip(i + 1));
            lemma_exact_step(entries, t0v, i as int, exact_found(entries.take(i as int), t0v));
        }
        let e = &index.entries[i];
        let nl = fold_case(e.name.as_str());
        if has_tok && str_eq(nl.as_str(), t0.as_str()) {
            token_match = true;
        }
        if seen_has(&seen, nl.as_str()) {
            i = i + 1;
            continue ;
        }
        let ghost seen_before = seen.deep_view();
        let is_exact = str_eq(nl.as_str(), lq.as_str());
        if is_exact {
            let b = text_bonus(e);
            let score = BONUS_SCORE_EXACT + b;
            let ghost prev = out@;
            out.push(SearchResult { app: e.duplicate(), score });
            seen.push(nl);
            proof {
                assert(seen.deep_view() =~= seen_before.push(lower_of(entries[i as int].name@)));
                let sr = SearchResult {
                    app: entries[i as int],
                    score: exact_score_spec(entries[i as int]) as i64,
                };
                assert(text_candidate(entries[i as int], q) == Some(sr));
                assert(prev + (seq![sr] + text_candidates(entries.skip(i + 1), q, seen.deep_view()))
                    =~= out@ + text_candidates(entries.skip(i + 1), q, seen.deep_view()));
            }
        } else {
            match fuzzy_match_score(nl.as_str(), lq.as_str()) {
                Some(raw) => {
                    let clamped: i64 = if raw < 0 {
                        0
                    } else if raw > FUZZY_SCORE_CAP {
                        FUZZY_SCORE_CAP
                    } else {
                        raw
                    };
                    let b = text_bonus(e);
                    let score = clamped + b;
                    let ghost prev = out@;
                    out.push(SearchResult { app: e.duplicate(), score });
                    seen.push(nl);
                    proof {
                        assert(seen.deep_view() =~= seen_before.push(
                            lower_of(entries[i as int].name@),
                        ));
                        let rawi = fuzzy_score(lower_of(entries[i as int].name@), q)->0;
                        assert(score == fuzzy_total_spec(entries[i as int], rawi) as i64);
                        let sr = SearchResult {
                            app: entries[i as int],
                            score: fuzzy_total_spec(entries[i as int], rawi) as i64,
                        };
                        assert(text_candidate(entries[i as int], q) == Some(sr));
                        assert(prev + (seq![sr] + text_candidates(
                            entries.skip(i + 1),
                            q,
                            seen.deep_view(),
                        )) =~= out@ + text_candidates(entries.skip(i + 1), q, seen.deep_view()));
                    }
                },
                None => {
                    proof {
                        assert(text_candidate(entries[i as int], q) is None);
                    }
                },
            }
        }
        i = i + 1;
    }
    proof {
        assert(entries.skip(n as int) =~= Seq::<AppEntry>::empty());
        assert(out@ + Seq::<SearchResult>::empty() =~= out@);
        assert(entries.take(n as int) =~= entries);
    }
    match binary {
        Some(b) => {
            if !token_match {
                out.push(b);
            }
        },
        None => {},
    }
    sort_results(&mut out);
    let ghost sorted = out@;
    truncate_results(&mut out, max_results);
    proof {
        let m = if sorted.len() <= max_results {
            sorted.len() as int
        } else {
            max_results as int
        };
        assert(out@ == sorted.take(m));
        assert forall|a: int, b: int| 0 <= a < b < out@.len() implies result_le(
            #[trigger] out@[a],
            #[trigger] out@[b],
        ) by {
            assert(out@[a] == sorted[a]);
            assert(out@[b] == sorted[b]);
        }
    }
    out
}

/// The score of one listing row: directories are boosted above files.
pub open spec fn row_score(kind: FileKind) -> int {
    match kind {
        FileKind::Directory => BONUS_SCORE_FOLDER as int,
        _ => BONUS_SCORE_FILE_LISTING as int,
    }
}

/// A listing row for one directory child: the resolved entry under the
/// row score of its kind.
pub open spec fn listing_row(path: Seq<char>, kind: FileKind, sr: SearchResult) -> bool {
    &&& path_entry_spec(path, kind, sr.app)
    &&& sr.score == row_score(kind)
}

/// The synthetic navigation row for the listing directory's parent: named
/// `..`, carrying the parent's path and per-kind fields, boosted and
/// scored as a folder so that it stands first.
pub open spec fn dotdot_row(path: Seq<char>, kind: FileKind, sr: SearchResult) -> bool {
    &&& sr.app.name@ == ".."@
    &&& sr.app.description@ == Seq::<char>::empty()
    &&& sr.app.path@ == path
    &&& kind_fields_spec(path, kind, sr.app.icon_name@, sr.app.command@)
    &&& sr.app.launch_count == 0
    &&& sr.app.entry_type == crate::entry::EntryType::File
    &&& sr.app.score_boost == BONUS_SCORE_FOLDER
    &&& sr.score == BONUS_SCORE_FOLDER
}

/// How many children resolve to a row: those whose path has a final name
/// component.
pub open spec fn resolvable_count(cs: Seq<(String, FileKind)>) -> int
    decreases cs.len(),
{
    if cs.len() == 0 {
        0
    } else {
        resolvable_count(cs.drop_last()) + (if file_name_of(cs.last().0@).len() > 0 {
            1int
        } else {
            0int
        })
    }
}

/// Path-mode search: the synthetic `..` row for the parent first (whenever
/// the caller names a parent), then one row per resolvable child,
/// directories before files and each group ordered by name — capped at
/// `max_results`. This mode never reads the index.
#[verifier::rlimit(100)]
#[verifier::spinoff_prover]
pub fn path_search(
    parent: Option<(String, FileKind)>,
    children: Vec<(String, FileKind)>,
    max_results: usize,
) -> (r: Vec<SearchResult>)
    ensures
        r@.len() <= max_results,
        // the navigation row stands first whenever a parent was named and
        // anything fits at all
        (parent is Some && max_results > 0) ==> r@.len() >= 1 && dotdot_row(
            (parent->0).0@,
            (parent->0).1,
            r@[0],
        ),
        // the child rows are ordered: directories first, then by name
        r@.len() >= (if parent is Some { 1int } else { 0int }) ==> sorted_results(
            r@.skip(if parent is Some { 1int } else { 0int }),
        ),
        // every child row lists some child
        forall|j: int|
            (if parent is Some {
                1int
            } else {
                0int
            }) <= j < r@.len() ==> exists|c: int|
                0 <= c < children@.len() && listing_row(
                    (#[trigger] children@[c]).0@,
                    children@[c].1,
                    #[trigger] r@[j],
                ),
        // nothing is dropped below the cap
        r@.len() == {
            let full = (if parent is Some {
                1int
            } else {
                0int
            }) + resolvable_count(children@);
            if full <= max_results {
                full
            } else {
                max_results as int
            }
        },
{
    let mut rows: Vec<SearchResult> = Vec::new();
    match &parent {
        Some(p) => {
            let (icon_name, command) = kind_fields(p.0.as_str(), &p.1);
            rows.push(
                SearchResult {
                    app: AppEntry {
                        name: String::from_str(".."),
                        description: String::new(),
                        path: p.0.clone(),
                        command,
                        icon_name,
                        launch_count: 0,
                        entry_type: crate::entry::EntryType::File,
                        score_boost: BONUS_SCORE_FOLDER,
                    },
                    score: BONUS_SCORE_FOLDER,
                },
            );
        },
        None => {},
    }
    let n = children.len();
    let mut kids: Vec<SearchResult> = Vec::new();
    proof {
        assert(children@.take(0) =~= Seq::<(String, FileKind)>::empty());
    }
    let mut i: usize = 0;
    while i < n
        invariant
            n == children@.len(),
            i <= n,
            kids@.len() == resolvable_count(children@.take(i as int)),
            forall|j: int|
                0 <= j < kids@.len() ==> exists|c: int|
                    0 <= c < children@.len() && listing_row(
                        (#[trigger] children@[c]).0@,
                        children@[c].1,
                        #[trigger] kids@[j],
                    ),
        decreases n - i,
    {
        proof {
            assert(children@.take(i + 1).drop_last() =~= children@.take(i as int));
            assert(children@.take(i + 1).last() == children@[i as int]);
        }
        let c = &children[i];
        let path_copy = c.0.clone();
        let kind_copy = crate::entry::duplicate_kind(&c.1);
        let score: i64 = match &c.1 {
            FileKind::Directory => BONUS_SCORE_FOLDER,
            _ => BONUS_SCORE_FILE_LISTING,
        };
        match crate::entry::create_file_entry(path_copy, kind_copy) {
            Some(e) => {
                let ghost prev = kids@;
                kids.push(SearchResult { app: e, score });
                proof {
                    assert(listing_row(children@[i as int].0@, children@[i as int].1, kids@[
                    prev.len() as int]));
                    assert forall|j: int| 0 <= j < kids@.len() implies exists|cc: int|
                        0 <= cc < children@.len() && listing_row(
                            (#[trigger] children@[cc]).0@,
                            children@[cc].1,
                            #[trigger] kids@[j],
                        ) by {
                        if j < prev.len() {
                            assert(kids@[j] == prev[j]);
                        } else {
                            assert(listing_row(
                                children@[i as int].0@,
                                children@[i as int].1,
                                kids@[j],
                            ));
                        }
                    }
                }
            },
            None => {},
        }
        i = i + 1;
    }
    proof {
        assert(children@.take(n as int) =~= children@);
    }
    let ghost pre_sort = kids@;
    sort_results(&mut kids);
    proof {
        broadcast use vstd::seq_lib::group_to_multiset_ensures;

        // sorting rearranges the rows, so each still lists some child
        assert forall|j: int| 0 <= j < kids@.len() implies exists|cc: int|
            0 <= cc < children@.len() && listing_row(
                (#[trigger] children@[cc]).0@,
                children@[cc].1,
                #[trigger] kids@[j],
            ) by {
            assert(kids@.contains(kids@[j]));
            assert(kids@.to_multiset().count(kids@[j]) > 0);
            // anchor a witness among the unsorted rows before counting
            assert(pre_sort.to_multiset().count(pre_sort[choose|j0: int|
                0 <= j0 < pre_sort.len() && pre_sort[j0] == kids@[j]]) >= 0);
            assert(pre_sort.to_multiset().count(kids@[j]) > 0);
            assert(pre_sort.contains(kids@[j]));
            let j0 = choose|j0: int| 0 <= j0 < pre_sort.len() && pre_sort[j0] == kids@[j];
            assert(pre_sort[j0] == kids@[j]);
        }
    }
    let ghost head = rows@;
    let ghost sorted_kids = kids@;
    let mut kids = kids;
    rows.append(&mut kids);
    truncate_results(&mut rows, max_results);
    proof {
        let h: int = if parent is Some {
            1int
        } else {
            0int
        };
        let whole = head + sorted_kids;
        let m: int = if whole.len() <= max_results {
            whole.len() as int
        } else {
            max_results as int
        };
        assert(head.len() == h);
        assert(rows@ == whole.take(m));
        assert(rows@.len() == if h + resolvable_count(children@) <= max_results {
            h + resolvable_count(children@)
        } else {
            max_results as int
        });
        if parent is Some && max_results > 0 {
            assert(rows@[0] == head[0]);
        }
        assert forall|a: int, b: int| h <= a < b < rows@.len() implies result_le(
            #[trigger] rows@[a],
            #[trigger] rows@[b],
        ) by {
            assert(rows@[a] == sorted_kids[a - h]);
            assert(rows@[b] == sorted_kids[b - h]);
        }
        if rows@.len() >= h {
            assert forall|a: int, b: int| 0 <= a < b < rows@.skip(h).len() implies result_le(
                #[trigger] rows@.skip(h)[a],
                #[trigger] rows@.skip(h)[b],
            ) by {
                assert(rows@.skip(h)[a] == rows@[a + h]);
                assert(rows@.skip(h)[b] == rows@[b + h]);
            }
        }
        assert forall|j: int| h <= j < rows@.len() implies exists|cc: int|
            0 <= cc < children@.len() && listing_row(
                (#[trigger] children@[cc]).0@,
                children@[cc].1,
                #[trigger] rows@[j],
            ) by {
            assert(rows@[j] == sorted_kids[j - h]);
        }
    }
    rows
}

/// Is `e` an application resolved from a desktop-entry file? In one index
/// snapshot these are exactly the entries whose source path ends in
/// `.desktop`.
pub open spec fn is_desktop_source(e: AppEntry) -> bool {
    e.path@.len() >= ".desktop"@.len() && e.path@.skip(e.path@.len() - ".desktop"@.len())
        == ".desktop"@
}

/// Empty-query candidates: every desktop-entry application of the index,
/// in index order, each under its usage score.
pub open spec fn empty_candidates(s: Seq<AppEntry>) -> Seq<SearchResult>
    decreases s.len(),
{
    if s.len() == 0 {
        Seq::empty()
    } else if is_desktop_source(s[0]) {
        seq![
            SearchResult { app: s[0], score: empty_score_spec(s[0]) as i64 },
        ] + empty_candidates(s.drop_first())
    } else {
        empty_candidates(s.drop_first())
    }
}

/// Empty-query search: the `max_results` highest-scored desktop-entry
/// applications of the index, ordered by usage score.
#[verifier::spinoff_prover]
pub fn empty_search(index: &AppIndex, max_results: usize) -> (r: Vec<SearchResult>)
    ensures
        r@.len() <= max_results,
        sorted_results(r@),
        exists|sorted: Seq<SearchResult>|
            {
                &&& sorted.to_multiset() == empty_candidates(index.view_seq()).to_multiset()
                &&& sorted_results(sorted)
                &&& r@ == sorted.take(
                    if sorted.len() <= max_results {
                        sorted.len() as int
                    } else {
                        max_results as int
                    },
                )
            },
{
    let n = index.entries.len();
    let mut out: Vec<SearchResult> = Vec::new();
    proof {
        assert(index.view_seq().skip(0) =~= index.view_seq());
        assert(out@ + empty_candidates(index.view_seq().skip(0)) =~= empty_candidates(
            index.view_seq(),
        ));
    }
    let mut i: usize = 0;
    while i < n
        invariant
            n == index.view_seq().len(),
            i <= n,
            empty_candidates(index.view_seq()) == out@ + empty_candidates(
                index.view_seq().skip(i as int),
            ),
        decreases n - i,
    {
        proof {
            assert(index.view_seq().skip(i as int)[0] == index.view_seq()[i as int]);
            assert(index.view_seq().skip(i as int).drop_first() =~= index.view_seq().skip(i + 1));
        }
        let e = &index.entries[i];
        if crate::text::ends_with_str(e.path.as_str(), ".desktop") {
            let score = empty_score(e);
            let ghost prev = out@;
            out.push(SearchResult { app: e.duplicate(), score });
            proof {
                assert(out@ =~= prev.push(
                    SearchResult {
                        app: index.view_seq()[i as int],
                        score: empty_score_spec(index.view_seq()[i as int]) as i64,
                    },
                ));
                assert(prev + (seq![
                    SearchResult {
                        app: index.view_seq()[i as int],
                        score: empty_score_spec(index.view_seq()[i as int]) as i64,
                    },
                ] + empty_candidates(index.view_seq().skip(i + 1))) =~= out@ + empty_candidates(
                    index.view_seq().skip(i + 1),
                ));
            }
        }
        i = i + 1;
    }
    proof {
        assert(index.view_seq().skip(n as int) =~= Seq::<AppEntry>::empty());
        assert(out@ + Seq::<SearchResult>::empty() =~= out@);
    }
    sort_results(&mut out);
    let ghost sorted = out@;
    truncate_results(&mut out, max_results);
    proof {
        let m = if sorted.len() <= max_results {
            sorted.len() as int
        } else {
            max_results as int
        };
        assert(out@ == sorted.take(m));
        assert forall|a: int, b: int| 0 <= a < b < out@.len() implies result_le(
            #[trigger] out@[a],
            #[trigger] out@[b],
        ) by {
            assert(out@[a] == sorted[a]);
            assert(out@[b] == sorted[b]);
        }
    }
    out
}

/// One recorded launch raises the launched entry's empty-query score by
/// exactly one launch weight — while the entry's count stands below the
/// count type's ceiling, where the increment saturates instead of
/// overflowing.
pub proof fn lemma_recorded_launch_raises_score(e: AppEntry)
    requires
        e.launch_count < u32::MAX,
    ensures
        empty_score_spec(crate::index::bumped(e)) == empty_score_spec(e)
            + BONUS_SCORE_LAUNCH_COUNT,
{
}

/// A path-mode query shell-expanded for listing: a leading `~` and any
/// `$` variables resolved, the query itself where expansion fails.
pub fn expand_query_path(query: &str) -> (r: String)
    ensures
        ((query@.len() == 0 || query@[0] != '~') && (forall|i: int|
            0 <= i < query@.len() ==> query@[i] != '$')) ==> r@ == query@,
{
    match crate::bindings::expand_full_str(query) {
        Some(expanded) => expanded,
        None => query.to_owned(),
    }
}

} // verus!
