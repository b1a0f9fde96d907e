//! Choosing and ordering the games that are shown.

use vstd::prelude::*;
use crate::steamspy::SteamSpyGame;
use std::collections::HashSet;
use crate::text::{chars_of, ascii_lowercase_chars, same_chars, to_lowercase, contains_chars, ascii_lower, has_infix, unicode_lowercase};

verus! {

/// `a` comes strictly before `b` in lexicographic order of code points, which
/// is the order of Rust's `String` comparison (UTF-8 byte order agrees with
/// code point order).
pub open spec fn lex_less(a: Seq<char>, b: Seq<char>) -> bool
    decreases a.len(),
{
    if a.len() == 0 {
        b.len() > 0
    } else if b.len() == 0 {
        false
    } else if a[0] != b[0] {
        (a[0] as int) < (b[0] as int)
    } else {
        lex_less(a.drop_first(), b.drop_first())
    }
}

pub proof fn lemma_lex_less_irreflexive(a: Seq<char>)
    ensures
        !lex_less(a, a),
    decreases a.len(),
{
    if a.len() > 0 {
        lemma_lex_less_irreflexive(a.drop_first());
    }
}

pub proof fn lemma_lex_less_transitive(a: Seq<char>, b: Seq<char>, c: Seq<char>)
    requires
        lex_less(a, b),
        lex_less(b, c),
    ensures
        lex_less(a, c),
    decreases a.len(),
{
    if a.len() > 0 && b.len() > 0 && c.len() > 0 {
        if a[0] == b[0] && b[0] == c[0] {
            lemma_lex_less_transitive(a.drop_first(), b.drop_first(), c.drop_first());
        }
    }
}

pub proof fn lemma_lex_less_total(a: Seq<char>, b: Seq<char>)
    requires
        a != b,
    ensures
        lex_less(a, b) || lex_less(b, a),
    decreases a.len(),
{
    if a.len() > 0 && b.len() > 0 {
        if a[0] == b[0] {
            if a.drop_first() == b.drop_first() {
                assert(a =~= seq![a[0]] + a.drop_first());
                assert(b =~= seq![b[0]] + b.drop_first());
            }
            lemma_lex_less_total(a.drop_first(), b.drop_first());
        } else {
            assert((a[0] as int) != (b[0] as int));
        }
    } else if a.len() == 0 && b.len() == 0 {
        assert(a =~= b);
    }
}

/// Whether `a` comes strictly before `b` in lexicographic order.
pub fn lex_less_chars(a: &Vec<char>, b: &Vec<char>) -> (r: bool)
    ensures
        r == lex_less(a@, b@),
{
    let mut i: usize = 0;
    assert(a@.skip(0) =~= a@);
    assert(b@.skip(0) =~= b@);
    while i < a.len() && i < b.len()
        invariant
            i <= a@.len(),
            i <= b@.len(),
            lex_less(a@, b@) == lex_less(a@.skip(i as int), b@.skip(i as int)),
        decreases a@.len() - i,
    {
        if a[i] != b[i] {
            let r = a[i] < b[i];
            return r;
        }
        assert(a@.skip(i as int).drop_first() =~= a@.skip(i + 1));
        assert(b@.skip(i as int).drop_first() =~= b@.skip(i + 1));
        i += 1;
    }
    i < b.len()
}

/// Whether string `a` sorts strictly before string `b`.
pub fn str_less(a: &str, b: &str) -> (r: bool)
    ensures
        r == lex_less(a@, b@),
{
    lex_less_chars(&chars_of(a), &chars_of(b))
}

} // verus!

verus! {

/// The order in which the games are listed.
#[derive(Clone, Copy, Debug)]
pub enum SortBy {
    /// Most live players first (a missing count counts as zero)
    Live,
    /// Highest peak of yesterday first
    Ccu,
    /// Alphabetically by name
    Name,
}

/// A game together with its live player count, if one is known.
pub type Entry = (SteamSpyGame, Option<u32>);

/// The live player count used for ordering: zero where none is known.
pub open spec fn live_key(live: Option<u32>) -> nat {
    match live {
        Some(n) => n as nat,
        None => 0,
    }
}

/// `a` is listed strictly before `b` under `by`.
pub open spec fn precedes(a: Entry, b: Entry, by: SortBy) -> bool {
    match by {
        SortBy::Live => live_key(a.1) > live_key(b.1),
        SortBy::Ccu => a.0.ccu > b.0.ccu,
        SortBy::Name => lex_less(a.0.name@, b.0.name@),
    }
}

/// Neither of `a` and `b` is listed before the other under `by`.
pub open spec fn tied(a: Entry, b: Entry, by: SortBy) -> bool {
    !precedes(a, b, by) && !precedes(b, a, by)
}

proof fn lemma_precedes_irreflexive(a: Entry, by: SortBy)
    ensures
        !precedes(a, a, by),
{
    lemma_lex_less_irreflexive(a.0.name@);
}

proof fn lemma_precedes_transitive(a: Entry, b: Entry, c: Entry, by: SortBy)
    requires
        precedes(a, b, by),
        precedes(b, c, by),
    ensures
        precedes(a, c, by),
{
    if by is Name {
        lemma_lex_less_transitive(a.0.name@, b.0.name@, c.0.name@);
    }
}

/// When `a` is not before `b`, and `c` is before `b`, then `c` is before `a`.
proof fn lemma_precedes_mixed(a: Entry, b: Entry, c: Entry, by: SortBy)
    requires
        !precedes(a, b, by),
        precedes(c, b, by),
    ensures
        precedes(c, a, by),
{
    if by is Name {
        if a.0.name@ == b.0.name@ {
        } else {
            lemma_lex_less_total(a.0.name@, b.0.name@);
            lemma_lex_less_transitive(c.0.name@, b.0.name@, a.0.name@);
        }
    }
}

fn entry_precedes(a: &Entry, b: &Entry, by: SortBy) -> (r: bool)
    ensures
        r == precedes(*a, *b, by),
{
    match by {
        SortBy::Live => {
            let x: u32 = match a.1 { Some(n) => n, None => 0 };
            let y: u32 = match b.1 { Some(n) => n, None => 0 };
            x > y
        },
        SortBy::Ccu => a.0.ccu > b.0.ccu,
        SortBy::Name => str_less(a.0.name.as_str(), b.0.name.as_str()),
    }
}

/// `out` is `inp` rearranged by `perm` (`out[k]` is `inp[perm[k]]`, every
/// position of `inp` used once), listed in the order `by`, with tied entries
/// kept in their order in `inp`: the result of a stable sort.
pub open spec fn stably_sorted_by(inp: Seq<Entry>, out: Seq<Entry>, perm: Seq<int>, by: SortBy) -> bool {
    &&& out.len() == inp.len()
    &&& perm.len() == inp.len()
    &&& forall|k: int| 0 <= k < perm.len() ==> 0 <= #[trigger] perm[k] < inp.len()
    &&& forall|k: int, l: int| 0 <= k < l < perm.len() ==> #[trigger] perm[k] != #[trigger] perm[l]
    &&& forall|k: int| 0 <= k < out.len() ==> #[trigger] out[k] == inp[perm[k]]
    &&& forall|k: int, l: int|
        0 <= k < l < out.len() ==> !precedes(#[trigger] out[l], #[trigger] out[k], by) && (tied(
            out[k],
            out[l],
            by,
        ) ==> perm[k] < perm[l])
}

/// The position of the first entry of `rest` that no other entry of `rest`
/// precedes.
fn first_best(rest: &Vec<Entry>, by: SortBy) -> (j: usize)
    requires
        rest@.len() > 0,
    ensures
        j < rest@.len(),
        forall|m: int| 0 <= m < rest@.len() ==> !precedes(#[trigger] rest@[m], rest@[j as int], by),
        forall|m: int| 0 <= m < j ==> precedes(rest@[j as int], #[trigger] rest@[m], by),
{
    let mut j: usize = 0;
    let mut m: usize = 1;
    proof {
        lemma_precedes_irreflexive(rest@[0], by);
    }
    while m < rest.len()
        invariant
            j < m <= rest@.len(),
            forall|k: int| 0 <= k < m ==> !precedes(#[trigger] rest@[k], rest@[j as int], by),
            forall|k: int| 0 <= k < j ==> precedes(rest@[j as int], #[trigger] rest@[k], by),
        decreases rest@.len() - m,
    {
        if entry_precedes(&rest[m], &rest[j], by) {
            let old_j = j;
            proof {
                assert forall|k: int| 0 <= k < m implies precedes(rest@[m as int], #[trigger] rest@[k], by) by {
                    if k < old_j {
                        lemma_precedes_transitive(rest@[m as int], rest@[old_j as int], rest@[k], by);
                    } else if k > old_j {
                        lemma_precedes_mixed(rest@[k], rest@[old_j as int], rest@[m as int], by);
                    }
                }
                assert forall|k: int| 0 <= k <= m implies !precedes(#[trigger] rest@[k], rest@[m as int], by) by {
                    if k < m {
                        if precedes(rest@[k], rest@[m as int], by) {
                            lemma_precedes_transitive(rest@[k], rest@[m as int], rest@[k], by);
                            lemma_precedes_irreflexive(rest@[k], by);
                        }
                    } else {
                        lemma_precedes_irreflexive(rest@[k], by);
                    }
                }
            }
            j = m;
        }
        m += 1;
    }
    j
}

} // verus!

verus! {

/// Sorts `entries` in the order `by`, keeping tied entries in their input
/// order (as `sort_by` does).
pub fn stable_sort(entries: Vec<Entry>, by: SortBy) -> (out: Vec<Entry>)
    ensures
        exists|perm: Seq<int>| stably_sorted_by(entries@, out@, perm, by),
{
    let ghost inp = entries@;
    let mut rest = entries;
    let ghost mut idx: Seq<int> = Seq::new(inp.len(), |i: int| i);
    let ghost mut perm: Seq<int> = Seq::empty();
    let mut out: Vec<Entry> = Vec::new();
    while rest.len() > 0
        invariant
            rest@.len() == idx.len(),
            out@.len() == perm.len(),
            out@.len() + rest@.len() == inp.len(),
            forall|m: int| 0 <= m < idx.len() ==> 0 <= #[trigger] idx[m] < inp.len(),
            forall|m: int| 0 <= m < idx.len() ==> #[trigger] rest@[m] == inp[idx[m]],
            forall|m: int, n: int| 0 <= m < n < idx.len() ==> #[trigger] idx[m] < #[trigger] idx[n],
            forall|k: int| 0 <= k < perm.len() ==> 0 <= #[trigger] perm[k] < inp.len(),
            forall|k: int| 0 <= k < perm.len() ==> #[trigger] out@[k] == inp[perm[k]],
            forall|k: int, l: int| 0 <= k < l < perm.len() ==> #[trigger] perm[k] != #[trigger] perm[l],
            forall|k: int, m: int|
                0 <= k < perm.len() && 0 <= m < idx.len() ==> #[trigger] perm[k] != #[trigger] idx[m],
            forall|k: int, l: int|
                0 <= k < l < out@.len() ==> !precedes(#[trigger] out@[l], #[trigger] out@[k], by) && (
                tied(out@[k], out@[l], by) ==> perm[k] < perm[l]),
            forall|k: int, m: int|
                0 <= k < out@.len() && 0 <= m < rest@.len() ==> !precedes(
                    #[trigger] rest@[m],
                    #[trigger] out@[k],
                    by,
                ) && (tied(out@[k], rest@[m], by) ==> perm[k] < idx[m]),
        decreases rest@.len(),
    {
        let j = first_best(&rest, by);
        let ghost old_rest = rest@;
        let ghost old_idx = idx;
        let ghost old_out = out@;
        let ghost old_perm = perm;
        let x = rest.remove(j);
        out.push(x);
        proof {
            perm = perm.push(old_idx[j as int]);
            idx = idx.remove(j as int);
            assert forall|k: int, m: int|
                0 <= k < out@.len() && 0 <= m < rest@.len() implies !precedes(
                    #[trigger] rest@[m],
                    #[trigger] out@[k],
                    by,
                ) && (tied(out@[k], rest@[m], by) ==> perm[k] < idx[m]) by {
                let om = if m < j { m } else { m + 1 };
                assert(rest@[m] == old_rest[om]);
                assert(idx[m] == old_idx[om]);
                if k < old_out.len() {
                    assert(out@[k] == old_out[k]);
                } else {
                    if om < j {
                        assert(precedes(old_rest[j as int], old_rest[om], by));
                    } else {
                        assert(old_idx[j as int] < old_idx[om]);
                    }
                }
            }
            assert forall|k: int, l: int|
                0 <= k < l < out@.len() implies !precedes(#[trigger] out@[l], #[trigger] out@[k], by) && (
                tied(out@[k], out@[l], by) ==> perm[k] < perm[l]) by {
                if l == old_out.len() {
                    assert(out@[l] == old_rest[j as int]);
                    assert(out@[k] == old_out[k]);
                } else {
                    assert(out@[l] == old_out[l]);
                    assert(out@[k] == old_out[k]);
                }
            }
            assert forall|k: int, m: int|
                0 <= k < perm.len() && 0 <= m < idx.len() implies #[trigger] perm[k] != #[trigger] idx[m] by {
                let om = if m < j { m } else { m + 1 };
                assert(idx[m] == old_idx[om]);
                if k == old_perm.len() {
                    if om < j {
                        assert(old_idx[om] < old_idx[j as int]);
                    } else {
                        assert(old_idx[j as int] < old_idx[om]);
                    }
                } else {
                    assert(perm[k] == old_perm[k]);
                }
            }
            assert forall|k: int, l: int| 0 <= k < l < perm.len() implies #[trigger] perm[k] != #[trigger] perm[l] by {
                if l == old_perm.len() {
                    assert(perm[k] == old_perm[k]);
                    assert(perm[l] == old_idx[j as int]);
                }
            }
            assert forall|m: int, n: int| 0 <= m < n < idx.len() implies #[trigger] idx[m] < #[trigger] idx[n] by {
                let om = if m < j { m } else { m + 1 };
                let on = if n < j { n } else { n + 1 };
                assert(idx[m] == old_idx[om]);
                assert(idx[n] == old_idx[on]);
            }
        }
    }
    assert(stably_sorted_by(inp, out@, perm, by));
    out
}

} // verus!

verus! {

/// The tag whose listing is narrowed to the curated set of fighting games.
pub open spec fn fighting_tag() -> Seq<char> {
    seq!['f', 'i', 'g', 'h', 't', 'i', 'n', 'g']
}

/// Whether `tag` is the default fighting tag, in any ASCII case
/// (`eq_ignore_ascii_case("fighting")`): only then is the curated allowlist
/// applied.
pub fn uses_allowlist(tag: &str) -> (b: bool)
    ensures
        b == (ascii_lower(tag@) == fighting_tag()),
{
    let lower = ascii_lowercase_chars(tag);
    let mut expected: Vec<char> = Vec::new();
    expected.push('f');
    expected.push('i');
    expected.push('g');
    expected.push('h');
    expected.push('t');
    expected.push('i');
    expected.push('n');
    expected.push('g');
    assert(expected@ =~= fighting_tag());
    same_chars(&lower, &expected)
}

/// A game passes the filters: its App ID is allowed (when there is an
/// allowlist), its lowercased name contains the lowercased name filter (when
/// there is one), and its peak count reaches the minimum (when there is one).
pub open spec fn passes_filters(
    g: SteamSpyGame,
    allowed: Option<Set<u32>>,
    name_filter: Option<Seq<char>>,
    min_ccu: Option<u32>,
) -> bool {
    &&& (allowed matches Some(a) ==> a.contains(g.appid))
    &&& (name_filter matches Some(f) ==> has_infix(unicode_lowercase(g.name@), unicode_lowercase(f)))
    &&& (min_ccu matches Some(m) ==> g.ccu >= m)
}

pub open spec fn set_view(allowed: Option<&HashSet<u32>>) -> Option<Set<u32>> {
    match allowed {
        Some(a) => Some(a@),
        None => None,
    }
}

pub open spec fn str_view(s: Option<&str>) -> Option<Seq<char>> {
    match s {
        Some(f) => Some(f@),
        None => None,
    }
}

/// Keeps, in order, the games that pass the allowlist, the name filter and the
/// minimum peak count.
pub fn filter_games(
    games: Vec<SteamSpyGame>,
    allowed: Option<&HashSet<u32>>,
    name_filter: Option<&str>,
    min_ccu: Option<u32>,
) -> (out: Vec<SteamSpyGame>)
    ensures
        out@ == games@.filter(
            |g: SteamSpyGame| passes_filters(g, set_view(allowed), str_view(name_filter), min_ccu),
        ),
        // every game kept is allowed, has the filter in its own lowercased
        // name, and reaches the minimum peak
        forall|k: int|
            0 <= k < out@.len() ==> (allowed matches Some(a) ==> a@.contains((#[trigger] out@[k]).appid)) && (
            name_filter matches Some(f) ==> has_infix(unicode_lowercase(out@[k].name@), unicode_lowercase(f@)))
                && (min_ccu matches Some(m) ==> out@[k].ccu >= m),
{
    broadcast use vstd::std_specs::hash::group_hash_axioms;
    let ghost keep = |g: SteamSpyGame| passes_filters(g, set_view(allowed), str_view(name_filter), min_ccu);
    let wanted: Option<Vec<char>> = match name_filter {
        Some(f) => Some(chars_of(to_lowercase(f).as_str())),
        None => None,
    };
    let ghost all = games@;
    let mut out: Vec<SteamSpyGame> = Vec::new();
    for g in it: games.into_iter()
        invariant
            it.seq() == all,
            keep == (|g: SteamSpyGame| passes_filters(g, set_view(allowed), str_view(name_filter), min_ccu)),
            out@ == all.take(it.index() as int).filter(keep),
            name_filter matches Some(f) ==> wanted matches Some(w) && w@ == unicode_lowercase(f@),
            name_filter is None ==> wanted is None,
    {
        let ghost i = it.index() as int;
        let mut ok = true;
        if let Some(a) = allowed {
            if !a.contains(&g.appid) {
                ok = false;
            }
        }
        if let Some(w) = &wanted {
            let name = chars_of(to_lowercase(g.name.as_str()).as_str());
            if !contains_chars(&name, w) {
                ok = false;
            }
        }
        if let Some(m) = min_ccu {
            if g.ccu < m {
                ok = false;
            }
        }
        assert(ok == keep(g));
        proof {
            assert(all.take(i + 1).drop_last() =~= all.take(i));
            reveal_with_fuel(Seq::filter, 1);
        }
        if ok {
            out.push(g);
        }
    }
    proof {
        assert(all.take(all.len() as int) =~= all);
        law_filters_keep_only_matching_games(all, set_view(allowed), str_view(name_filter), min_ccu);
        assert(out@ == kept_games(all, set_view(allowed), str_view(name_filter), min_ccu));
        assert forall|k: int| 0 <= k < out@.len() implies (allowed matches Some(a) ==> a@.contains(
            (#[trigger] out@[k]).appid,
        )) by {
            if let Some(a) = allowed {
                assert(set_view(allowed) == Some(a@));
            }
        }
        assert forall|k: int| 0 <= k < out@.len() implies (name_filter matches Some(f) ==> has_infix(
            unicode_lowercase((#[trigger] out@[k]).name@),
            unicode_lowercase(f@),
        )) by {
            if let Some(f) = name_filter {
                assert(str_view(name_filter) == Some(f@));
            }
        }
    }
    out
}

/// The games, in order, that pass the filters.
pub open spec fn kept_games(
    games: Seq<SteamSpyGame>,
    allowed: Option<Set<u32>>,
    name_filter: Option<Seq<char>>,
    min_ccu: Option<u32>,
) -> Seq<SteamSpyGame> {
    games.filter(|g: SteamSpyGame| passes_filters(g, allowed, name_filter, min_ccu))
}

/// The filters keep a game only where it meets each of them: its App ID is
/// on the allowlist, the lowercased filter occurs in its lowercased name (its
/// developer and App ID do not count), and its peak reaches the minimum; and
/// every game that meets them all is kept.
pub proof fn law_filters_keep_only_matching_games(
    games: Seq<SteamSpyGame>,
    allowed: Option<Set<u32>>,
    name_filter: Option<Seq<char>>,
    min_ccu: Option<u32>,
)
    ensures
        forall|k: int|
            0 <= k < kept_games(games, allowed, name_filter, min_ccu).len() ==> {
                &&& allowed matches Some(a) ==> a.contains(
                    (#[trigger] kept_games(games, allowed, name_filter, min_ccu)[k]).appid,
                )
                &&& name_filter matches Some(f) ==> has_infix(
                    unicode_lowercase(kept_games(games, allowed, name_filter, min_ccu)[k].name@),
                    unicode_lowercase(f),
                )
                &&& min_ccu matches Some(m) ==> kept_games(games, allowed, name_filter, min_ccu)[k].ccu >= m
            },
        forall|k: int|
            0 <= k < games.len() && (allowed matches Some(a) ==> a.contains((#[trigger] games[k]).appid)) && (
            name_filter matches Some(f) ==> has_infix(unicode_lowercase(games[k].name@), unicode_lowercase(f)))
                && (min_ccu matches Some(m) ==> games[k].ccu >= m) ==> kept_games(
                games,
                allowed,
                name_filter,
                min_ccu,
            ).contains(games[k]),
{
    broadcast use vstd::seq_lib::group_filter_ensures;
}

} // verus!

verus! {

/// Pairs the games with their live counts, position by position, stopping at
/// the shorter of the two.
pub open spec fn zipped(games: Seq<SteamSpyGame>, live: Seq<Option<u32>>) -> Seq<Entry> {
    Seq::new(
        if games.len() <= live.len() { games.len() } else { live.len() },
        |i: int| (games[i], live[i]),
    )
}

/// An entry has at least `min` live players (a missing count is zero).
pub open spec fn live_at_least(e: Entry, min: Option<u32>) -> bool {
    min matches Some(m) ==> live_key(e.1) >= m
}

/// The first `top` entries, or all when there is no limit.
pub open spec fn first_n(s: Seq<Entry>, top: Option<usize>) -> Seq<Entry> {
    match top {
        Some(n) => if n < s.len() { s.take(n as int) } else { s },
        None => s,
    }
}

fn zip_entries(games: Vec<SteamSpyGame>, live: &Vec<Option<u32>>) -> (out: Vec<Entry>)
    ensures
        out@ == zipped(games@, live@),
{
    let ghost all = games@;
    let mut out: Vec<Entry> = Vec::new();
    let mut i: usize = 0;
    let n = games.len();
    for g in it: games.into_iter()
        invariant
            it.seq() == all,
            n == all.len(),
            i == it.index(),
            i <= all.len(),
            out@.len() == (if i <= live@.len() { i as int } else { live@.len() as int }),
            forall|k: int| 0 <= k < out@.len() ==> #[trigger] out@[k] == (all[k], live@[k]),
    {
        if i < live.len() {
            out.push((g, live[i]));
        }
        i += 1;
    }
    assert(out@ =~= zipped(all, live@));
    out
}

fn keep_live_at_least(entries: Vec<Entry>, min_live: Option<u32>) -> (out: Vec<Entry>)
    ensures
        out@ == entries@.filter(|e: Entry| live_at_least(e, min_live)),
{
    let ghost all = entries@;
    let ghost keep = |e: Entry| live_at_least(e, min_live);
    let mut out: Vec<Entry> = Vec::new();
    for e in it: entries.into_iter()
        invariant
            it.seq() == all,
            keep == (|e: Entry| live_at_least(e, min_live)),
            out@ == all.take(it.index() as int).filter(keep),
    {
        let ghost i = it.index() as int;
        let ok = match min_live {
            Some(m) => {
                let n: u32 = match e.1 { Some(x) => x, None => 0 };
                n >= m
            },
            None => true,
        };
        proof {
            assert(all.take(i + 1).drop_last() =~= all.take(i));
            reveal_with_fuel(Seq::filter, 1);
        }
        if ok {
            out.push(e);
        }
    }
    proof {
        assert(all.take(all.len() as int) =~= all);
    }
    out
}

/// The games and their live counts, side by side.
pub open spec fn unzipped(s: Seq<Entry>) -> (Seq<SteamSpyGame>, Seq<Option<u32>>) {
    (s.map_values(|e: Entry| e.0), s.map_values(|e: Entry| e.1))
}

fn unzip_entries(entries: Vec<Entry>) -> (out: (Vec<SteamSpyGame>, Vec<Option<u32>>))
    ensures
        out.0@ == unzipped(entries@).0,
        out.1@ == unzipped(entries@).1,
{
    let ghost all = entries@;
    let mut games: Vec<SteamSpyGame> = Vec::new();
    let mut live: Vec<Option<u32>> = Vec::new();
    for e in it: entries.into_iter()
        invariant
            it.seq() == all,
            games@ == all.take(it.index() as int).map_values(|e: Entry| e.0),
            live@ == all.take(it.index() as int).map_values(|e: Entry| e.1),
    {
        let ghost i = it.index() as int;
        let (g, l) = e;
        games.push(g);
        live.push(l);
        assert(games@ =~= all.take(i + 1).map_values(|e: Entry| e.0));
        assert(live@ =~= all.take(i + 1).map_values(|e: Entry| e.1));
    }
    assert(all.take(all.len() as int) =~= all);
    (games, live)
}

/// The entries that take part in the ranking: games paired with their live
/// counts, without those under `min_live` live players.
pub open spec fn candidates(games: Seq<SteamSpyGame>, live: Seq<Option<u32>>, min_live: Option<u32>) -> Seq<Entry> {
    zipped(games, live).filter(|e: Entry| live_at_least(e, min_live))
}

/// The live-player minimum that applies: the one asked for when live counts
/// were fetched, and none when they were not (`--no-live`), so that
/// `--min-live` has no effect there.
pub fn live_minimum(min_live: Option<u32>, live_fetched: bool) -> (m: Option<u32>)
    ensures
        m == (if live_fetched { min_live } else { None }),
{
    if live_fetched {
        min_live
    } else {
        None
    }
}

/// Pairs the games with their live counts, drops those under `min_live`
/// live players, sorts stably in the order `by` and keeps the first `top`;
/// the result is split back into games and counts.
pub fn rank_entries(
    games: Vec<SteamSpyGame>,
    live: Vec<Option<u32>>,
    min_live: Option<u32>,
    by: SortBy,
    top: Option<usize>,
) -> (out: (Vec<SteamSpyGame>, Vec<Option<u32>>))
    ensures
        exists|sorted: Seq<Entry>, perm: Seq<int>|
            #[trigger] stably_sorted_by(candidates(games@, live@, min_live), sorted, perm, by)
                && out.0@ == unzipped(first_n(sorted, top)).0 && out.1@ == unzipped(
                first_n(sorted, top),
            ).1,
        out.0@.len() == out.1@.len(),
        top matches Some(n) ==> out.0@.len() <= n,
        // the live counts (a missing count as zero), the peaks or the names
        // come in order, compared as the numbers and names themselves
        by is Live ==> forall|k: int, l: int|
            0 <= k < l < out.1@.len() ==> (match #[trigger] out.1@[k] {
                Some(n) => n as int,
                None => 0int,
            }) >= (match #[trigger] out.1@[l] {
                Some(n) => n as int,
                None => 0int,
            }),
        by is Ccu ==> forall|k: int, l: int|
            0 <= k < l < out.0@.len() ==> (#[trigger] out.0@[k]).ccu >= (#[trigger] out.0@[l]).ccu,
        by is Name ==> forall|k: int, l: int|
            0 <= k < l < out.0@.len() ==> !lex_less((#[trigger] out.0@[l]).name@, (#[trigger] out.0@[k]).name@),
        // no game under the live minimum is kept
        min_live matches Some(m) ==> forall|k: int|
            0 <= k < out.1@.len() ==> (match #[trigger] out.1@[k] {
                Some(n) => n as int,
                None => 0int,
            }) >= m,
{
    let entries = zip_entries(games, &live);
    let entries = keep_live_at_least(entries, min_live);
    let ghost cands = entries@;
    let mut sorted = stable_sort(entries, by);
    let ghost full = sorted@;
    let ghost perm = choose|p: Seq<int>| stably_sorted_by(cands, full, p, by);
    if let Some(n) = top {
        sorted.truncate(n);
    }
    assert(sorted@ == first_n(full, top));
    let out = unzip_entries(sorted);
    assert(stably_sorted_by(candidates(games@, live@, min_live), full, perm, by));
    proof {
        broadcast use vstd::seq_lib::group_filter_ensures;
        law_sorted_entries_are_in_order(cands, full, perm, by);
        let shown = first_n(full, top);
        assert forall|k: int| 0 <= k < shown.len() implies #[trigger] shown[k] == full[k] && out.0@[k] == full[k].0
            && out.1@[k] == full[k].1 by {}
        if let Some(m) = min_live {
            assert forall|k: int| 0 <= k < out.1@.len() implies (match #[trigger] out.1@[k] {
                Some(n) => n as int,
                None => 0int,
            }) >= m by {
                assert(shown[k] == full[k]);
                let j = perm[k];
                assert(full[k] == cands[j]);
                assert(live_at_least(cands[j], min_live));
            }
        }
        if by is Live {
            assert forall|k: int, l: int| 0 <= k < l < out.1@.len() implies (match #[trigger] out.1@[k] {
                Some(n) => n as int,
                None => 0int,
            }) >= (match #[trigger] out.1@[l] {
                Some(n) => n as int,
                None => 0int,
            }) by {
                assert(shown[k] == full[k] && shown[l] == full[l]);
            }
        }
        if by is Ccu {
            assert forall|k: int, l: int| 0 <= k < l < out.0@.len() implies (#[trigger] out.0@[k]).ccu >= (
            #[trigger] out.0@[l]).ccu by {
                assert(shown[k] == full[k] && shown[l] == full[l]);
            }
        }
        if by is Name {
            assert forall|k: int, l: int| 0 <= k < l < out.0@.len() implies !lex_less(
                (#[trigger] out.0@[l]).name@,
                (#[trigger] out.0@[k]).name@,
            ) by {
                assert(shown[k] == full[k] && shown[l] == full[l]);
            }
        }
    }
    out
}

} // verus!

verus! {

/// Keeps the first `top` games and counts (all of them when there is no
/// limit).
pub fn keep_top(games: &mut Vec<SteamSpyGame>, live: &mut Vec<Option<u32>>, top: Option<usize>)
    ensures
        final(games)@ == (match top {
            Some(n) => if n < old(games)@.len() { old(games)@.take(n as int) } else { old(games)@ },
            None => old(games)@,
        }),
        final(live)@ == (match top {
            Some(n) => if n < old(live)@.len() { old(live)@.take(n as int) } else { old(live)@ },
            None => old(live)@,
        }),
{
    if let Some(n) = top {
        games.truncate(n);
        live.truncate(n);
    }
}

} // verus!

verus! {

/// A rearrangement of all positions `0..n` uses every position.
proof fn lemma_perm_covers(perm: Seq<int>, n: int, x: int)
    requires
        perm.len() == n,
        forall|k: int| 0 <= k < perm.len() ==> 0 <= #[trigger] perm[k] < n,
        forall|k: int, l: int| 0 <= k < l < perm.len() ==> #[trigger] perm[k] != #[trigger] perm[l],
        0 <= x < n,
    ensures
        exists|k: int| 0 <= k < n && perm[k] == x,
{
    assert(perm.no_duplicates()) by {
        assert forall|i: int, j: int| 0 <= i < perm.len() && 0 <= j < perm.len() && i != j implies perm[i]
            != perm[j] by {
            if i < j {
                assert(perm[i] != perm[j]);
            } else {
                assert(perm[j] != perm[i]);
            }
        }
    }
    perm.unique_seq_to_set();
    vstd::set_lib::lemma_int_range(0, n);
    let range = vstd::set_lib::set_int_range(0, n);
    assert(perm.to_set().subset_of(range));
    vstd::set_lib::lemma_subset_equality(perm.to_set(), range);
    assert(range.contains(x));
    assert(perm.to_set().contains(x));
}

proof fn lemma_same_prefix(
    inp: Seq<Entry>,
    out1: Seq<Entry>,
    p1: Seq<int>,
    out2: Seq<Entry>,
    p2: Seq<int>,
    by: SortBy,
    k: int,
)
    requires
        stably_sorted_by(inp, out1, p1, by),
        stably_sorted_by(inp, out2, p2, by),
        0 <= k < inp.len(),
    ensures
        forall|j: int| 0 <= j <= k ==> p1[j] == p2[j],
    decreases k,
{
    if k > 0 {
        lemma_same_prefix(inp, out1, p1, out2, p2, by, k - 1);
    }
    let a = p1[k];
    let b = p2[k];
    if a != b {
        let n = inp.len() as int;
        lemma_perm_covers(p1, n, b);
        let m = choose|m: int| 0 <= m < n && p1[m] == b;
        lemma_perm_covers(p2, n, a);
        let m2 = choose|m: int| 0 <= m < n && p2[m] == a;
        if m < k {
            assert(p2[m] == b);
        }
        if m2 < k {
            assert(p1[m2] == a);
        }
        assert(m > k && m2 > k);
        assert(out1[k] == inp[a] && out1[m] == inp[b]);
        assert(out2[k] == inp[b] && out2[m2] == inp[a]);
        assert(false);
    }
}

/// The order is fully determined: any two stable sorts of the same entries
/// in the same order are the same list.
pub proof fn law_stable_sort_is_unique(
    inp: Seq<Entry>,
    out1: Seq<Entry>,
    p1: Seq<int>,
    out2: Seq<Entry>,
    p2: Seq<int>,
    by: SortBy,
)
    requires
        stably_sorted_by(inp, out1, p1, by),
        stably_sorted_by(inp, out2, p2, by),
    ensures
        out1 == out2,
{
    if inp.len() > 0 {
        lemma_same_prefix(inp, out1, p1, out2, p2, by, inp.len() - 1);
    }
    assert forall|k: int| 0 <= k < out1.len() implies out1[k] == out2[k] by {
        assert(p1[k] == p2[k]);
    }
    assert(out1 =~= out2);
}

/// What "listed before" means for each order: by live players, one entry
/// comes strictly before another exactly when its count (a missing count as
/// zero) is the larger number; by peak, exactly when its peak of yesterday is
/// the larger number; by name, exactly when its name sorts first.
pub proof fn law_order_compares_the_numbers(a: Entry, b: Entry)
    ensures
        precedes(a, b, SortBy::Live) <==> (match a.1 {
            Some(n) => n as int,
            None => 0int,
        }) > (match b.1 {
            Some(n) => n as int,
            None => 0int,
        }),
        precedes(a, b, SortBy::Ccu) <==> a.0.ccu > b.0.ccu,
        precedes(a, b, SortBy::Name) <==> lex_less(a.0.name@, b.0.name@),
{
}

/// A stable sort lists the entries in order: by live players the counts (a
/// missing count as zero) never increase along the list, by peak the peaks of
/// yesterday never increase, by name no name sorts before an earlier one; and
/// entries with the same count, peak or name keep their input order.
pub proof fn law_sorted_entries_are_in_order(inp: Seq<Entry>, out: Seq<Entry>, perm: Seq<int>, by: SortBy)
    requires
        stably_sorted_by(inp, out, perm, by),
    ensures
        by is Live ==> forall|k: int, l: int|
            0 <= k < l < out.len() ==> (match #[trigger] out[k].1 {
                Some(n) => n as int,
                None => 0int,
            }) >= (match #[trigger] out[l].1 {
                Some(n) => n as int,
                None => 0int,
            }),
        by is Ccu ==> forall|k: int, l: int|
            0 <= k < l < out.len() ==> (#[trigger] out[k]).0.ccu >= (#[trigger] out[l]).0.ccu,
        by is Name ==> forall|k: int, l: int|
            0 <= k < l < out.len() ==> !lex_less((#[trigger] out[l]).0.name@, (#[trigger] out[k]).0.name@),
        by is Live ==> forall|k: int, l: int|
            0 <= k < l < out.len() && live_key(#[trigger] out[k].1) == live_key(#[trigger] out[l].1) ==> perm[k]
                < perm[l],
        by is Ccu ==> forall|k: int, l: int|
            0 <= k < l < out.len() && (#[trigger] out[k]).0.ccu == (#[trigger] out[l]).0.ccu ==> perm[k] < perm[l],
        by is Name ==> forall|k: int, l: int|
            0 <= k < l < out.len() && (#[trigger] out[k]).0.name@ == (#[trigger] out[l]).0.name@ ==> perm[k]
                < perm[l],
{
    assert forall|k: int, l: int| 0 <= k < l < out.len() implies !precedes(#[trigger] out[l], #[trigger] out[k], by)
        && (tied(out[k], out[l], by) ==> perm[k] < perm[l]) by {
    }
    if by is Name {
        assert forall|k: int, l: int|
            0 <= k < l < out.len() && (#[trigger] out[k]).0.name@ == (#[trigger] out[l]).0.name@ implies perm[k]
                < perm[l] by {
            lemma_lex_less_irreflexive(out[k].0.name@);
            assert(tied(out[k], out[l], by));
        }
    }
}

} // verus!
