//! The set of fighting games that the default listing is narrowed to, and
//! the user's own list that replaces it.

use vstd::prelude::*;
use std::collections::HashSet;
use crate::text::{chars_of, trimmed_before, parse_u32_at, parsed_u32, trimmed, before_char};

verus! {

/// The Steam App IDs of the built-in list of fighting games: 3D fighters,
/// Capcom, NetherRealm, Arc System Works and SNK titles, other versus
/// fighters, and indie and platform fighters.
pub open spec fn builtin_id_list() -> Seq<u32> {
    seq![
        1778820, 389730, 544750, 838380, 311730, 3112260, 1364780, 310950,
        45760, 209120, 493840, 357190, 2634890, 1685750, 2400430, 1971650,
        976310, 627690, 577940, 1384160, 678950, 2176860, 1090630, 586140,
        702890, 263300, 2198830, 1216060, 356910, 1498570, 571260, 222940,
        222440, 222420, 702120, 465840, 366240, 1076830, 1076550, 794580,
        2442380, 1575670, 1372280, 1602010, 1372110, 661990, 482450, 536560,
        871200, 1877020, 1999500, 2892130, 1786230, 245170, 383980, 2217000,
        574980, 390560, 389050, 1376070, 1420350, 725480, 553310, 261180,
        244730, 1264540, 291550, 1110100, 1451190,
    ]
}

/// The built-in set of fighting game App IDs.
pub fn builtin_ids() -> (ids: HashSet<u32>)
    ensures
        ids@ == builtin_id_list().to_set(),
{
    broadcast use vstd::std_specs::hash::group_hash_axioms;
    let list: [u32; 69] = [
        1778820, 389730, 544750, 838380, 311730, 3112260, 1364780, 310950,
        45760, 209120, 493840, 357190, 2634890, 1685750, 2400430, 1971650,
        976310, 627690, 577940, 1384160, 678950, 2176860, 1090630, 586140,
        702890, 263300, 2198830, 1216060, 356910, 1498570, 571260, 222940,
        222440, 222420, 702120, 465840, 366240, 1076830, 1076550, 794580,
        2442380, 1575670, 1372280, 1602010, 1372110, 661990, 482450, 536560,
        871200, 1877020, 1999500, 2892130, 1786230, 245170, 383980, 2217000,
        574980, 390560, 389050, 1376070, 1420350, 725480, 553310, 261180,
        244730, 1264540, 291550, 1110100, 1451190,
    ];
    assert(list@ =~= builtin_id_list());
    let mut ids: HashSet<u32> = HashSet::new();
    let mut i: usize = 0;
    while i < list.len()
        invariant
            list@ == builtin_id_list(),
            i <= list@.len(),
            ids@ == list@.take(i as int).to_set(),
        decreases list@.len() - i,
    {
        ids.insert(list[i]);
        proof {
            assert(list@.take(i + 1) =~= list@.take(i as int).push(list@[i as int]));
            list@.take(i as int).lemma_push_to_set_commute(list@[i as int]);
        }
        i += 1;
    }
    assert(list@.take(i as int) =~= list@);
    ids
}

} // verus!

verus! {

/// Returns the set of allowed fighting game App IDs. When the user's
/// `games.txt` was read (`Some`), its list is used instead of the built-in
/// list, whatever it holds; otherwise the built-in list is used.
pub fn allowed_ids(user_ids: Option<HashSet<u32>>) -> (ids: HashSet<u32>)
    ensures
        ids@ == (match user_ids {
            Some(u) => u@,
            None => builtin_id_list().to_set(),
        }),
{
    match user_ids {
        Some(ids) => ids,
        None => builtin_ids(),
    }
}

} // verus!

verus! {

/// `s[i..j]` is a whole line of `s`: it starts at the beginning or after a
/// newline, ends at the end or at a newline, and holds no newline.
pub open spec fn is_line(s: Seq<char>, i: int, j: int) -> bool {
    &&& 0 <= i <= j <= s.len()
    &&& (i == 0 || s[i - 1] == '\n')
    &&& (j == s.len() || s[j] == '\n')
    &&& forall|k: int| i <= k < j ==> #[trigger] s[k] != '\n'
}

/// The App ID that one line of the user's list gives: the text before any
/// `#` (a comment), trimmed, read as a number; blank lines, comments and
/// lines that are not a number give none.
pub open spec fn line_id(line: Seq<char>) -> Option<u32> {
    parsed_u32(trimmed(before_char(line, '#')))
}

/// The App IDs listed in a user's `games.txt`, one per line.
pub open spec fn listed_ids(s: Seq<char>) -> Set<u32> {
    Set::new(|v: u32| exists|i: int, j: int| is_line(s, i, j) && line_id(#[trigger] s.subrange(i, j)) == Some(v))
}

/// The IDs of the lines that end before position `p`.
pub open spec fn listed_ids_before(s: Seq<char>, p: int) -> Set<u32> {
    Set::new(
        |v: u32|
            exists|i: int, j: int| is_line(s, i, j) && j < p && line_id(#[trigger] s.subrange(i, j)) == Some(v),
    )
}

proof fn lemma_line_start_unique(s: Seq<char>, start: int, i: int, j: int)
    requires
        is_line(s, i, j),
        0 <= start <= j,
        start == 0 || s[start - 1] == '\n',
        forall|k: int| start <= k < j ==> #[trigger] s[k] != '\n',
    ensures
        i == start,
{
    if i < start {
        assert(s[start - 1] != '\n');
    } else if i > start {
        assert(s[i - 1] != '\n');
    }
}

/// Reads a user's `games.txt`: one App ID per line, text after `#` is a
/// comment, blank lines and lines that are not a number are skipped.
pub fn parse_user_config(content: &str) -> (ids: HashSet<u32>)
    ensures
        ids@ == listed_ids(content@),
{
    broadcast use vstd::std_specs::hash::group_hash_axioms;
    let s = chars_of(content);
    let ghost sv = s@;
    let n = s.len();
    let mut ids: HashSet<u32> = HashSet::new();
    let mut start: usize = 0;
    let mut p: usize = 0;
    assert(ids@ =~= listed_ids_before(sv, 0));
    while p < n
        invariant
            sv == s@,
            n == sv.len(),
            start <= p <= n,
            start == 0 || sv[start - 1] == '\n',
            forall|k: int| start <= k < p ==> #[trigger] sv[k] != '\n',
            ids@ == listed_ids_before(sv, p as int),
        decreases n - p,
    {
        if s[p] == '\n' {
            let (a, b) = trimmed_before(&s, '#', start, p);
            let v = parse_u32_at(&s, a, b);
            let ghost line = sv.subrange(start as int, p as int);
            assert(is_line(sv, start as int, p as int));
            if let Some(x) = v {
                ids.insert(x);
            }
            proof {
                let next = listed_ids_before(sv, p + 1);
                assert forall|w: u32| next.contains(w) == ids@.contains(w) by {
                    if next.contains(w) {
                        let (i, j) = choose|i: int, j: int|
                            is_line(sv, i, j) && j < p + 1 && line_id(#[trigger] sv.subrange(i, j)) == Some(w);
                        if j == p {
                            lemma_line_start_unique(sv, start as int, i, j);
                        } else {
                            assert(listed_ids_before(sv, p as int).contains(w));
                        }
                    }
                    if ids@.contains(w) {
                        if v == Some(w) {
                            assert(line_id(sv.subrange(start as int, p as int)) == Some(w));
                        } else {
                            assert(listed_ids_before(sv, p as int).contains(w));
                            let (i, j) = choose|i: int, j: int|
                                is_line(sv, i, j) && j < p && line_id(#[trigger] sv.subrange(i, j)) == Some(w);
                        }
                    }
                }
                assert(ids@ =~= next);
            }
            start = p + 1;
        } else {
            proof {
                assert forall|w: u32| listed_ids_before(sv, p + 1).contains(w) implies ids@.contains(w) by {
                    let (i, j) = choose|i: int, j: int|
                        is_line(sv, i, j) && j < p + 1 && line_id(#[trigger] sv.subrange(i, j)) == Some(w);
                    assert(j != p);
                }
                assert(ids@ =~= listed_ids_before(sv, p + 1));
            }
        }
        p += 1;
    }
    let (a, b) = trimmed_before(&s, '#', start, n);
    let v = parse_u32_at(&s, a, b);
    assert(is_line(sv, start as int, n as int));
    if let Some(x) = v {
        ids.insert(x);
    }
    proof {
        assert forall|w: u32| listed_ids(sv).contains(w) == ids@.contains(w) by {
            if listed_ids(sv).contains(w) {
                let (i, j) = choose|i: int, j: int| is_line(sv, i, j) && line_id(#[trigger] sv.subrange(i, j)) == Some(w);
                if j == n {
                    lemma_line_start_unique(sv, start as int, i, j);
                } else {
                    assert(listed_ids_before(sv, n as int).contains(w));
                }
            }
            if ids@.contains(w) {
                if v == Some(w) {
                    assert(line_id(sv.subrange(start as int, n as int)) == Some(w));
                } else {
                    assert(listed_ids_before(sv, n as int).contains(w));
                    let (i, j) = choose|i: int, j: int|
                        is_line(sv, i, j) && j < n && line_id(#[trigger] sv.subrange(i, j)) == Some(w);
                }
            }
        }
        assert(ids@ =~= listed_ids(sv));
    }
    ids
}

} // verus!
