//! Games as SteamSpy reports them, and the rules for fetching them page by
//! page with a disk cache.

use vstd::prelude::*;
use crate::select::{stable_sort, stably_sorted_by, law_sorted_entries_are_in_order, Entry, SortBy};
use crate::text::{
    chars_of, push_char, push_decimal, decimal, to_lowercase, is_alphanumeric, unicode_lowercase,
    unicode_alphanumeric, all_ascii, ascii_alphanumeric, ascii_lower, ascii_lower_char,
};

verus! {

/// One game of a SteamSpy tag listing.
#[derive(Clone, Debug)]
pub struct SteamSpyGame {
    pub appid: u32,
    pub name: String,
    pub developer: String,
    /// Peak concurrent users yesterday
    pub ccu: u32,
}

} // verus!

verus! {

/// A character that a tag keeps: an alphanumeric character or `-`.
pub open spec fn kept_tag_char(c: char) -> bool {
    unicode_alphanumeric(c) || c == '-'
}

/// A tag with every character that is not alphanumeric or `-` stripped, then
/// lowercased.
pub open spec fn sanitized(tag: Seq<char>) -> Seq<char> {
    unicode_lowercase(tag.filter(|c: char| kept_tag_char(c)))
}

/// An ASCII letter, an ASCII digit or `-`.
pub open spec fn ascii_kept_char(c: char) -> bool {
    ascii_alphanumeric(c) || c == '-'
}

/// A tag with every character but ASCII letters, digits and `-` stripped,
/// then ASCII-lowercased: what `sanitized` is on an ASCII tag.
pub open spec fn ascii_sanitized(tag: Seq<char>) -> Seq<char> {
    ascii_lower(tag.filter(|c: char| ascii_kept_char(c)))
}

/// A lowercase ASCII letter, a digit or `-`.
pub open spec fn plain_tag_char(c: char) -> bool {
    ('a' <= c && c <= 'z') || ('0' <= c && c <= '9') || c == '-'
}

/// Strips everything except alphanumeric characters and hyphens, preventing
/// path traversal (`/`, `..`) and URL injection (`&`, `=`, `#`, etc.), and
/// lowercases what is left.
pub fn sanitize_tag(tag: &str) -> (r: String)
    ensures
        r@ == sanitized(tag@),
        // on an ASCII tag the result is known exactly, and holds lowercase
        // letters, digits and `-` only: no `/`, `.`, `&`, `=`, `#` or space
        // reaches a path or a URL
        all_ascii(tag@) ==> r@ == ascii_sanitized(tag@),
        all_ascii(tag@) ==> forall|i: int| 0 <= i < r@.len() ==> plain_tag_char(#[trigger] r@[i]),
{
    broadcast use vstd::seq_lib::group_filter_ensures;
    let v = chars_of(tag);
    let mut kept = String::new();
    let mut i: usize = 0;
    while i < v.len()
        invariant
            v@ == tag@,
            i <= v@.len(),
            kept@ == tag@.take(i as int).filter(|c: char| kept_tag_char(c)),
            all_ascii(tag@) ==> kept@ == tag@.take(i as int).filter(|c: char| ascii_kept_char(c)),
        decreases v@.len() - i,
    {
        let c = v[i];
        let keep = is_alphanumeric(c) || c == '-';
        proof {
            assert(tag@.take(i + 1) =~= tag@.take(i as int).push(c));
            tag@.take(i as int).lemma_filter_push(c, |c: char| kept_tag_char(c));
            tag@.take(i as int).lemma_filter_push(c, |c: char| ascii_kept_char(c));
            if all_ascii(tag@) {
                assert((tag@[i as int] as int) < 128);
            }
        }
        if keep {
            push_char(&mut kept, c);
        }
        i += 1;
    }
    assert(tag@.take(i as int) =~= tag@);
    let r = to_lowercase(kept.as_str());
    proof {
        if all_ascii(tag@) {
            assert forall|k: int| 0 <= k < kept@.len() implies (#[trigger] kept@[k] as int) < 128 by {
                assert(ascii_kept_char(kept@[k]));
            }
            lemma_ascii_sanitized_is_plain(tag@);
        }
    }
    r
}

/// Every character of `ascii_sanitized(tag)` is a lowercase ASCII letter, a
/// digit or `-`.
proof fn lemma_ascii_sanitized_is_plain(tag: Seq<char>)
    ensures
        forall|i: int|
            0 <= i < ascii_sanitized(tag).len() ==> plain_tag_char(#[trigger] ascii_sanitized(tag)[i]),
{
    broadcast use vstd::seq_lib::group_filter_ensures;
    let f = tag.filter(|c: char| ascii_kept_char(c));
    assert forall|i: int| 0 <= i < ascii_sanitized(tag).len() implies plain_tag_char(
        #[trigger] ascii_sanitized(tag)[i],
    ) by {
        assert(ascii_kept_char(f[i]));
    }
}

/// A sequence whose every element passes `pred` is its own filter.
proof fn lemma_filter_keeps_all(s: Seq<char>, pred: spec_fn(char) -> bool)
    requires
        forall|i: int| 0 <= i < s.len() ==> pred(#[trigger] s[i]),
    ensures
        s.filter(pred) == s,
    decreases s.len(),
{
    if s.len() > 0 {
        let d = s.drop_last();
        lemma_filter_keeps_all(d, pred);
        assert(d.push(s.last()) =~= s);
        d.lemma_filter_push(s.last(), pred);
    } else {
        reveal(Seq::filter);
    }
}

/// Sanitizing an ASCII tag gives lowercase letters, digits and `-` only
/// (nothing that could leave a path component or a URL parameter, and no
/// uppercase letter), never lengthens it, and sanitizing the result again
/// changes nothing.
pub proof fn law_sanitize_ascii(tag: Seq<char>)
    ensures
        forall|i: int|
            0 <= i < ascii_sanitized(tag).len() ==> plain_tag_char(#[trigger] ascii_sanitized(tag)[i]),
        all_ascii(ascii_sanitized(tag)),
        ascii_sanitized(tag).len() <= tag.len(),
        ascii_sanitized(ascii_sanitized(tag)) == ascii_sanitized(tag),
{
    broadcast use vstd::seq_lib::group_filter_ensures;
    let s = ascii_sanitized(tag);
    lemma_ascii_sanitized_is_plain(tag);
    assert forall|i: int| 0 <= i < s.len() implies (#[trigger] s[i] as int) < 128 by {
        assert(plain_tag_char(s[i]));
    }
    assert forall|i: int| 0 <= i < s.len() implies (|c: char| ascii_kept_char(c))(#[trigger] s[i]) by {
        assert(plain_tag_char(s[i]));
    }
    lemma_filter_keeps_all(s, |c: char| ascii_kept_char(c));
    assert forall|i: int| 0 <= i < s.len() implies #[trigger] ascii_lower_char(s[i]) == s[i] by {
        assert(plain_tag_char(s[i]));
    }
    assert(ascii_lower(s) =~= s);
}

} // verus!

verus! {

/// How long a cached page stays fresh: twelve hours.
pub const CACHE_MAX_AGE_SECS: u64 = 43200;

/// Whether a cached page is fresh. `age_secs` is the whole number of seconds
/// since the cache file was last written, or `None` when that is not known
/// (no file, no modification time, or a time in the future); an unknown age
/// is never fresh.
pub fn is_cache_fresh(age_secs: Option<u64>) -> (fresh: bool)
    ensures
        fresh == (age_secs matches Some(s) && s < CACHE_MAX_AGE_SECS),
{
    match age_secs {
        Some(s) => s < CACHE_MAX_AGE_SECS,
        None => false,
    }
}

/// The file name under which a page of a tag listing is cached:
/// `steamspy-{sanitized tag}-{page}.json`.
pub fn cache_file_name(tag: &str, page: u8) -> (name: String)
    ensures
        name@ == "steamspy-"@ + sanitized(tag@) + "-"@ + decimal(page as nat) + ".json"@,
{
    let mut name = String::new();
    name.append("steamspy-");
    let safe = sanitize_tag(tag);
    name.append(safe.as_str());
    name.append("-");
    push_decimal(&mut name, page as u64);
    name.append(".json");
    name
}

/// The SteamSpy API address of one page of a tag listing; the tag is
/// sanitized so that it cannot alter the query string.
pub fn steamspy_url(tag: &str, page: u8) -> (url: String)
    ensures
        url@ == "https://steamspy.com/api.php?request=tag&tag="@ + sanitized(tag@) + "&page="@ + decimal(
            page as nat,
        ),
{
    let mut url = String::new();
    url.append("https://steamspy.com/api.php?request=tag&tag=");
    let safe = sanitize_tag(tag);
    url.append(safe.as_str());
    url.append("&page=");
    push_decimal(&mut url, page as u64);
    url
}

} // verus!

verus! {

/// A page of a SteamSpy listing: games under their keys. It is a list of
/// pairs with distinct keys rather than a `HashMap<String, _>`, because vstd
/// models a `HashMap` only for keys that obey its key model, which `String`
/// does not; the merge below keeps the keys distinct and replaces the game
/// of a key that comes again, as `HashMap::extend` does.
pub type Page = Vec<(String, SteamSpyGame)>;

/// The key and game of each listed pair, keys by their characters.
pub open spec fn pairs_view(p: Seq<(String, SteamSpyGame)>) -> Seq<(Seq<char>, SteamSpyGame)> {
    p.map_values(|kv: (String, SteamSpyGame)| (kv.0@, kv.1))
}

/// The map that a listing of key/game pairs stands for; a later pair wins
/// over an earlier one with the same key.
pub open spec fn map_of(l: Seq<(Seq<char>, SteamSpyGame)>) -> Map<Seq<char>, SteamSpyGame>
    decreases l.len(),
{
    if l.len() == 0 {
        Map::empty()
    } else {
        map_of(l.drop_last()).insert(l.last().0, l.last().1)
    }
}

/// No key occurs twice.
pub open spec fn distinct_keys(l: Seq<(Seq<char>, SteamSpyGame)>) -> bool {
    forall|i: int, j: int| 0 <= i < j < l.len() ==> #[trigger] l[i].0 != #[trigger] l[j].0
}

/// `HashMap::extend`: every pair of `chunk` is inserted in turn into `m`.
pub open spec fn insert_all(m: Map<Seq<char>, SteamSpyGame>, chunk: Seq<(Seq<char>, SteamSpyGame)>) -> Map<
    Seq<char>,
    SteamSpyGame,
>
    decreases chunk.len(),
{
    if chunk.len() == 0 {
        m
    } else {
        insert_all(m, chunk.drop_last()).insert(chunk.last().0, chunk.last().1)
    }
}

proof fn lemma_map_of_update(l: Seq<(Seq<char>, SteamSpyGame)>, i: int, g: SteamSpyGame)
    requires
        distinct_keys(l),
        0 <= i < l.len(),
    ensures
        map_of(l.update(i, (l[i].0, g))) == map_of(l).insert(l[i].0, g),
    decreases l.len(),
{
    let k = l[i].0;
    let u = l.update(i, (k, g));
    if i == l.len() - 1 {
        assert(u.drop_last() =~= l.drop_last());
        assert(map_of(l).insert(k, g) =~= map_of(l.drop_last()).insert(k, g));
    } else {
        lemma_map_of_update(l.drop_last(), i, g);
        assert(u.drop_last() =~= l.drop_last().update(i, (k, g)));
        assert(l.last().0 != k);
        assert(map_of(u) =~= map_of(l).insert(k, g));
    }
}

/// Inserts `(key, game)` into a listing with distinct keys: the game of an
/// existing key is replaced in place, a new key is appended.
fn insert_pair(listing: &mut Page, key: String, game: SteamSpyGame)
    requires
        distinct_keys(pairs_view(old(listing)@)),
    ensures
        distinct_keys(pairs_view(final(listing)@)),
        map_of(pairs_view(final(listing)@)) == map_of(pairs_view(old(listing)@)).insert(key@, game),
{
    let ghost before = pairs_view(listing@);
    let mut i: usize = 0;
    while i < listing.len()
        invariant
            before == pairs_view(listing@),
            before == pairs_view(old(listing)@),
            distinct_keys(before),
            i <= listing@.len(),
            forall|j: int| 0 <= j < i ==> before[j].0 != key@,
        decreases listing@.len() - i,
    {
        if listing[i].0 == key {
            assert(before[i as int].0 == key@);
            proof {
                lemma_map_of_update(before, i as int, game);
            }
            listing.set(i, (key, game));
            assert(pairs_view(listing@) =~= before.update(i as int, (before[i as int].0, game)));
            assert(map_of(pairs_view(listing@)) == map_of(before).insert(before[i as int].0, game));
            return;
        }
        i += 1;
    }
    listing.push((key, game));
    assert(pairs_view(listing@) =~= before.push((key@, game)));
    assert(pairs_view(listing@).drop_last() =~= before);
}

/// Merges a page into a listing, as `HashMap::extend` does.
fn merge_page(listing: &mut Page, chunk: Page)
    requires
        distinct_keys(pairs_view(old(listing)@)),
    ensures
        distinct_keys(pairs_view(final(listing)@)),
        map_of(pairs_view(final(listing)@)) == insert_all(map_of(pairs_view(old(listing)@)), pairs_view(chunk@)),
{
    let ghost start = map_of(pairs_view(listing@));
    let ghost all = chunk@;
    for kv in it: chunk.into_iter()
        invariant
            it.seq() == all,
            distinct_keys(pairs_view(listing@)),
            map_of(pairs_view(listing@)) == insert_all(start, pairs_view(all.take(it.index() as int))),
    {
        let ghost i = it.index() as int;
        let (k, g) = kv;
        insert_pair(listing, k, g);
        assert(pairs_view(all.take(i + 1)).drop_last() =~= pairs_view(all.take(i)));
    }
    assert(all.take(all.len() as int) =~= all);
}

} // verus!

verus! {

/// What the caller does next while a tag listing is fetched.
pub enum FetchStep {
    /// Look for a fresh cached copy of `page`, then call `on_cache`.
    ReadCache { page: u8 },
    /// Download `page` from `url`, then call `on_fetched`.
    Fetch { page: u8, url: String },
    /// Write the page just downloaded to the cache, then call `on_cache_written`.
    WriteCache { page: u8 },
    /// All pages are in: the games, highest peak first.
    Done(Vec<SteamSpyGame>),
}

/// The first step for `page`: the cache is tried first, unless a refresh
/// was asked for, in which case the page is downloaded at once.
pub open spec fn first_step_for(step: FetchStep, tag: Seq<char>, page: u8, refresh: bool) -> bool {
    if refresh {
        step matches FetchStep::Fetch { page: p, url } && p == page && url@ == steamspy_url_of(tag, page)
    } else {
        step matches FetchStep::ReadCache { page: p } && p == page
    }
}

/// The address of one page of a tag listing.
pub open spec fn steamspy_url_of(tag: Seq<char>, page: u8) -> Seq<char> {
    "https://steamspy.com/api.php?request=tag&tag="@ + sanitized(tag) + "&page="@ + decimal(page as nat)
}

/// The game of an entry without a live count.
pub open spec fn as_entries(games: Seq<SteamSpyGame>) -> Seq<Entry> {
    games.map_values(|g: SteamSpyGame| (g, None::<u32>))
}

/// `out` holds the games of `games`, each once, highest peak of yesterday
/// first (a stable sort by peak).
pub open spec fn by_peak(games: Seq<SteamSpyGame>, out: Seq<SteamSpyGame>) -> bool {
    exists|perm: Seq<int>| stably_sorted_by(as_entries(games), as_entries(out), perm, SortBy::Ccu)
}

/// `step` ends the fetch with the games of `pairs`, highest peak first.
pub open spec fn finishes_with(step: FetchStep, pairs: Seq<(Seq<char>, SteamSpyGame)>) -> bool {
    step matches FetchStep::Done(out) && by_peak(pairs.map_values(|kv: (Seq<char>, SteamSpyGame)| kv.1), out@)
}

/// Sorts games by peak of yesterday, highest first, keeping the order of ties.
pub fn sort_by_peak(games: Vec<SteamSpyGame>) -> (out: Vec<SteamSpyGame>)
    ensures
        by_peak(games@, out@),
        out@.len() == games@.len(),
        forall|k: int, l: int| 0 <= k < l < out@.len() ==> (#[trigger] out@[k]).ccu >= (#[trigger] out@[l]).ccu,
{
    let ghost gs = games@;
    let mut entries: Vec<Entry> = Vec::new();
    for g in it: games.into_iter()
        invariant
            it.seq() == gs,
            entries@ == as_entries(gs.take(it.index() as int)),
    {
        let ghost i = it.index() as int;
        entries.push((g, None));
        assert(entries@ =~= as_entries(gs.take(i + 1)));
    }
    assert(gs.take(gs.len() as int) =~= gs);
    let ghost ins = entries@;
    let sorted = stable_sort(entries, SortBy::Ccu);
    let ghost perm = choose|p: Seq<int>| stably_sorted_by(ins, sorted@, p, SortBy::Ccu);
    let ghost ss = sorted@;
    let mut out: Vec<SteamSpyGame> = Vec::new();
    for e in it: sorted.into_iter()
        invariant
            it.seq() == ss,
            ss.len() == gs.len(),
            forall|k: int| 0 <= k < ss.len() ==> (#[trigger] ss[k]).1 is None,
            out@ == ss.take(it.index() as int).map_values(|e: Entry| e.0),
    {
        let ghost i = it.index() as int;
        out.push(e.0);
        assert(out@ =~= ss.take(i + 1).map_values(|e: Entry| e.0));
    }
    proof {
        assert forall|k: int| 0 <= k < ss.len() implies (#[trigger] ss[k]).1 is None by {
            assert(ss[k] == ins[perm[k]]);
        }
        assert(ss.take(ss.len() as int) =~= ss);
        assert(as_entries(out@) =~= ss);
        assert(stably_sorted_by(as_entries(gs), as_entries(out@), perm, SortBy::Ccu));
        law_by_peak_is_highest_first(gs, out@);
    }
    out
}

/// Games listed by peak come highest peak of yesterday first, compared as
/// the full numbers, and are the same number of games.
pub proof fn law_by_peak_is_highest_first(games: Seq<SteamSpyGame>, out: Seq<SteamSpyGame>)
    requires
        by_peak(games, out),
    ensures
        out.len() == games.len(),
        forall|k: int, l: int| 0 <= k < l < out.len() ==> (#[trigger] out[k]).ccu >= (#[trigger] out[l]).ccu,
{
    let perm = choose|perm: Seq<int>| stably_sorted_by(as_entries(games), as_entries(out), perm, SortBy::Ccu);
    law_sorted_entries_are_in_order(as_entries(games), as_entries(out), perm, SortBy::Ccu);
    assert forall|k: int, l: int| 0 <= k < l < out.len() implies (#[trigger] out[k]).ccu >= (
    #[trigger] out[l]).ccu by {
        assert(as_entries(out)[k].0 == out[k] && as_entries(out)[l].0 == out[l]);
    }
}

/// A fetch that ends lists the merged games highest peak of yesterday first.
pub proof fn law_finished_fetch_is_highest_first(step: FetchStep, pairs: Seq<(Seq<char>, SteamSpyGame)>)
    requires
        finishes_with(step, pairs),
    ensures
        step matches FetchStep::Done(out) && out@.len() == pairs.len() && forall|k: int, l: int|
            0 <= k < l < out@.len() ==> (#[trigger] out@[k]).ccu >= (#[trigger] out@[l]).ccu,
{
    if let FetchStep::Done(out) = step {
        law_by_peak_is_highest_first(pairs.map_values(|kv: (Seq<char>, SteamSpyGame)| kv.1), out@);
    }
}

} // verus!

verus! {

/// The state of fetching a tag listing, one page after another: the pages
/// merged so far, as `HashMap::extend` merges them.
pub struct ListingFetch {
    tag: String,
    pages: u8,
    refresh: bool,
    page: u8,
    listing: Page,
}

impl ListingFetch {
    /// The tag being fetched.
    pub closed spec fn tag(self) -> Seq<char> {
        self.tag@
    }

    /// How many pages are wanted at most.
    pub closed spec fn page_count(self) -> u8 {
        self.pages
    }

    /// Whether the cache is bypassed.
    pub closed spec fn refreshing(self) -> bool {
        self.refresh
    }

    /// The page being handled.
    pub closed spec fn current_page(self) -> u8 {
        self.page
    }

    /// The games gathered so far under their keys, each key once.
    pub closed spec fn pairs(self) -> Seq<(Seq<char>, SteamSpyGame)> {
        pairs_view(self.listing@)
    }

    /// The games gathered so far, by key.
    pub open spec fn merged(self) -> Map<Seq<char>, SteamSpyGame> {
        map_of(self.pairs())
    }

    /// A state in the middle of a fetch: a page is being handled and no key
    /// occurs twice.
    pub open spec fn wf(self) -> bool {
        &&& self.current_page() < self.page_count()
        &&& distinct_keys(self.pairs())
    }

    /// The first step for page `page`.
    fn first_step(&self, page: u8) -> (step: FetchStep)
        ensures
            first_step_for(step, self.tag(), page, self.refreshing()),
    {
        if self.refresh {
            FetchStep::Fetch { page, url: steamspy_url(self.tag.as_str(), page) }
        } else {
            FetchStep::ReadCache { page }
        }
    }

    /// The pages so far, highest peak first.
    fn finish(self) -> (step: FetchStep)
        ensures
            finishes_with(step, self.pairs()),
    {
        let ghost ps = self.pairs();
        let ghost l = self.listing@;
        let mut games: Vec<SteamSpyGame> = Vec::new();
        for kv in it: self.listing.into_iter()
            invariant
                it.seq() == l,
                ps == pairs_view(l),
                games@ == l.take(it.index() as int).map_values(|kv: (String, SteamSpyGame)| kv.1),
        {
            let ghost i = it.index() as int;
            games.push(kv.1);
            assert(games@ =~= l.take(i + 1).map_values(|kv: (String, SteamSpyGame)| kv.1));
        }
        assert(l.take(l.len() as int) =~= l);
        assert(games@ =~= ps.map_values(|kv: (Seq<char>, SteamSpyGame)| kv.1));
        FetchStep::Done(sort_by_peak(games))
    }

    /// Moves on to the page after the current one, or finishes after the last.
    fn advance(self) -> (r: (ListingFetch, FetchStep))
        requires
            self.wf(),
        ensures
            self.current_page() + 1 < self.page_count() ==> r.0.tag() == self.tag()
                && r.0.page_count() == self.page_count() && r.0.refreshing() == self.refreshing()
                && r.0.pairs() == self.pairs() && r.0.wf() && r.0.current_page()
                == self.current_page() + 1 && first_step_for(
                r.1,
                self.tag(),
                (self.current_page() + 1) as u8,
                self.refreshing(),
            ),
            self.current_page() + 1 >= self.page_count() ==> finishes_with(r.1, self.pairs()),
    {
        let next = self.page + 1;
        if next < self.pages {
            let state = ListingFetch {
                tag: self.tag,
                pages: self.pages,
                refresh: self.refresh,
                page: next,
                listing: self.listing,
            };
            let step = state.first_step(next);
            (state, step)
        } else {
            let spent = ListingFetch {
                tag: String::new(),
                pages: self.pages,
                refresh: self.refresh,
                page: self.page,
                listing: Vec::new(),
            };
            let step = self.finish();
            (spent, step)
        }
    }
}

} // verus!

verus! {

/// A cache read that gave a page with at least one game.
pub open spec fn holds_games(cached: Option<Page>) -> bool {
    match cached {
        Some(c) => c@.len() > 0,
        None => false,
    }
}

impl ListingFetch {
    /// Begins fetching up to `pages` pages of the `tag` listing; with
    /// `refresh` the disk cache is not read.
    pub fn start(tag: &str, pages: u8, refresh: bool) -> (r: (ListingFetch, FetchStep))
        ensures
            pages == 0 ==> finishes_with(r.1, Seq::empty()),
            pages > 0 ==> {
                &&& r.0.wf()
                &&& r.0.tag() == tag@
                &&& r.0.page_count() == pages
                &&& r.0.refreshing() == refresh
                &&& r.0.current_page() == 0
                &&& r.0.pairs() == Seq::<(Seq<char>, SteamSpyGame)>::empty()
                &&& first_step_for(r.1, tag@, 0, refresh)
            },
    {
        let state = ListingFetch { tag: tag.to_owned(), pages, refresh, page: 0, listing: Vec::new() };
        assert(state.pairs() =~= Seq::<(Seq<char>, SteamSpyGame)>::empty());
        if pages == 0 {
            let step = state.finish();
            let spent = ListingFetch { tag: String::new(), pages, refresh, page: 0, listing: Vec::new() };
            (spent, step)
        } else {
            let step = state.first_step(0);
            (state, step)
        }
    }

    /// Takes what the cache held for the current page: `Some` with the page's
    /// games when a fresh copy could be read and parsed. A non-empty page is
    /// merged in and the fetch moves on; otherwise the page is downloaded.
    pub fn on_cache(self, cached: Option<Page>) -> (r: (ListingFetch, FetchStep))
        requires
            self.wf(),
        ensures
            holds_games(cached) ==> {
                let merged = insert_all(self.merged(), pairs_view(cached.unwrap()@));
                &&& self.current_page() + 1 < self.page_count() ==> {
                    &&& r.0.wf()
                    &&& r.0.tag() == self.tag()
                    &&& r.0.page_count() == self.page_count()
                    &&& r.0.refreshing() == self.refreshing()
                    &&& r.0.current_page() == self.current_page() + 1
                    &&& r.0.merged() == merged
                    &&& first_step_for(r.1, self.tag(), (self.current_page() + 1) as u8, self.refreshing())
                }
                &&& self.current_page() + 1 >= self.page_count() ==> exists|ps: Seq<(Seq<char>, SteamSpyGame)>|
                    distinct_keys(ps) && map_of(ps) == merged && #[trigger] finishes_with(r.1, ps)
            },
            !holds_games(cached) ==> {
                &&& r.0 == self
                &&& r.1 matches FetchStep::Fetch { page, url } && page == self.current_page() && url@
                    == steamspy_url_of(self.tag(), self.current_page())
            },
    {
        match cached {
            Some(chunk) => {
                if chunk.len() > 0 {
                    let mut state = self;
                    merge_page(&mut state.listing, chunk);
                    let ghost ps = state.pairs();
                    let r = state.advance();
                    assert(finishes_with(r.1, ps) ==> exists|ps: Seq<(Seq<char>, SteamSpyGame)>|
                        distinct_keys(ps) && map_of(ps) == map_of(state.pairs()) && #[trigger] finishes_with(r.1, ps));
                    r
                } else {
                    let page = self.page;
                    let url = steamspy_url(self.tag.as_str(), page);
                    (self, FetchStep::Fetch { page, url })
                }
            },
            None => {
                let page = self.page;
                let url = steamspy_url(self.tag.as_str(), page);
                (self, FetchStep::Fetch { page, url })
            },
        }
    }

    /// Takes the downloaded current page. An empty page ends the fetch (no
    /// later page is asked for); otherwise it is merged in and is to be
    /// written to the cache.
    pub fn on_fetched(self, fetched: Page) -> (r: (ListingFetch, FetchStep))
        requires
            self.wf(),
        ensures
            fetched@.len() == 0 ==> finishes_with(r.1, self.pairs()),
            fetched@.len() > 0 ==> {
                &&& r.0.wf()
                &&& r.0.tag() == self.tag()
                &&& r.0.page_count() == self.page_count()
                &&& r.0.refreshing() == self.refreshing()
                &&& r.0.current_page() == self.current_page()
                &&& r.0.merged() == insert_all(self.merged(), pairs_view(fetched@))
                &&& r.1 matches FetchStep::WriteCache { page } && page == self.current_page()
            },
    {
        if fetched.len() == 0 {
            let spent = ListingFetch {
                tag: String::new(),
                pages: self.pages,
                refresh: self.refresh,
                page: self.page,
                listing: Vec::new(),
            };
            let step = self.finish();
            (spent, step)
        } else {
            let mut state = self;
            merge_page(&mut state.listing, fetched);
            let page = state.page;
            (state, FetchStep::WriteCache { page })
        }
    }

    /// The downloaded page has been written to the cache (or writing it was
    /// given up): the fetch moves on to the next page, or finishes.
    pub fn on_cache_written(self) -> (r: (ListingFetch, FetchStep))
        requires
            self.wf(),
        ensures
            self.current_page() + 1 < self.page_count() ==> {
                &&& r.0.wf()
                &&& r.0.tag() == self.tag()
                &&& r.0.page_count() == self.page_count()
                &&& r.0.refreshing() == self.refreshing()
                &&& r.0.current_page() == self.current_page() + 1
                &&& r.0.pairs() == self.pairs()
                &&& first_step_for(r.1, self.tag(), (self.current_page() + 1) as u8, self.refreshing())
            },
            self.current_page() + 1 >= self.page_count() ==> finishes_with(r.1, self.pairs()),
    {
        self.advance()
    }
}

} // verus!
