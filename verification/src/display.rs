//! What is shown: table cells, colours, column widths, and the rows of the
//! table, JSON and CSV outputs.

use vstd::prelude::*;
use colored::Colorize;
use tabled::settings::{object::Columns, Alignment, Modify, Style};
use crate::steamspy::SteamSpyGame;
use crate::text::{
    chars_of, push_char, push_decimal, decimal, decimal_string, grouped, format_number,
    without_commas, law_grouping_only_adds_commas,
    truncate, truncated, ascii_lowercase_chars, ascii_lower, contains_chars, has_infix,
};

verus! {

/// A colour and weight for a piece of text in the terminal.
#[derive(Clone, Copy, Debug, PartialEq, Eq)]
pub enum Tint {
    Dimmed,
    GreenBold,
    Yellow,
    YellowBold,
    WhiteBold,
    /// RGB (205, 127, 50)
    Bronze,
}

/// The escape sequence that ends a coloured piece of text.
pub open spec fn reset_code() -> Seq<char> {
    seq!['\u{1b}', '[', '0', 'm']
}

/// The escape sequence that `colored` writes before a text of `tint`:
/// `ESC [ 2 m` for dimmed, `ESC [ 1;32 m` for bold green, `ESC [ 33 m` for
/// yellow, `ESC [ 1;33 m` for bold yellow, `ESC [ 1;37 m` for bold white.
/// The bronze RGB colour is written as such or as the nearest of the basic
/// colours, depending on what the terminal supports, so none is given.
pub open spec fn style_code(tint: Tint) -> Option<Seq<char>> {
    match tint {
        Tint::Dimmed => Some(seq!['\u{1b}', '[', '2', 'm']),
        Tint::GreenBold => Some(seq!['\u{1b}', '[', '1', ';', '3', '2', 'm']),
        Tint::Yellow => Some(seq!['\u{1b}', '[', '3', '3', 'm']),
        Tint::YellowBold => Some(seq!['\u{1b}', '[', '1', ';', '3', '3', 'm']),
        Tint::WhiteBold => Some(seq!['\u{1b}', '[', '1', ';', '3', '7', 'm']),
        Tint::Bronze => None,
    }
}

/// `shown` is `text` painted with `tint`: either `text` as it is (colours
/// are off) or `text` after the style sequence of `tint` and followed by the
/// reset sequence.
pub open spec fn painted(shown: Seq<char>, text: Seq<char>, tint: Tint) -> bool {
    ||| shown == text
    ||| match style_code(tint) {
        Some(code) => shown == code + text + reset_code(),
        None => exists|code: Seq<char>| shown == code + text + reset_code(),
    }
}

/// `Colorize::dimmed`, then `to_string`. Trusted: for a text without an
/// escape character the result is the text itself or the text between
/// `ESC [ 2 m` and the reset sequence, as `ColoredString`'s `Display` writes
/// it; which of the two depends on whether colours are on, which is left
/// unsaid.
#[verifier::external_body]
fn colored_dimmed(text: &str) -> (shown: String)
    ensures
        !text@.contains('\u{1b}') ==> painted(shown@, text@, Tint::Dimmed),
{
    text.dimmed().to_string()
}

/// `Colorize::green` then `bold`, then `to_string`. Trusted as
/// `colored_dimmed`, with `ESC [ 1;32 m`.
#[verifier::external_body]
fn colored_green_bold(text: &str) -> (shown: String)
    ensures
        !text@.contains('\u{1b}') ==> painted(shown@, text@, Tint::GreenBold),
{
    text.green().bold().to_string()
}

/// `Colorize::yellow`, then `to_string`. Trusted as `colored_dimmed`, with
/// `ESC [ 33 m`.
#[verifier::external_body]
fn colored_yellow(text: &str) -> (shown: String)
    ensures
        !text@.contains('\u{1b}') ==> painted(shown@, text@, Tint::Yellow),
{
    text.yellow().to_string()
}

/// `Colorize::yellow` then `bold`, then `to_string`. Trusted as
/// `colored_dimmed`, with `ESC [ 1;33 m`.
#[verifier::external_body]
fn colored_yellow_bold(text: &str) -> (shown: String)
    ensures
        !text@.contains('\u{1b}') ==> painted(shown@, text@, Tint::YellowBold),
{
    text.yellow().bold().to_string()
}

/// `Colorize::white` then `bold`, then `to_string`. Trusted as
/// `colored_dimmed`, with `ESC [ 1;37 m`.
#[verifier::external_body]
fn colored_white_bold(text: &str) -> (shown: String)
    ensures
        !text@.contains('\u{1b}') ==> painted(shown@, text@, Tint::WhiteBold),
{
    text.white().bold().to_string()
}

/// `Colorize::truecolor(r, g, b)`, then `to_string`. Trusted: for a text
/// without an escape character the result is the text itself, or the text
/// between some style sequence and the reset sequence. Whether colours are on,
/// and whether the colour is written as RGB or as the nearest basic colour,
/// depend on the environment, so neither the choice nor the sequence is said.
#[verifier::external_body]
fn colored_truecolor(text: &str, r: u8, g: u8, b: u8) -> (shown: String)
    ensures
        !text@.contains('\u{1b}') ==> (shown@ == text@ || exists|code: Seq<char>|
            shown@ == code + text@ + reset_code()),
{
    text.truecolor(r, g, b).to_string()
}

/// Paints `text` with `tint` in the terminal: the text as it is when colours
/// are off, else between the style sequence of `tint` and the reset
/// sequence; bronze is RGB (205, 127, 50).
pub fn paint(text: &str, tint: Tint) -> (shown: String)
    ensures
        !text@.contains('\u{1b}') ==> painted(shown@, text@, tint),
{
    match tint {
        Tint::Dimmed => colored_dimmed(text),
        Tint::GreenBold => colored_green_bold(text),
        Tint::Yellow => colored_yellow(text),
        Tint::YellowBold => colored_yellow_bold(text),
        Tint::WhiteBold => colored_white_bold(text),
        Tint::Bronze => colored_truecolor(text, 205, 127, 50),
    }
}

/// The em dash shown where there is no number.
pub open spec fn dash() -> Seq<char> {
    seq!['\u{2014}']
}

/// The text of a live player count: grouped digits, or a dash when unknown.
pub open spec fn live_text(live: Option<u32>) -> Seq<char> {
    match live {
        Some(n) => grouped(n as nat),
        None => dash(),
    }
}

/// The tint of a live player count: green and bold from 1,000, yellow from
/// 100, dimmed below and when unknown.
pub open spec fn live_tint_of(live: Option<u32>) -> Tint {
    match live {
        Some(n) => if n >= 1000 {
            Tint::GreenBold
        } else if n >= 100 {
            Tint::Yellow
        } else {
            Tint::Dimmed
        },
        None => Tint::Dimmed,
    }
}

/// The tint of a live player count.
pub fn live_tint(live: Option<u32>) -> (t: Tint)
    ensures
        t == live_tint_of(live),
{
    match live {
        Some(n) => if n >= 1000 {
            Tint::GreenBold
        } else if n >= 100 {
            Tint::Yellow
        } else {
            Tint::Dimmed
        },
        None => Tint::Dimmed,
    }
}

proof fn lemma_grouped_has_no_escape(n: nat)
    ensures
        !grouped(n).contains('\u{1b}'),
    decreases n,
{
    lemma_decimal_has_no_escape(n);
    if n >= 1000 {
        lemma_grouped_has_no_escape(n / 1000);
        let t = crate::text::three_digits(n % 1000);
        assert(!t.contains('\u{1b}')) by {
            assert(t[0] != '\u{1b}' && t[1] != '\u{1b}' && t[2] != '\u{1b}');
        }
        let g = grouped(n / 1000) + seq![','] + t;
        assert forall|i: int| 0 <= i < g.len() implies g[i] != '\u{1b}' by {
            if i < grouped(n / 1000).len() {
                assert(g[i] == grouped(n / 1000)[i]);
            } else if i == grouped(n / 1000).len() {
            } else {
                assert(g[i] == t[i - grouped(n / 1000).len() - 1]);
            }
        }
    }
}

proof fn lemma_decimal_has_no_escape(n: nat)
    ensures
        !decimal(n).contains('\u{1b}'),
    decreases n,
{
    if n >= 10 {
        lemma_decimal_has_no_escape(n / 10);
        assert forall|i: int| 0 <= i < decimal(n).len() implies decimal(n)[i] != '\u{1b}' by {
            if i < decimal(n / 10).len() {
                assert(decimal(n)[i] == decimal(n / 10)[i]);
            }
        }
    } else {
        assert(decimal(n)[0] != '\u{1b}');
    }
}

/// A live player count as shown in the table: grouped digits (or a dash when
/// unknown), green and bold from 1,000, yellow from 100, dimmed below.
pub fn color_live(live: Option<u32>) -> (shown: String)
    ensures
        painted(shown@, live_text(live), live_tint_of(live)),
{
    let text = match live {
        Some(n) => format_number(n),
        None => {
            let mut d = String::new();
            push_char(&mut d, '\u{2014}');
            assert(d@ =~= dash());
            d
        },
    };
    proof {
        match live {
            Some(n) => lemma_grouped_has_no_escape(n as nat),
            None => assert(!dash().contains('\u{1b}')),
        }
    }
    paint(text.as_str(), live_tint(live))
}

/// The tint of a rank: gold (yellow, bold) for the first, silver (white,
/// bold) for the second, bronze for the third, none for the rest.
pub open spec fn rank_tint_of(rank: usize) -> Option<Tint> {
    if rank == 1 {
        Some(Tint::YellowBold)
    } else if rank == 2 {
        Some(Tint::WhiteBold)
    } else if rank == 3 {
        Some(Tint::Bronze)
    } else {
        None
    }
}

/// The tint of a rank.
pub fn rank_tint(rank: usize) -> (t: Option<Tint>)
    ensures
        t == rank_tint_of(rank),
{
    if rank == 1 {
        Some(Tint::YellowBold)
    } else if rank == 2 {
        Some(Tint::WhiteBold)
    } else if rank == 3 {
        Some(Tint::Bronze)
    } else {
        None
    }
}

/// `shown` is the rank painted with its tint, or its plain digits when it has
/// none.
pub open spec fn shows_rank(shown: Seq<char>, rank: nat) -> bool {
    match rank_tint_of(rank as usize) {
        Some(t) => painted(shown, decimal(rank), t),
        None => shown == decimal(rank),
    }
}

/// A rank as shown in the table: its digits, coloured gold, silver and
/// bronze for the first three and plain for the rest.
pub fn color_rank(rank: usize) -> (shown: String)
    ensures
        shows_rank(shown@, rank as nat),
{
    let s = decimal_string(rank as u64);
    match rank_tint(rank) {
        Some(t) => {
            proof {
                lemma_decimal_has_no_escape(rank as nat);
            }
            paint(s.as_str(), t)
        },
        None => s,
    }
}

} // verus!

verus! {

/// The publisher or studio tag of a lowercased developer name: `ASW` (Arc
/// System Works), `CAP` (Capcom), `NRS` (NetherRealm), `SNK`, `BNE` (Bandai
/// Namco), `SEGA`, `KT` (Koei Tecmo), `IND` (Lab Zero, Hidden Variables), or
/// none; the first that matches wins.
pub open spec fn tag_for(d: Seq<char>) -> Seq<char> {
    if has_infix(d, "arc system"@) {
        "ASW"@
    } else if has_infix(d, "capcom"@) {
        "CAP"@
    } else if has_infix(d, "netherrealm"@) {
        "NRS"@
    } else if has_infix(d, "snk"@) {
        "SNK"@
    } else if has_infix(d, "bandai"@) {
        "BNE"@
    } else if has_infix(d, "sega"@) {
        "SEGA"@
    } else if has_infix(d, "koei"@) || has_infix(d, "tecmo"@) {
        "KT"@
    } else if has_infix(d, "lab zero"@) || has_infix(d, "hidden variables"@) {
        "IND"@
    } else {
        ""@
    }
}

/// Returns a short publisher/studio tag derived from the developer name
/// (matched without regard to ASCII case).
pub fn publisher_tag(developer: &str) -> (tag: &'static str)
    ensures
        tag@ == tag_for(ascii_lower(developer@)),
{
    let d = ascii_lowercase_chars(developer);
    if contains_chars(&d, &chars_of("arc system")) {
        return "ASW";
    }
    if contains_chars(&d, &chars_of("capcom")) {
        return "CAP";
    }
    if contains_chars(&d, &chars_of("netherrealm")) {
        return "NRS";
    }
    if contains_chars(&d, &chars_of("snk")) {
        return "SNK";
    }
    if contains_chars(&d, &chars_of("bandai")) {
        return "BNE";
    }
    if contains_chars(&d, &chars_of("sega")) {
        return "SEGA";
    }
    if contains_chars(&d, &chars_of("koei")) || contains_chars(&d, &chars_of("tecmo")) {
        return "KT";
    }
    if contains_chars(&d, &chars_of("lab zero")) || contains_chars(&d, &chars_of("hidden variables")) {
        return "IND";
    }
    ""
}

/// Narrowest width of the name column.
pub const MIN_NAME: usize = 20;

/// Narrowest width of the developer column.
pub const MIN_DEV: usize = 12;

/// The width used when the terminal's is not known.
pub const DEFAULT_TERM_WIDTH: usize = 120;

/// The widths of the name and developer columns for a terminal `term_w`
/// columns wide: what the borders, padding and fixed columns leave (49
/// columns with the App ID column, 39 without) is split 6 to 4, each
/// at least its minimum.
pub open spec fn widths_for(term_w: nat, show_appid: bool) -> (nat, nat) {
    let overhead: nat = if show_appid { 49 } else { 39 };
    let available: nat = if term_w >= overhead { (term_w - overhead) as nat } else { 0 };
    let name = available * 6 / 10;
    let dev = available * 4 / 10;
    (
        if name >= MIN_NAME { name } else { MIN_NAME as nat },
        if dev >= MIN_DEV { dev } else { MIN_DEV as nat },
    )
}

/// The terminal width, if known.
pub open spec fn term_width_of(term: Option<u16>) -> nat {
    match term {
        Some(w) => w as nat,
        None => DEFAULT_TERM_WIDTH as nat,
    }
}

/// The widths of the name and developer columns for a terminal of `term`
/// columns (120 when unknown).
pub fn column_widths_for(term: Option<u16>, show_appid: bool) -> (w: (usize, usize))
    ensures
        w.0 == widths_for(term_width_of(term), show_appid).0,
        w.1 == widths_for(term_width_of(term), show_appid).1,
        w.0 >= MIN_NAME,
        w.1 >= MIN_DEV,
{
    let term_w: usize = match term {
        Some(w) => w as usize,
        None => DEFAULT_TERM_WIDTH,
    };
    let overhead: usize = if show_appid { 49 } else { 39 };
    let available: usize = if term_w >= overhead { term_w - overhead } else { 0 };
    let name = available * 6 / 10;
    let dev = available * 4 / 10;
    (if name >= MIN_NAME { name } else { MIN_NAME }, if dev >= MIN_DEV { dev } else { MIN_DEV })
}

/// The width of the terminal in columns, through `terminal_size::terminal_size`
/// (stdout, then stderr, then stdin). Trusted only to return; whether a
/// terminal is attached and its width depend on the environment, so nothing
/// is said of the result.
#[verifier::external_body]
fn terminal_width() -> (w: Option<u16>) {
    terminal_size::terminal_size().map(|(w, _)| w.0)
}

/// The widths of the name and developer columns for the terminal this runs
/// in.
pub fn column_widths(show_appid: bool) -> (w: (usize, usize))
    ensures
        exists|term: Option<u16>|
            w.0 == #[trigger] widths_for(term_width_of(term), show_appid).0 && w.1 == widths_for(
                term_width_of(term),
                show_appid,
            ).1,
        w.0 >= MIN_NAME,
        w.1 >= MIN_DEV,
{
    let term = terminal_width();
    column_widths_for(term, show_appid)
}

} // verus!

verus! {

/// The characters of each cell of a row.
pub open spec fn cells(row: Vec<String>) -> Seq<Seq<char>> {
    row@.map_values(|s: String| s@)
}

/// The header row of the table.
pub open spec fn header_cells(show_appid: bool) -> Seq<Seq<char>> {
    let base = seq![" # "@, "Game"@, "Players Now"@, "Peak 24h"@, "Developer"@];
    if show_appid {
        base.push("App ID"@)
    } else {
        base
    }
}

/// The tag of a developer as it follows a name: in square brackets.
pub open spec fn bracketed(tag: Seq<char>) -> Seq<char> {
    seq!['['] + tag + seq![']']
}

/// The room left for a name that is followed by ` [tag]`.
pub open spec fn name_room(max_name: nat, tag: Seq<char>) -> nat {
    if max_name >= tag.len() + 3 {
        (max_name - tag.len() - 3) as nat
    } else {
        0
    }
}

/// The name cell: the name cut to the column width; when the developer has
/// a tag, the name is cut shorter and followed by a space and the dimmed
/// tag in brackets.
pub open spec fn name_cell_ok(cell: Seq<char>, g: SteamSpyGame, max_name: nat) -> bool {
    let tag = tag_for(ascii_lower(g.developer@));
    if tag.len() == 0 {
        cell == truncated(g.name@, max_name)
    } else {
        exists|q: Seq<char>|
            cell == truncated(g.name@, name_room(max_name, tag)) + seq![' '] + q && #[trigger] painted(
                q,
                bracketed(tag),
                Tint::Dimmed,
            )
    }
}

/// A row of the table for the game ranked `rank`: rank, name (with tag),
/// live players, peak of yesterday (a dash when zero), developer, and the
/// App ID when that column is shown.
pub open spec fn row_shows(
    row: Seq<Seq<char>>,
    rank: nat,
    g: SteamSpyGame,
    live: Option<u32>,
    show_appid: bool,
    max_name: nat,
    max_dev: nat,
) -> bool {
    &&& row.len() == (if show_appid { 6int } else { 5int })
    &&& shows_rank(row[0], rank)
    &&& name_cell_ok(row[1], g, max_name)
    &&& painted(row[2], live_text(live), live_tint_of(live))
    &&& (if g.ccu == 0 { painted(row[3], dash(), Tint::Dimmed) } else { row[3] == grouped(g.ccu as nat) })
    &&& row[4] == truncated(g.developer@, max_dev)
    &&& (show_appid ==> row[5] == decimal(g.appid as nat))
}

fn header(show_appid: bool) -> (row: Vec<String>)
    ensures
        cells(row) == header_cells(show_appid),
{
    let mut row: Vec<String> = Vec::new();
    row.push(" # ".to_owned());
    row.push("Game".to_owned());
    row.push("Players Now".to_owned());
    row.push("Peak 24h".to_owned());
    row.push("Developer".to_owned());
    if show_appid {
        row.push("App ID".to_owned());
    }
    assert(cells(row) =~= header_cells(show_appid));
    row
}

fn dash_string() -> (s: String)
    ensures
        s@ == dash(),
{
    let mut s = String::new();
    push_char(&mut s, '\u{2014}');
    assert(s@ =~= dash());
    s
}

fn name_cell(g: &SteamSpyGame, max_name: usize) -> (cell: String)
    requires
        max_name >= MIN_NAME,
    ensures
        name_cell_ok(cell@, *g, max_name as nat),
{
    let tag = publisher_tag(g.developer.as_str());
    let tag_len = chars_of(tag).len();
    if tag_len == 0 {
        truncate(g.name.as_str(), max_name)
    } else {
        proof {
            reveal_strlit("ASW");
            reveal_strlit("CAP");
            reveal_strlit("NRS");
            reveal_strlit("SNK");
            reveal_strlit("BNE");
            reveal_strlit("SEGA");
            reveal_strlit("KT");
            reveal_strlit("IND");
            reveal_strlit("");
        }
        assert(tag_len <= 4);
        let room = max_name - (tag_len + 3);
        let mut cell = truncate(g.name.as_str(), room);
        push_char(&mut cell, ' ');
        let mut inner = String::new();
        push_char(&mut inner, '[');
        inner.append(tag);
        push_char(&mut inner, ']');
        assert(inner@ =~= bracketed(tag@));
        assert(!inner@.contains('\u{1b}')) by {
            assert forall|i: int| 0 <= i < inner@.len() implies inner@[i] != '\u{1b}' by {
                if 0 < i < inner@.len() - 1 {
                    assert(inner@[i] == tag@[i - 1]);
                }
            }
        }
        let painted = paint(inner.as_str(), Tint::Dimmed);
        let ghost before = cell@;
        cell.append(painted.as_str());
        assert(cell@ == truncated(g.name@, name_room(max_name as nat, tag@)) + seq![' '] + painted@);
        cell
    }
}

/// The table row of the game ranked `rank`.
pub fn game_row(rank: usize, g: &SteamSpyGame, live: Option<u32>, show_appid: bool, max_name: usize, max_dev: usize) -> (row: Vec<String>)
    requires
        max_name >= MIN_NAME,
        max_dev >= MIN_DEV,
    ensures
        row_shows(cells(row), rank as nat, *g, live, show_appid, max_name as nat, max_dev as nat),
        // a non-zero peak is shown as its number, digits grouped by commas;
        // only a peak of zero shows the dash
        g.ccu != 0 ==> without_commas(row@[3]@) == decimal(g.ccu as nat),
        g.ccu == 0 ==> painted(row@[3]@, dash(), Tint::Dimmed),
{
    let mut row: Vec<String> = Vec::new();
    row.push(color_rank(rank));
    row.push(name_cell(g, max_name));
    row.push(color_live(live));
    let ccu_cell = if g.ccu == 0 {
        paint(dash_string().as_str(), Tint::Dimmed)
    } else {
        format_number(g.ccu)
    };
    proof {
        assert(!dash().contains('\u{1b}'));
    }
    row.push(ccu_cell);
    row.push(truncate(g.developer.as_str(), max_dev));
    if show_appid {
        row.push(decimal_string(g.appid as u64));
    }
    proof {
        law_peak_cell_shows_the_number(cells(row), rank as nat, *g, live, show_appid, max_name as nat, max_dev as nat);
    }
    row
}

/// In a table row, the peak cell of a game with a non-zero peak is that
/// number (its digits, once the group separators are taken out), whatever the
/// size of the peak; the dash that stands for "no data" is shown for a peak of
/// zero only.
pub proof fn law_peak_cell_shows_the_number(
    row: Seq<Seq<char>>,
    rank: nat,
    g: SteamSpyGame,
    live: Option<u32>,
    show_appid: bool,
    max_name: nat,
    max_dev: nat,
)
    requires
        row_shows(row, rank, g, live, show_appid, max_name, max_dev),
    ensures
        g.ccu != 0 ==> without_commas(row[3]) == decimal(g.ccu as nat),
        g.ccu == 0 ==> painted(row[3], dash(), Tint::Dimmed),
{
    if g.ccu != 0 {
        law_grouping_only_adds_commas(g.ccu as nat);
    }
}

} // verus!

verus! {

/// The number of rows shown: the games and counts are paired position by
/// position, so the shorter list decides.
pub open spec fn shown_count(games: Seq<SteamSpyGame>, live: Seq<Option<u32>>) -> nat {
    if games.len() <= live.len() { games.len() } else { live.len() }
}

/// The rows of the table: the header, then one row per game, ranked from 1.
pub fn table_rows(
    games: &Vec<SteamSpyGame>,
    live_counts: &Vec<Option<u32>>,
    show_appid: bool,
    max_name: usize,
    max_dev: usize,
) -> (rows: Vec<Vec<String>>)
    requires
        max_name >= MIN_NAME,
        max_dev >= MIN_DEV,
    ensures
        rows@.len() == 1 + shown_count(games@, live_counts@),
        cells(rows@[0]) == header_cells(show_appid),
        forall|k: int|
            0 <= k < shown_count(games@, live_counts@) ==> row_shows(
                cells(#[trigger] rows@[k + 1]),
                (k + 1) as nat,
                games@[k],
                live_counts@[k],
                show_appid,
                max_name as nat,
                max_dev as nat,
            ),
{
    let mut rows: Vec<Vec<String>> = Vec::new();
    rows.push(header(show_appid));
    let n = if games.len() <= live_counts.len() { games.len() } else { live_counts.len() };
    let mut i: usize = 0;
    while i < n
        invariant
            n == shown_count(games@, live_counts@),
            n <= games@.len(),
            n <= live_counts@.len(),
            max_name >= MIN_NAME,
            max_dev >= MIN_DEV,
            i <= n,
            rows@.len() == 1 + i,
            cells(rows@[0]) == header_cells(show_appid),
            forall|k: int|
                0 <= k < i ==> row_shows(
                    cells(#[trigger] rows@[k + 1]),
                    (k + 1) as nat,
                    games@[k],
                    live_counts@[k],
                    show_appid,
                    max_name as nat,
                    max_dev as nat,
                ),
        decreases n - i,
    {
        let row = game_row(i + 1, &games[i], live_counts[i], show_appid, max_name, max_dev);
        rows.push(row);
        i += 1;
    }
    rows
}

/// What the `tabled` crate renders for `rows` in its modern style with the
/// columns `right` aligned right.
pub uninterp spec fn modern_table(rows: Seq<Seq<Seq<char>>>, right: (usize, usize, usize, usize)) -> Seq<char>;

/// The rows as seen by the table renderer.
pub open spec fn table_cells(rows: Seq<Vec<String>>) -> Seq<Seq<Seq<char>>> {
    rows.map_values(|r: Vec<String>| cells(r))
}

/// Renders `rows` with `tabled`: `Builder::from` the rows, `build`, the
/// `Style::modern()` borders, and `Alignment::right()` on each column of
/// `right` (`Modify::new(Columns::one(c))`), then `to_string`. Trusted: the
/// text is a function of the rows and the four columns alone, named
/// `modern_table`; the layout itself is left to `tabled`.
#[verifier::external_body]
fn render_table(rows: Vec<Vec<String>>, right: (usize, usize, usize, usize)) -> (text: String)
    ensures
        text@ == modern_table(table_cells(rows@), right),
{
    let mut table = tabled::builder::Builder::from(rows).build();
    table.with(Style::modern());
    table.with(Modify::new(Columns::one(right.0)).with(Alignment::right()));
    table.with(Modify::new(Columns::one(right.1)).with(Alignment::right()));
    table.with(Modify::new(Columns::one(right.2)).with(Alignment::right()));
    table.with(Modify::new(Columns::one(right.3)).with(Alignment::right()));
    table.to_string()
}

/// The columns aligned right: rank, live players, peak, and the App ID when
/// it is shown (without it, the peak column is named twice, which changes
/// nothing).
pub open spec fn right_columns(show_appid: bool) -> (usize, usize, usize, usize) {
    if show_appid {
        (0, 2, 3, 5)
    } else {
        (0, 2, 3, 3)
    }
}

/// The legend under the table: the number of games, the colour key of the
/// live counts, and what the tags are.
pub open spec fn footer_ok(line: Seq<char>, count: nat) -> bool {
    exists|a: Seq<char>, b: Seq<char>, c: Seq<char>|
        painted(a, "■"@, Tint::GreenBold) && painted(b, "■"@, Tint::Yellow) && painted(c, "■"@, Tint::Dimmed) && line == "  "@ + decimal(count)
            + " game(s)  ·  "@ + a + " 1,000+   "@ + b + " 100–999   "@ + c
            + " <100   · tags: publisher studio"@
}

fn footer(count: usize) -> (line: String)
    ensures
        footer_ok(line@, count as nat),
{
    proof {
        reveal_strlit("■");
    }
    let a = paint("■", Tint::GreenBold);
    let b = paint("■", Tint::Yellow);
    let c = paint("■", Tint::Dimmed);
    let mut line = String::new();
    line.append("  ");
    push_decimal(&mut line, count as u64);
    line.append(" game(s)  ·  ");
    line.append(a.as_str());
    line.append(" 1,000+   ");
    line.append(b.as_str());
    line.append(" 100–999   ");
    line.append(c.as_str());
    line.append(" <100   · tags: publisher studio");
    line
}

/// The lines printed for the table with name and developer columns
/// `max_name` and `max_dev` wide: `No results.` when there are no games;
/// otherwise the table rendered from the header and the game rows, then the
/// legend.
pub open spec fn table_lines_ok(
    lines: Seq<String>,
    games: Seq<SteamSpyGame>,
    live_counts: Seq<Option<u32>>,
    show_appid: bool,
    max_name: nat,
    max_dev: nat,
) -> bool {
    &&& games.len() == 0 ==> lines.len() == 1 && lines[0]@ == "No results."@
    &&& games.len() > 0 ==> lines.len() == 2 && footer_ok(lines[1]@, games.len()) && exists|
        rows: Seq<Seq<Seq<char>>>,
    |
        #[trigger] modern_table(rows, right_columns(show_appid)) == lines[0]@ && rows.len() == 1
            + shown_count(games, live_counts) && rows[0] == header_cells(show_appid) && forall|k: int|
            0 <= k < shown_count(games, live_counts) ==> row_shows(
                #[trigger] rows[k + 1],
                (k + 1) as nat,
                games[k],
                live_counts[k],
                show_appid,
                max_name,
                max_dev,
            )
}

/// The lines printed for the table, given the widths of the name and
/// developer columns: `No results.` when there are no games; otherwise the
/// rendered table and the legend.
pub fn table_lines(
    games: &Vec<SteamSpyGame>,
    live_counts: &Vec<Option<u32>>,
    show_appid: bool,
    max_name: usize,
    max_dev: usize,
) -> (lines: Vec<String>)
    requires
        max_name >= MIN_NAME,
        max_dev >= MIN_DEV,
    ensures
        table_lines_ok(lines@, games@, live_counts@, show_appid, max_name as nat, max_dev as nat),
{
    let mut lines: Vec<String> = Vec::new();
    if games.len() == 0 {
        lines.push("No results.".to_owned());
        return lines;
    }
    let rows = table_rows(games, live_counts, show_appid, max_name, max_dev);
    let ghost rv = rows@;
    let ghost seen = table_cells(rows@);
    let right = if show_appid { (0, 2, 3, 5) } else { (0, 2, 3, 3) };
    let text = render_table(rows, right);
    lines.push(text);
    lines.push(footer(games.len()));
    assert(seen.len() == 1 + shown_count(games@, live_counts@));
    assert(seen[0] == header_cells(show_appid));
    assert(modern_table(seen, right_columns(show_appid)) == lines@[0]@);
    assert forall|k: int| 0 <= k < shown_count(games@, live_counts@) implies row_shows(
        #[trigger] seen[k + 1],
        (k + 1) as nat,
        games@[k],
        live_counts@[k],
        show_appid,
        max_name as nat,
        max_dev as nat,
    ) by {
        assert(seen[k + 1] == cells(rv[k + 1]));
    }
    lines
}

/// The lines of the table report for the terminal this runs in: the column
/// widths come from its width.
pub fn table_report(games: &Vec<SteamSpyGame>, live_counts: &Vec<Option<u32>>, show_appid: bool) -> (lines: Vec<
    String,
>)
    ensures
        exists|term: Option<u16>|
            #[trigger] table_lines_ok(
                lines@,
                games@,
                live_counts@,
                show_appid,
                widths_for(term_width_of(term), show_appid).0,
                widths_for(term_width_of(term), show_appid).1,
            ),
{
    let (max_name, max_dev) = column_widths(show_appid);
    table_lines(games, live_counts, show_appid, max_name, max_dev)
}

} // verus!

verus! {

/// One game of the JSON output.
pub struct JsonEntry {
    pub rank: usize,
    pub appid: u32,
    pub name: String,
    pub developer: String,
    pub live_players: Option<u32>,
    pub peak_ccu: u32,
}

/// `e` is the JSON entry of the game ranked `rank`.
pub open spec fn json_entry_of(e: JsonEntry, rank: nat, g: SteamSpyGame, live: Option<u32>) -> bool {
    &&& e.rank == rank
    &&& e.appid == g.appid
    &&& e.name@ == g.name@
    &&& e.developer@ == g.developer@
    &&& e.live_players == live
    &&& e.peak_ccu == g.ccu
}

/// The entries of the JSON output: each game with its live count, ranked
/// from 1, as far as both lists go.
pub fn json_entries(games: Vec<SteamSpyGame>, live_counts: Vec<Option<u32>>) -> (entries: Vec<JsonEntry>)
    ensures
        entries@.len() == shown_count(games@, live_counts@),
        forall|k: int|
            0 <= k < entries@.len() ==> json_entry_of(#[trigger] entries@[k], (k + 1) as nat, games@[k], live_counts@[k]),
{
    let ghost gs = games@;
    let n = games.len();
    let mut entries: Vec<JsonEntry> = Vec::new();
    let mut i: usize = 0;
    for g in it: games.into_iter()
        invariant
            it.seq() == gs,
            n == gs.len(),
            i == it.index(),
            i <= n,
            entries@.len() == (if i <= live_counts@.len() { i as int } else { live_counts@.len() as int }),
            forall|k: int|
                0 <= k < entries@.len() ==> json_entry_of(#[trigger] entries@[k], (k + 1) as nat, gs[k], live_counts@[k]),
    {
        if i < live_counts.len() {
            let live = live_counts[i];
            let e = JsonEntry {
                rank: i + 1,
                appid: g.appid,
                name: g.name,
                developer: g.developer,
                live_players: live,
                peak_ccu: g.ccu,
            };
            entries.push(e);
        }
        i += 1;
    }
    entries
}

} // verus!

verus! {

/// A CSV field body: every `"` of `s` doubled (`s.replace('"', "\"\"")`).
pub open spec fn doubled_quotes(s: Seq<char>) -> Seq<char>
    decreases s.len(),
{
    if s.len() == 0 {
        s
    } else if s[0] == '"' {
        seq!['"', '"'] + doubled_quotes(s.drop_first())
    } else {
        seq![s[0]] + doubled_quotes(s.drop_first())
    }
}

/// How a CSV reader reads the body of a quoted field: `""` stands for one
/// `"`, and a lone `"` ends the field (so the body is not whole).
pub open spec fn read_quoted(t: Seq<char>) -> Option<Seq<char>>
    decreases t.len(),
{
    if t.len() == 0 {
        Some(t)
    } else if t[0] == '"' {
        if t.len() >= 2 && t[1] == '"' {
            match read_quoted(t.skip(2)) {
                Some(r) => Some(seq!['"'] + r),
                None => None,
            }
        } else {
            None
        }
    } else {
        match read_quoted(t.drop_first()) {
            Some(r) => Some(seq![t[0]] + r),
            None => None,
        }
    }
}

/// A quoted CSV field reads back as the text it was made from, whatever
/// quotes the text holds.
pub proof fn law_csv_field_reads_back(s: Seq<char>)
    ensures
        read_quoted(doubled_quotes(s)) == Some(s),
    decreases s.len(),
{
    if s.len() > 0 {
        law_csv_field_reads_back(s.drop_first());
        let t = doubled_quotes(s);
        if s[0] == '"' {
            assert(t.skip(2) =~= doubled_quotes(s.drop_first()));
        } else {
            assert(t.drop_first() =~= doubled_quotes(s.drop_first()));
        }
        assert(s =~= seq![s[0]] + s.drop_first());
    }
}

fn push_doubled_quotes(out: &mut String, s: &str)
    ensures
        final(out)@ == old(out)@ + doubled_quotes(s@),
{
    let v = chars_of(s);
    let mut i: usize = 0;
    assert(v@.skip(0) =~= v@);
    while i < v.len()
        invariant
            v@ == s@,
            i <= v@.len(),
            old(out)@ + doubled_quotes(s@) == out@ + doubled_quotes(v@.skip(i as int)),
        decreases v@.len() - i,
    {
        let c = v[i];
        assert(v@.skip(i as int).drop_first() =~= v@.skip(i + 1));
        if c == '"' {
            push_char(out, '"');
            push_char(out, '"');
        } else {
            push_char(out, c);
        }
        i += 1;
    }
    assert(v@.skip(i as int) =~= Seq::<char>::empty());
    assert(out@ + Seq::<char>::empty() =~= out@);
}

/// The header line of the CSV output.
pub open spec fn csv_header() -> Seq<char> {
    "rank,appid,name,developer,live_players,peak_ccu"@
}

/// The CSV line of the game ranked `rank`: rank, App ID, quoted name and
/// developer, live players (empty when unknown), peak of yesterday.
pub open spec fn csv_line(rank: nat, g: SteamSpyGame, live: Option<u32>) -> Seq<char> {
    decimal(rank) + ","@ + decimal(g.appid as nat) + ",\""@ + doubled_quotes(g.name@) + "\",\""@
        + doubled_quotes(g.developer@) + "\","@ + (match live {
        Some(n) => decimal(n as nat),
        None => Seq::empty(),
    }) + ","@ + decimal(g.ccu as nat)
}

/// A known live count, zero included, is written in full in the CSV line:
/// the line of a game with count `n` is the line of the same game with no
/// known count, with the decimal notation of `n` put into the empty
/// live-players field (just before the comma that precedes the peak).
pub proof fn law_csv_known_count_is_written(rank: nat, g: SteamSpyGame, n: u32)
    ensures
        ({
            let unknown = csv_line(rank, g, None);
            let at = unknown.len() - 1 - decimal(g.ccu as nat).len();
            &&& 0 <= at
            &&& unknown[at] == ','
            &&& csv_line(rank, g, Some(n)) == unknown.take(at) + decimal(n as nat) + unknown.skip(at)
        }),
        decimal(n as nat).len() >= 1,
{
    let head = decimal(rank) + ","@ + decimal(g.appid as nat) + ",\""@ + doubled_quotes(g.name@) + "\",\""@
        + doubled_quotes(g.developer@) + "\","@;
    let tail = ","@ + decimal(g.ccu as nat);
    reveal_strlit(",");
    let unknown = csv_line(rank, g, None);
    assert(unknown =~= head + tail);
    let at = unknown.len() - 1 - decimal(g.ccu as nat).len();
    assert(at == head.len());
    assert(unknown.take(at) =~= head);
    assert(unknown.skip(at) =~= tail);
    assert(csv_line(rank, g, Some(n)) =~= head + decimal(n as nat) + tail);
    assert(decimal(n as nat).len() >= 1) by {
        reveal_with_fuel(decimal, 2);
    }
}

/// The CSV line of the game ranked `rank`.
pub fn csv_row(rank: usize, g: &SteamSpyGame, live: Option<u32>) -> (line: String)
    ensures
        line@ == csv_line(rank as nat, *g, live),
{
    let mut line = String::new();
    push_decimal(&mut line, rank as u64);
    line.append(",");
    push_decimal(&mut line, g.appid as u64);
    line.append(",\"");
    push_doubled_quotes(&mut line, g.name.as_str());
    line.append("\",\"");
    push_doubled_quotes(&mut line, g.developer.as_str());
    line.append("\",");
    if let Some(n) = live {
        push_decimal(&mut line, n as u64);
    }
    line.append(",");
    push_decimal(&mut line, g.ccu as u64);
    assert(line@ =~= csv_line(rank as nat, *g, live));
    line
}

/// The lines of the CSV output: the header, then one line per game, ranked
/// from 1, as far as both lists go.
pub fn csv_lines(games: &Vec<SteamSpyGame>, live_counts: &Vec<Option<u32>>) -> (lines: Vec<String>)
    ensures
        lines@.len() == 1 + shown_count(games@, live_counts@),
        lines@[0]@ == csv_header(),
        forall|k: int|
            0 <= k < shown_count(games@, live_counts@) ==> (#[trigger] lines@[k + 1])@ == csv_line(
                (k + 1) as nat,
                games@[k],
                live_counts@[k],
            ),
{
    let mut lines: Vec<String> = Vec::new();
    lines.push("rank,appid,name,developer,live_players,peak_ccu".to_owned());
    let n = if games.len() <= live_counts.len() { games.len() } else { live_counts.len() };
    let mut i: usize = 0;
    while i < n
        invariant
            n == shown_count(games@, live_counts@),
            n <= games@.len(),
            n <= live_counts@.len(),
            i <= n,
            lines@.len() == 1 + i,
            lines@[0]@ == csv_header(),
            forall|k: int|
                0 <= k < i ==> (#[trigger] lines@[k + 1])@ == csv_line((k + 1) as nat, games@[k], live_counts@[k]),
        decreases n - i,
    {
        lines.push(csv_row(i + 1, &games[i], live_counts[i]));
        i += 1;
    }
    lines
}

} // verus!
