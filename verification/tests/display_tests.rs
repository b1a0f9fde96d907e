use xof_fighter::display::{
    color_live, color_rank, column_widths, column_widths_for, csv_lines, game_row, json_entries,
    live_tint, paint, publisher_tag, rank_tint, table_lines, table_rows, Tint,
};
use xof_fighter::steamspy::SteamSpyGame;

fn colors(on: bool) {
    colored::control::set_override(on);
}

fn game(appid: u32, name: &str, developer: &str, ccu: u32) -> SteamSpyGame {
    SteamSpyGame { appid, name: name.to_string(), developer: developer.to_string(), ccu }
}

#[test]
fn publisher_tags() {
    assert_eq!(publisher_tag("Arc System Works"), "ASW");
    assert_eq!(publisher_tag("CAPCOM Co., Ltd."), "CAP");
    assert_eq!(publisher_tag("NetherRealm Studios"), "NRS");
    assert_eq!(publisher_tag("SNK CORPORATION"), "SNK");
    assert_eq!(publisher_tag("BANDAI NAMCO Studios Inc."), "BNE");
    assert_eq!(publisher_tag("SEGA"), "SEGA");
    assert_eq!(publisher_tag("KOEI TECMO GAMES"), "KT");
    assert_eq!(publisher_tag("Team NINJA, Tecmo"), "KT");
    assert_eq!(publisher_tag("Lab Zero Games"), "IND");
    assert_eq!(publisher_tag("Hidden Variables Studio"), "IND");
    assert_eq!(publisher_tag("Iron Galaxy"), "");
    assert_eq!(publisher_tag(""), "");
    // the first rule that matches wins
    assert_eq!(publisher_tag("Capcom / Arc System Works"), "ASW");
}

#[test]
fn live_counts_plain() {
    colors(false);
    assert_eq!(color_live(None), "\u{2014}");
    assert_eq!(color_live(Some(0)), "0");
    assert_eq!(color_live(Some(99)), "99");
    assert_eq!(color_live(Some(1234)), "1,234");
}

#[test]
fn live_counts_coloured() {
    colors(true);
    assert_eq!(color_live(Some(1500)), "\u{1b}[1;32m1,500\u{1b}[0m");
    assert_eq!(color_live(Some(150)), "\u{1b}[33m150\u{1b}[0m");
    assert_eq!(color_live(None), "\u{1b}[2m\u{2014}\u{1b}[0m");
}

#[test]
fn live_tints() {
    assert_eq!(live_tint(None), Tint::Dimmed);
    assert_eq!(live_tint(Some(99)), Tint::Dimmed);
    assert_eq!(live_tint(Some(100)), Tint::Yellow);
    assert_eq!(live_tint(Some(999)), Tint::Yellow);
    assert_eq!(live_tint(Some(1000)), Tint::GreenBold);
}

#[test]
fn ranks() {
    assert_eq!(rank_tint(1), Some(Tint::YellowBold));
    assert_eq!(rank_tint(2), Some(Tint::WhiteBold));
    assert_eq!(rank_tint(3), Some(Tint::Bronze));
    assert_eq!(rank_tint(4), None);
    colors(true);
    assert_eq!(color_rank(12), "12");
    assert_eq!(color_rank(1), "\u{1b}[1;33m1\u{1b}[0m");
    assert_eq!(color_rank(2), "\u{1b}[1;37m2\u{1b}[0m");
    assert!(color_rank(3).ends_with("3\u{1b}[0m"));
    colors(false);
    assert_eq!(color_rank(1), "1");
}

#[test]
fn column_widths_split_six_to_four() {
    assert_eq!(column_widths_for(Some(100), false), (36, 24));
    assert_eq!(column_widths_for(Some(200), true), (90, 60));
    assert_eq!(column_widths_for(None, false), (48, 32));
    assert_eq!(column_widths_for(Some(50), true), (20, 12));
    assert_eq!(column_widths_for(Some(0), false), (20, 12));
    let (name, dev) = column_widths(true);
    assert!(name >= 20 && dev >= 12);
}

#[test]
fn a_row_of_the_table() {
    colors(false);
    let g = game(1778820, "Tekken 8", "BANDAI NAMCO Studios Inc.", 0);
    let row = game_row(1, &g, Some(1234), true, 20, 12);
    assert_eq!(row, vec!["1", "Tekken 8 [BNE]", "1,234", "\u{2014}", "BANDAI NAMC\u{2026}", "1778820"]);
    let g = game(5, "A very long game name for a table", "Indie", 45000);
    let row = game_row(4, &g, None, false, 20, 12);
    assert_eq!(row, vec!["4", "A very long game na\u{2026}", "\u{2014}", "45,000", "Indie"]);
}

#[test]
fn tag_shortens_the_name() {
    colors(false);
    let g = game(1, "Guilty Gear -Strive- Ultimate Edition", "Arc System Works", 10);
    let row = game_row(2, &g, Some(5), false, 20, 12);
    assert_eq!(row[1], "Guilty Gear -\u{2026} [ASW]");
}

#[test]
fn table_rows_pair_up_to_the_shorter_list() {
    colors(false);
    let games = vec![game(1, "a", "x", 1), game(2, "b", "y", 2)];
    let rows = table_rows(&games, &vec![Some(1)], false, 20, 12);
    assert_eq!(rows.len(), 2);
    assert_eq!(rows[0], vec![" # ", "Game", "Players Now", "Peak 24h", "Developer"]);
}

#[test]
fn empty_table_says_no_results() {
    assert_eq!(table_lines(&vec![], &vec![], false, 20, 12), vec!["No results.".to_string()]);
}

#[test]
fn table_has_rows_and_legend() {
    colors(false);
    let games = vec![game(1778820, "Tekken 8", "Bandai Namco", 9000), game(2, "Other", "Indie", 3)];
    let lines = table_lines(&games, &vec![Some(5000), Some(2)], true, 20, 12);
    assert_eq!(lines.len(), 2);
    assert!(lines[0].contains("Tekken 8 [BNE]"));
    assert!(lines[0].contains("App ID"));
    assert!(lines[0].contains("5,000"));
    assert!(lines[0].contains('┌'));
    assert_eq!(
        lines[1],
        "  2 game(s)  ·  ■ 1,000+   ■ 100–999   ■ <100   · tags: publisher studio"
    );
}

#[test]
fn csv_output() {
    let games = vec![game(1778820, "Tekken \"8\"", "Bandai, Namco", 50), game(2, "b", "c", 0)];
    let lines = csv_lines(&games, &vec![Some(1234), None]);
    assert_eq!(lines[0], "rank,appid,name,developer,live_players,peak_ccu");
    assert_eq!(lines[1], "1,1778820,\"Tekken \"\"8\"\"\",\"Bandai, Namco\",1234,50");
    assert_eq!(lines[2], "2,2,\"b\",\"c\",,0");
    assert_eq!(lines.len(), 3);
}

#[test]
fn csv_field_reads_back() {
    let games = vec![game(1, "\"quoted\" \"\"", "d", 0)];
    let lines = csv_lines(&games, &vec![None]);
    let field = lines[1].split(",\"").nth(1).unwrap();
    let body = &field[..field.len() - 1];
    assert_eq!(body.replace("\"\"", "\""), "\"quoted\" \"\"");
}

#[test]
fn json_entries_rank_from_one() {
    let games = vec![game(10, "a", "x", 3), game(20, "b", "y", 4), game(30, "c", "z", 5)];
    let entries = json_entries(games, vec![None, Some(7)]);
    assert_eq!(entries.len(), 2);
    assert_eq!(entries[0].rank, 1);
    assert_eq!(entries[0].appid, 10);
    assert_eq!(entries[0].live_players, None);
    assert_eq!(entries[1].rank, 2);
    assert_eq!(entries[1].name, "b");
    assert_eq!(entries[1].developer, "y");
    assert_eq!(entries[1].live_players, Some(7));
    assert_eq!(entries[1].peak_ccu, 4);
}

#[test]
fn paint_wraps_the_text_only_when_colours_are_on() {
    colors(false);
    assert_eq!(paint("[BNE]", Tint::Dimmed), "[BNE]");
    assert_eq!(paint("3", Tint::Bronze), "3");
    colors(true);
    assert_eq!(paint("[BNE]", Tint::Dimmed), "\u{1b}[2m[BNE]\u{1b}[0m");
    assert_eq!(paint("x", Tint::YellowBold), "\u{1b}[1;33mx\u{1b}[0m");
    let bronze = paint("3", Tint::Bronze);
    assert!(bronze.starts_with('\u{1b}') && bronze.ends_with("3\u{1b}[0m"));
}
