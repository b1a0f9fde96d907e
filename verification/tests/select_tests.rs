use std::collections::HashSet;
use xof_fighter::select::{filter_games, live_minimum, rank_entries, stable_sort, str_less, uses_allowlist, SortBy};
use xof_fighter::steamspy::SteamSpyGame;

fn game(appid: u32, name: &str, ccu: u32) -> SteamSpyGame {
    SteamSpyGame { appid, name: name.to_string(), developer: "Dev".to_string(), ccu }
}

fn ids(games: &[SteamSpyGame]) -> Vec<u32> {
    games.iter().map(|g| g.appid).collect()
}

#[test]
fn allowlist_applies_to_the_fighting_tag_in_any_case() {
    assert!(uses_allowlist("Fighting"));
    assert!(uses_allowlist("FIGHTING"));
    assert!(uses_allowlist("fighting"));
    assert!(!uses_allowlist("Fighting "));
    assert!(!uses_allowlist("2D Fighter"));
    assert!(!uses_allowlist(""));
}

#[test]
fn filters_keep_order() {
    let games = vec![game(1, "Tekken 8", 100), game(2, "Street Fighter 6", 50), game(3, "TEKKEN 7", 5)];
    let allowed: HashSet<u32> = [1u32, 3].into_iter().collect();
    assert_eq!(ids(&filter_games(games.clone(), Some(&allowed), None, None)), vec![1, 3]);
    assert_eq!(ids(&filter_games(games.clone(), None, Some("tekken"), None)), vec![1, 3]);
    assert_eq!(ids(&filter_games(games.clone(), None, Some("FIGHTER"), None)), vec![2]);
    assert_eq!(ids(&filter_games(games.clone(), None, None, Some(50))), vec![1, 2]);
    assert_eq!(ids(&filter_games(games.clone(), Some(&allowed), Some("tek"), Some(10))), vec![1]);
    assert_eq!(ids(&filter_games(games, None, None, None)), vec![1, 2, 3]);
}

#[test]
fn strings_order_by_code_point() {
    assert!(str_less("Apple", "Banana"));
    assert!(str_less("Tekken", "Tekken 7"));
    assert!(!str_less("b", "B"));
    assert!(!str_less("same", "same"));
    assert_eq!(str_less("Zeta", "Älpha"), "Zeta" < "Älpha");
}

#[test]
fn rank_by_live_is_stable() {
    let games = vec![game(1, "a", 0), game(2, "b", 0), game(3, "c", 0), game(4, "d", 0)];
    let live = vec![Some(10), None, Some(30), Some(0)];
    let (g, l) = rank_entries(games, live, None, SortBy::Live, None);
    assert_eq!(ids(&g), vec![3, 1, 2, 4]);
    assert_eq!(l, vec![Some(30), Some(10), None, Some(0)]);
}

#[test]
fn rank_by_ccu_and_top() {
    let games = vec![game(1, "a", 5), game(2, "b", 50), game(3, "c", 50), game(4, "d", 7)];
    let live = vec![None, None, None, None];
    let (g, l) = rank_entries(games, live, None, SortBy::Ccu, Some(3));
    assert_eq!(ids(&g), vec![2, 3, 4]);
    assert_eq!(l.len(), 3);
}

#[test]
fn rank_by_name_and_min_live() {
    let games = vec![game(1, "Tekken 8", 1), game(2, "Guilty Gear", 1), game(3, "Skullgirls", 1), game(4, "BlazBlue", 1)];
    let live = vec![Some(500), Some(5), Some(300), Some(100)];
    let (g, _) = rank_entries(games, live, Some(100), SortBy::Name, None);
    assert_eq!(ids(&g), vec![4, 3, 1]);
}

#[test]
fn rank_pairs_up_to_the_shorter_list() {
    let games = vec![game(1, "a", 1), game(2, "b", 2), game(3, "c", 3)];
    let (g, l) = rank_entries(games, vec![Some(1), Some(2)], None, SortBy::Ccu, Some(10));
    assert_eq!(ids(&g), vec![2, 1]);
    assert_eq!(l, vec![Some(2), Some(1)]);
}

#[test]
fn stable_sort_keeps_ties_in_order() {
    let entries = vec![(game(1, "x", 3), None), (game(2, "x", 1), None), (game(3, "x", 2), None)];
    let out = stable_sort(entries, SortBy::Name);
    let order: Vec<u32> = out.iter().map(|e| e.0.appid).collect();
    assert_eq!(order, vec![1, 2, 3]);
}

#[test]
fn sorting_a_sorted_list_changes_nothing() {
    for by in [SortBy::Live, SortBy::Ccu, SortBy::Name] {
        let entries = vec![
            (game(1, "b", 3), Some(5)),
            (game(2, "a", 3), None),
            (game(3, "b", 9), Some(5)),
            (game(4, "c", 1), Some(7)),
        ];
        let once = stable_sort(entries, by);
        let order: Vec<u32> = once.iter().map(|e| e.0.appid).collect();
        let twice = stable_sort(once, by);
        let order2: Vec<u32> = twice.iter().map(|e| e.0.appid).collect();
        assert_eq!(order, order2);
    }
}

#[test]
fn min_live_has_no_effect_without_live_counts() {
    assert_eq!(live_minimum(Some(100), true), Some(100));
    assert_eq!(live_minimum(None, true), None);
    assert_eq!(live_minimum(Some(100), false), None);
    let games = vec![game(1, "a", 5), game(2, "b", 50)];
    let live = vec![None, None];
    let (g, _) = rank_entries(games, live, live_minimum(Some(100), false), SortBy::Ccu, None);
    assert_eq!(ids(&g), vec![2, 1]);
}
