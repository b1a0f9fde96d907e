use xof_fighter::steamspy::{
    cache_file_name, is_cache_fresh, sanitize_tag, sort_by_peak, steamspy_url, FetchStep, ListingFetch,
    SteamSpyGame,
};

fn game(appid: u32, name: &str, ccu: u32) -> SteamSpyGame {
    SteamSpyGame { appid, name: name.to_string(), developer: "Dev".to_string(), ccu }
}

fn page(games: &[SteamSpyGame]) -> Vec<(String, SteamSpyGame)> {
    games.iter().map(|g| (g.appid.to_string(), g.clone())).collect()
}

#[test]
fn sanitize_tag_keeps_letters_digits_and_hyphens() {
    assert_eq!(sanitize_tag("Fighting"), "fighting");
    assert_eq!(sanitize_tag("Beat-em-up 2D"), "beat-em-up2d");
    assert_eq!(sanitize_tag("../etc/passwd"), "etcpasswd");
    assert_eq!(sanitize_tag("../etc/passwd&x=1"), "etcpasswdx1");
    assert_eq!(sanitize_tag("a&b=c#d?e"), "abcde");
    assert_eq!(sanitize_tag("snake_case"), "snakecase");
    assert_eq!(sanitize_tag("Ärger"), "ärger");
    assert_eq!(sanitize_tag("..."), "");
}

#[test]
fn sanitizing_twice_is_sanitizing_once() {
    for tag in ["Fighting", "Beat-em-up 2D", "../etc/passwd&x=1", "A_B-C", ""] {
        let once = sanitize_tag(tag);
        assert_eq!(sanitize_tag(&once), once);
        assert!(once.len() <= tag.len());
        assert!(once.chars().all(|c| c.is_ascii_lowercase() || c.is_ascii_digit() || c == '-'));
    }
}

#[test]
fn cache_file_name_uses_the_sanitized_tag() {
    assert_eq!(cache_file_name("Fighting", 0), "steamspy-fighting-0.json");
    assert_eq!(cache_file_name("../x", 12), "steamspy-x-12.json");
}

#[test]
fn steamspy_url_cannot_be_injected() {
    assert_eq!(
        steamspy_url("Fighting", 2),
        "https://steamspy.com/api.php?request=tag&tag=fighting&page=2"
    );
    assert_eq!(
        steamspy_url("x&request=all", 0),
        "https://steamspy.com/api.php?request=tag&tag=xrequestall&page=0"
    );
}

#[test]
fn cache_is_fresh_for_twelve_hours() {
    assert!(is_cache_fresh(Some(0)));
    assert!(is_cache_fresh(Some(43199)));
    assert!(!is_cache_fresh(Some(43200)));
    assert!(!is_cache_fresh(Some(u64::MAX)));
    assert!(!is_cache_fresh(None));
}

#[test]
fn sort_by_peak_is_stable_and_descending() {
    let out = sort_by_peak(vec![game(1, "a", 10), game(2, "b", 30), game(3, "c", 10), game(4, "d", 20)]);
    let ids: Vec<u32> = out.iter().map(|g| g.appid).collect();
    assert_eq!(ids, vec![2, 4, 1, 3]);
}

#[test]
fn fetch_with_zero_pages_is_done_at_once() {
    let (_, step) = ListingFetch::start("Fighting", 0, false);
    match step {
        FetchStep::Done(games) => assert!(games.is_empty()),
        _ => panic!("expected Done"),
    }
}

#[test]
fn fetch_reads_cache_then_downloads_then_merges() {
    let (state, step) = ListingFetch::start("Fighting", 2, false);
    assert!(matches!(step, FetchStep::ReadCache { page: 0 }));
    let (state, step) = state.on_cache(None);
    match &step {
        FetchStep::Fetch { page, url } => {
            assert_eq!(*page, 0);
            assert_eq!(url, "https://steamspy.com/api.php?request=tag&tag=fighting&page=0");
        }
        _ => panic!("expected Fetch"),
    }
    let (state, step) = state.on_fetched(page(&[game(1, "Tekken", 50), game(2, "SF6", 80)]));
    assert!(matches!(step, FetchStep::WriteCache { page: 0 }));
    let (state, step) = state.on_cache_written();
    assert!(matches!(step, FetchStep::ReadCache { page: 1 }));
    // page 1 comes from the cache and updates game 1
    let (_, step) = state.on_cache(Some(page(&[game(1, "Tekken", 90), game(3, "GGST", 60)])));
    match step {
        FetchStep::Done(games) => {
            let ids: Vec<(u32, u32)> = games.iter().map(|g| (g.appid, g.ccu)).collect();
            assert_eq!(ids, vec![(1, 90), (2, 80), (3, 60)]);
        }
        _ => panic!("expected Done"),
    }
}

#[test]
fn empty_cached_page_is_downloaded() {
    let (state, _) = ListingFetch::start("Fighting", 1, false);
    let (_, step) = state.on_cache(Some(Vec::new()));
    assert!(matches!(step, FetchStep::Fetch { page: 0, .. }));
}

#[test]
fn empty_download_ends_the_fetch() {
    let (state, _) = ListingFetch::start("Fighting", 5, false);
    let (state, _) = state.on_cache(Some(page(&[game(7, "KOF", 3)])));
    let (state, step) = state.on_cache(None);
    assert!(matches!(step, FetchStep::Fetch { page: 1, .. }));
    let (_, step) = state.on_fetched(Vec::new());
    match step {
        FetchStep::Done(games) => {
            assert_eq!(games.len(), 1);
            assert_eq!(games[0].appid, 7);
        }
        _ => panic!("expected Done"),
    }
}

#[test]
fn refresh_skips_the_cache() {
    let (state, step) = ListingFetch::start("Fighting", 2, true);
    assert!(matches!(step, FetchStep::Fetch { page: 0, .. }));
    let (state, step) = state.on_fetched(page(&[game(1, "a", 1)]));
    assert!(matches!(step, FetchStep::WriteCache { page: 0 }));
    let (_, step) = state.on_cache_written();
    match step {
        FetchStep::Fetch { page, url } => {
            assert_eq!(page, 1);
            assert_eq!(url, "https://steamspy.com/api.php?request=tag&tag=fighting&page=1");
        }
        _ => panic!("expected Fetch"),
    }
}
