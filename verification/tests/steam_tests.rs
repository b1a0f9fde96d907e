use xof_fighter::steam::{player_count_of, player_count_url, retry_step, ResponseInner, RetryStep};

#[test]
fn player_count_url_has_the_app_id() {
    assert_eq!(
        player_count_url(1778820),
        "https://api.steampowered.com/ISteamUserStats/GetNumberOfCurrentPlayers/v1/?appid=1778820"
    );
}

#[test]
fn player_count_is_read_only_on_success() {
    assert_eq!(player_count_of(&ResponseInner { player_count: Some(1234), result: 1 }), Some(1234));
    assert_eq!(player_count_of(&ResponseInner { player_count: Some(1234), result: 42 }), None);
    assert_eq!(player_count_of(&ResponseInner { player_count: None, result: 1 }), None);
}

fn delay(step: RetryStep) -> Option<Option<u64>> {
    match step {
        RetryStep::Attempt { delay_ms } => Some(delay_ms),
        RetryStep::GiveUp => None,
    }
}

#[test]
fn retries_back_off_then_give_up() {
    assert_eq!(delay(retry_step(0)), Some(None));
    assert_eq!(delay(retry_step(1)), Some(Some(300)));
    assert_eq!(delay(retry_step(2)), Some(Some(600)));
    assert_eq!(delay(retry_step(3)), Some(Some(1200)));
    assert_eq!(delay(retry_step(4)), None);
    assert_eq!(delay(retry_step(100)), None);
}
