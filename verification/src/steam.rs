//! Live player counts from the Steam Web API: the request address, how the
//! reply is read, and when a failed request is tried again.

use vstd::prelude::*;
use crate::text::{push_decimal, decimal};

verus! {

/// The address of the current player count of `app_id`.
pub fn player_count_url(app_id: u32) -> (url: String)
    ensures
        url@ == "https://api.steampowered.com/ISteamUserStats/GetNumberOfCurrentPlayers/v1/?appid="@
            + decimal(app_id as nat),
{
    let mut url = String::new();
    url.append("https://api.steampowered.com/ISteamUserStats/GetNumberOfCurrentPlayers/v1/?appid=");
    push_decimal(&mut url, app_id as u64);
    url
}

/// The `response` object of the Steam reply.
pub struct ResponseInner {
    pub player_count: Option<u32>,
    pub result: u32,
}

/// The player count a reply reports: the count when Steam reports success
/// (`result` 1), and `None` when it reports the game as unavailable or
/// delisted.
pub fn player_count_of(resp: &ResponseInner) -> (count: Option<u32>)
    ensures
        count == (if resp.result == 1 { resp.player_count } else { None }),
{
    if resp.result == 1 {
        resp.player_count
    } else {
        None
    }
}

/// How many times a failed request for a player count is tried again.
pub const MAX_RETRIES: u32 = 3;

/// What to do before the request numbered `attempt` (counting from 0).
pub enum RetryStep {
    /// Make the request, after waiting `delay_ms` milliseconds if given.
    Attempt { delay_ms: Option<u64> },
    /// Give up and report the last error.
    GiveUp,
}

/// The wait before retry number `n` (counting from 1): 300 ms, doubled for
/// each further retry.
pub open spec fn backoff_ms(n: nat) -> nat
    decreases n,
{
    if n <= 1 {
        300
    } else {
        2 * backoff_ms((n - 1) as nat)
    }
}

/// Each retry waits twice as long as the one before.
pub proof fn law_backoff_doubles(n: nat)
    requires
        n >= 1,
    ensures
        backoff_ms(n + 1) == 2 * backoff_ms(n),
{
}

/// Retries up to three times with exponential backoff: the first request is
/// made at once, each retry waits twice as long as the one before, starting
/// at 300 ms (300, 600, 1200 ms), and after the first request and three
/// failed retries the fetch gives up.
pub fn retry_step(attempt: u32) -> (step: RetryStep)
    ensures
        attempt > MAX_RETRIES <==> step is GiveUp,
        attempt == 0 ==> step == (RetryStep::Attempt { delay_ms: None }),
        0 < attempt <= MAX_RETRIES ==> (step matches RetryStep::Attempt { delay_ms: Some(d) } && d
            == backoff_ms(attempt as nat)),
{
    if attempt > MAX_RETRIES {
        RetryStep::GiveUp
    } else if attempt == 0 {
        RetryStep::Attempt { delay_ms: None }
    } else {
        let mut d: u64 = 300;
        let mut n: u32 = 1;
        while n < attempt
            invariant
                1 <= n <= attempt <= MAX_RETRIES,
                d == backoff_ms(n as nat),
                d <= 1200,
            decreases attempt - n,
        {
            proof {
                reveal_with_fuel(backoff_ms, 3);
            }
            d = d * 2;
            n = n + 1;
        }
        RetryStep::Attempt { delay_ms: Some(d) }
    }
}

} // verus!
