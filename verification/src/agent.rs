//! The browser identities that requests are sent under.

use vstd::prelude::*;
use std::time::{Duration, SystemTime};

verus! {

/// How many identities there are.
pub const USER_AGENT_COUNT: usize = 5;

/// The identities, in their fixed order.
pub open spec fn user_agents() -> Seq<Seq<char>> {
    seq![
        "Mozilla/5.0 (Windows NT 10.0; Win64; x64) AppleWebKit/537.36 (KHTML, like Gecko) Chrome/91.0.4472.124 Safari/537.36"@,
        "Mozilla/5.0 (Macintosh; Intel Mac OS X 10_15_7) AppleWebKit/605.1.15 (KHTML, like Gecko) Version/14.1.1 Safari/605.1.15"@,
        "Mozilla/5.0 (Windows NT 10.0; Win64; x64; rv:89.0) Gecko/20100101 Firefox/89.0"@,
        "Mozilla/5.0 (X11; Linux x86_64) AppleWebKit/537.36 (KHTML, like Gecko) Chrome/92.0.4515.107 Safari/537.36"@,
        "Mozilla/5.0 (iPhone; CPU iPhone OS 14_6 like Mac OS X) AppleWebKit/605.1.15 (KHTML, like Gecko) Version/14.0 Mobile/15E148 Safari/604.1"@,
    ]
}

/// The identity at place `index`.
pub fn user_agent_at(index: usize) -> (out: &'static str)
    requires
        index < USER_AGENT_COUNT,
    ensures
        out@ == user_agents()[index as int],
{
    if index == 0 {
        "Mozilla/5.0 (Windows NT 10.0; Win64; x64) AppleWebKit/537.36 (KHTML, like Gecko) Chrome/91.0.4472.124 Safari/537.36"
    } else if index == 1 {
        "Mozilla/5.0 (Macintosh; Intel Mac OS X 10_15_7) AppleWebKit/605.1.15 (KHTML, like Gecko) Version/14.1.1 Safari/605.1.15"
    } else if index == 2 {
        "Mozilla/5.0 (Windows NT 10.0; Win64; x64; rv:89.0) Gecko/20100101 Firefox/89.0"
    } else if index == 3 {
        "Mozilla/5.0 (X11; Linux x86_64) AppleWebKit/537.36 (KHTML, like Gecko) Chrome/92.0.4515.107 Safari/537.36"
    } else {
        "Mozilla/5.0 (iPhone; CPU iPhone OS 14_6 like Mac OS X) AppleWebKit/605.1.15 (KHTML, like Gecko) Version/14.0 Mobile/15E148 Safari/604.1"
    }
}

/// The identity that a clock reading of `seconds` selects: the one at the
/// place `seconds` modulo the number of identities.
pub fn pick_user_agent(seconds: u64) -> (out: &'static str)
    ensures
        out@ == user_agents()[seconds as int % USER_AGENT_COUNT as int],
{
    let index: u64 = seconds % 5;
    user_agent_at(index as usize)
}

/// `std::time::SystemTime`, carried through without being looked into.
#[verifier::external_type_specification]
#[verifier::external_body]
pub struct ExSystemTime(SystemTime);

/// `SystemTime::now` reads the system clock; nothing is known of the reading.
pub assume_specification[ SystemTime::now ]() -> SystemTime;

/// `Duration::as_secs` gives the whole seconds of a duration.
pub assume_specification[ Duration::as_secs ](d: &Duration) -> u64;

/// `SystemTime::duration_since`, taken from `UNIX_EPOCH`: the time elapsed
/// since the epoch, or `None` where the reading lies before it.
#[verifier::external_body]
fn since_epoch(now: &SystemTime) -> (out: Option<Duration>) {
    now.duration_since(std::time::UNIX_EPOCH).ok()
}

/// Picks an identity by the system clock: the whole seconds since the epoch
/// select it. A clock that reads earlier than the epoch selects the first.
pub fn get_random_user_agent() -> (out: &'static str)
    ensures
        exists|i: int| 0 <= i < USER_AGENT_COUNT && out@ == #[trigger] user_agents()[i],
{
    let now = SystemTime::now();
    let seconds: u64 = match since_epoch(&now) {
        Some(elapsed) => elapsed.as_secs(),
        None => 0,
    };
    let out = pick_user_agent(seconds);
    assert(out@ == user_agents()[seconds as int % 5]);
    out
}

} // verus!
