use rust_scrapper::agent::{get_random_user_agent, pick_user_agent, user_agent_at, USER_AGENT_COUNT};

const AGENTS: [&str; 5] = [
    "Mozilla/5.0 (Windows NT 10.0; Win64; x64) AppleWebKit/537.36 (KHTML, like Gecko) Chrome/91.0.4472.124 Safari/537.36",
    "Mozilla/5.0 (Macintosh; Intel Mac OS X 10_15_7) AppleWebKit/605.1.15 (KHTML, like Gecko) Version/14.1.1 Safari/605.1.15",
    "Mozilla/5.0 (Windows NT 10.0; Win64; x64; rv:89.0) Gecko/20100101 Firefox/89.0",
    "Mozilla/5.0 (X11; Linux x86_64) AppleWebKit/537.36 (KHTML, like Gecko) Chrome/92.0.4515.107 Safari/537.36",
    "Mozilla/5.0 (iPhone; CPU iPhone OS 14_6 like Mac OS X) AppleWebKit/605.1.15 (KHTML, like Gecko) Version/14.0 Mobile/15E148 Safari/604.1",
];

#[test]
fn user_agent_at_gives_each_identity() {
    assert_eq!(USER_AGENT_COUNT, 5);
    for i in 0..USER_AGENT_COUNT {
        assert_eq!(user_agent_at(i), AGENTS[i]);
    }
}

#[test]
fn pick_user_agent_goes_by_the_remainder() {
    assert_eq!(pick_user_agent(0), AGENTS[0]);
    assert_eq!(pick_user_agent(7), AGENTS[2]);
    assert_eq!(pick_user_agent(1_700_000_004), AGENTS[4]);
    assert_eq!(pick_user_agent(u64::MAX), AGENTS[0]);
}

#[test]
fn get_random_user_agent_is_one_of_the_identities() {
    let agent = get_random_user_agent();
    assert!(AGENTS.contains(&agent));
}
