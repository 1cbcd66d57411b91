use ghtodep::client::{FetchEvent, RetryDecision, RetryState};
use ghtodep::error::AppError;

fn resp(status: u16, body: &str) -> FetchEvent {
    FetchEvent::Response {
        status,
        body: body.to_string(),
    }
}

#[test]
fn three_rate_limits_then_success_backs_off_doubling() {
    // 429 three times, then 200, with a budget of three retries:
    // the sleeps are 1, 2, 4 seconds and the body is delivered
    let st = RetryState::new(3);

    let (st, d) = st.on_event(resp(429, ""));
    assert_eq!(d, RetryDecision::Backoff(1));
    let (st, d) = st.on_event(resp(429, ""));
    assert_eq!(d, RetryDecision::Backoff(2));
    let (st, d) = st.on_event(resp(429, ""));
    assert_eq!(d, RetryDecision::Backoff(4));
    assert_eq!(st.retries, 3);

    let (_, d) = st.on_event(resp(200, "the page"));
    assert_eq!(d, RetryDecision::Deliver("the page".to_string()));
}

#[test]
fn rate_limit_past_the_budget_fails() {
    let st = RetryState::new(0);
    let (_, d) = st.on_event(resp(429, ""));
    assert_eq!(d, RetryDecision::Fail(AppError::RateLimited(0)));

    let st = RetryState::new(1);
    let (st, d) = st.on_event(resp(429, ""));
    assert_eq!(d, RetryDecision::Backoff(1));
    let (_, d) = st.on_event(resp(429, ""));
    assert_eq!(d, RetryDecision::Fail(AppError::RateLimited(1)));
}

#[test]
fn other_statuses_fail_at_once() {
    let st = RetryState::new(3);
    let (st2, d) = st.on_event(resp(404, ""));
    assert_eq!(d, RetryDecision::Fail(AppError::HttpStatus(404)));
    assert_eq!(st2.retries, 0);
    let (_, d) = st.on_event(resp(500, ""));
    assert_eq!(d, RetryDecision::Fail(AppError::HttpStatus(500)));
}

#[test]
fn any_2xx_delivers() {
    let st = RetryState::new(0);
    let (_, d) = st.on_event(resp(204, ""));
    assert_eq!(d, RetryDecision::Deliver(String::new()));
    let (_, d) = st.on_event(resp(299, "x"));
    assert_eq!(d, RetryDecision::Deliver("x".to_string()));
    let (_, d) = st.on_event(resp(300, "x"));
    assert_eq!(d, RetryDecision::Fail(AppError::HttpStatus(300)));
}

#[test]
fn transport_failures_share_the_budget_with_rate_limits() {
    let st = RetryState::new(1);
    let (st, d) = st.on_event(FetchEvent::Transport);
    assert_eq!(d, RetryDecision::Backoff(1));
    // the one retry is spent: a 429 now fails, naming one retry used
    let (_, d) = st.on_event(resp(429, ""));
    assert_eq!(d, RetryDecision::Fail(AppError::RateLimited(1)));

    let st = RetryState::new(0);
    let (_, d) = st.on_event(FetchEvent::Transport);
    assert_eq!(d, RetryDecision::Fail(AppError::Network));
}
