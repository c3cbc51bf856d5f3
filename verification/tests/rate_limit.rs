use data_pipeline::rate_limit_handler::error_handler;

#[test]
fn classifies_cooldown_message() {
    let wait = error_handler("Rate limited for the next 30 seconds");
    assert_eq!(wait, 30);
}

#[test]
fn classifies_cooldown_inside_longer_message() {
    let wait = error_handler(
        "code: 403, error: \"Rate limited for the next 42 seconds! Dont worry...\"",
    );
    assert_eq!(wait, 42);
}

#[test]
fn classifies_cooldown_with_wide_whitespace() {
    let wait = error_handler("Rate limited for the next \t 7  seconds");
    assert_eq!(wait, 7);
}

#[test]
fn takes_the_leftmost_cooldown() {
    let wait = error_handler(
        "Rate limited for the next 5 seconds; later: Rate limited for the next 9 seconds",
    );
    assert_eq!(wait, 5);
}

#[test]
fn other_messages_classify_as_fatal() {
    assert_eq!(error_handler("connection reset by peer"), 0);
    assert_eq!(error_handler(""), 0);
    assert_eq!(error_handler("Rate limited for the next seconds"), 0);
    assert_eq!(error_handler("Rate limited for the next 30"), 0);
    assert_eq!(error_handler("Rate limited for the next30 seconds"), 0);
}

#[test]
fn lower_case_wording_is_not_a_cooldown() {
    // The remote's throttling message capitalises the opening word; other
    // casings are not classified as throttling.
    assert_eq!(error_handler("rate limited for the next 30 seconds"), 0);
}

#[test]
fn unreadable_cooldown_classifies_as_fatal() {
    let wait = error_handler("Rate limited for the next 99999999999999999999 seconds");
    assert_eq!(wait, 0);
}
