use vpn_sub_sync::fetcher::{next_fetch_action, FetchAction, MAX_RETRIES};

#[test]
fn retries_pause_longer_and_give_up_after_three() {
    assert_eq!(MAX_RETRIES, 3);
    assert!(matches!(next_fetch_action(1, true), FetchAction::ReturnBody));
    assert!(matches!(next_fetch_action(3, true), FetchAction::ReturnBody));
    assert!(matches!(next_fetch_action(1, false), FetchAction::Retry { pause_secs: 1 }));
    assert!(matches!(next_fetch_action(2, false), FetchAction::Retry { pause_secs: 2 }));
    assert!(matches!(next_fetch_action(3, false), FetchAction::ReturnLastError));
}
