use ai_bridge::transient::{is_temporary, temporary, Cause};

#[test]
fn business_errors_are_not_temporary() {
    assert!(!is_temporary(&vec![Cause::Other]));
}

#[test]
fn explicit_marker_is_temporary() {
    assert!(is_temporary(&temporary(vec![Cause::Other])));
}

#[test]
fn deadline_is_temporary_but_cancel_is_not() {
    assert!(is_temporary(&vec![Cause::DeadlineExceeded]));
    assert!(!is_temporary(&vec![Cause::Canceled]));
}

#[test]
fn cancel_wins_over_temporary_marker() {
    assert!(!is_temporary(&temporary(vec![Cause::Canceled])));
}

#[test]
fn wrapped_marker_is_found_through_the_chain() {
    let mut chain = vec![Cause::Other];
    chain.extend(temporary(vec![Cause::Other]));
    assert!(is_temporary(&chain));
}

#[test]
fn socket_and_http_failures_are_transient_but_an_open_circuit_is_not() {
    assert!(is_temporary(&vec![Cause::IoConnectionReset]));
    assert!(is_temporary(&vec![Cause::HttpConnect]));
    assert!(!is_temporary(&vec![Cause::CircuitOpen(5)]));
    assert!(!is_temporary(&vec![]));
}
