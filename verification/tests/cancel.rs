use sim_foundation::cancel::{
    Cancellation, CancellationReason, CancellationTree, InvalidReason, WaiterPoll,
    MAX_REASON_BYTES,
};

fn reason(text: &str) -> CancellationReason {
    CancellationReason::new(text.to_string()).unwrap()
}

fn cancel(tree: &mut CancellationTree, token: &Cancellation, text: &str) -> bool {
    let mut woken = Vec::new();
    token.cancel(tree, reason(text), &mut woken)
}

#[test]
fn cancel_before_register_has_no_lost_wakeup() {
    let mut tree = CancellationTree::empty();
    let token = Cancellation::new(&mut tree);
    assert!(cancel(&mut tree, &token, "deadline"));
    let mut waiter = token.cancelled();
    assert_eq!(
        waiter.poll(&mut tree),
        WaiterPoll::Ready {
            reason: reason("deadline"),
            released: None
        }
    );
}

#[test]
fn duplicate_cancel_preserves_first_reason() {
    let mut tree = CancellationTree::empty();
    let token = Cancellation::new(&mut tree);
    assert!(cancel(&mut tree, &token, "first"));
    assert!(!cancel(&mut tree, &token, "second"));
    assert_eq!(token.reason(&tree), Some(reason("first")));
}

#[test]
fn parent_propagates_to_live_children_without_reverse_authority() {
    let mut tree = CancellationTree::empty();
    let parent = Cancellation::new(&mut tree);
    let child = parent.child(&mut tree);
    let grandchild = child.child(&mut tree);
    assert!(cancel(&mut tree, &parent, "request complete"));
    assert_eq!(child.reason(&tree), Some(reason("request complete")));
    assert_eq!(grandchild.reason(&tree), Some(reason("request complete")));
    let independent = Cancellation::new(&mut tree);
    let independent_child = independent.child(&mut tree);
    assert!(cancel(&mut tree, &independent_child, "local"));
    assert!(!independent.is_cancelled(&tree));
}

#[test]
fn dropped_waiter_releases_application_waker() {
    let mut tree = CancellationTree::empty();
    let token = Cancellation::new(&mut tree);
    let mut waiter = token.cancelled();
    let registration = match waiter.poll(&mut tree) {
        WaiterPoll::Pending {
            registration,
            fresh,
        } => {
            assert!(fresh);
            registration
        }
        other => panic!("expected pending, got {other:?}"),
    };
    assert_eq!(waiter.release(&mut tree), Some(registration));
    let mut woken = Vec::new();
    assert!(token.cancel(&mut tree, reason("cleanup"), &mut woken));
    assert!(woken.is_empty());
}

#[test]
fn timeout_conversion_and_request_completion_are_idempotent() {
    let mut tree = CancellationTree::empty();
    let request = Cancellation::new(&mut tree);
    let timeout = request.child(&mut tree);
    assert!(cancel(&mut tree, &timeout, "deadline elapsed"));
    assert!(cancel(&mut tree, &request, "request completed"));
    assert!(!cancel(&mut tree, &request, "late timeout"));
    assert_eq!(request.reason(&tree), Some(reason("request completed")));
}

#[test]
fn reasons_are_bounded() {
    assert_eq!(
        CancellationReason::new(" ".to_string()),
        Err(InvalidReason::Empty)
    );
    assert!(matches!(
        CancellationReason::new("x".repeat(MAX_REASON_BYTES + 1)),
        Err(InvalidReason::TooLong { .. })
    ));
}

#[test]
fn cancel_wakes_registered_waiters_of_every_cancelled_lifetime() {
    let mut tree = CancellationTree::empty();
    let parent = Cancellation::new(&mut tree);
    let child = parent.child(&mut tree);
    let mut parent_waiter = parent.cancelled();
    let mut child_waiter = child.cancelled();
    assert!(matches!(
        parent_waiter.poll(&mut tree),
        WaiterPoll::Pending { fresh: true, .. }
    ));
    assert!(matches!(
        child_waiter.poll(&mut tree),
        WaiterPoll::Pending { fresh: true, .. }
    ));
    assert!(matches!(
        child_waiter.poll(&mut tree),
        WaiterPoll::Pending { fresh: false, .. }
    ));
    let mut woken = Vec::new();
    assert!(parent.cancel(&mut tree, reason("stop"), &mut woken));
    assert_eq!(woken, vec![(0, 0), (1, 0)]);
    assert_eq!(
        child_waiter.poll(&mut tree),
        WaiterPoll::Ready {
            reason: reason("stop"),
            released: Some(0)
        }
    );
}

#[test]
fn child_of_cancelled_lifetime_starts_cancelled() {
    let mut tree = CancellationTree::empty();
    let parent = Cancellation::new(&mut tree);
    assert!(cancel(&mut tree, &parent, "done"));
    let child = parent.child(&mut tree);
    assert_eq!(child.reason(&tree), Some(reason("done")));
    assert!(!cancel(&mut tree, &child, "again"));
}

#[test]
fn reason_at_the_byte_bound_is_accepted() {
    let text = "é".repeat(MAX_REASON_BYTES / 2);
    assert_eq!(reason(&text).as_str(), text);
    assert_eq!(
        CancellationReason::new(format!("{text}x")),
        Err(InvalidReason::TooLong {
            actual: MAX_REASON_BYTES + 1,
            maximum: MAX_REASON_BYTES
        })
    );
}

#[test]
fn invalid_reason_messages_name_the_refusal() {
    let empty = InvalidReason::Empty;
    assert_eq!(empty.message(), "invalid cancellation reason: Empty");
    let long = InvalidReason::TooLong { actual: 300, maximum: MAX_REASON_BYTES };
    assert_eq!(
        long.message(),
        "invalid cancellation reason: TooLong { actual: 300, maximum: 256 }"
    );
    assert_eq!(long.message(), format!("invalid cancellation reason: {long:?}"));
}

#[test]
fn registered_waiter_is_released_once_by_the_winning_cancel() {
    let mut tree = CancellationTree::empty();
    let token = Cancellation::new(&mut tree);
    let mut waiter = token.cancelled();
    let first = waiter.poll(&mut tree);
    let registration = match first {
        WaiterPoll::Pending { registration, fresh } => {
            assert!(fresh);
            registration
        }
        other => panic!("expected pending, got {other:?}"),
    };
    assert_eq!(waiter.poll(&mut tree), WaiterPoll::Pending { registration, fresh: false });
    let mut woken = Vec::new();
    assert!(token.cancel(&mut tree, reason("stop"), &mut woken));
    assert_eq!(woken, vec![(waiter.lifetime(), registration)]);
    let mut again = Vec::new();
    assert!(!token.cancel(&mut tree, reason("later"), &mut again));
    assert!(again.is_empty());
    assert_eq!(
        waiter.poll(&mut tree),
        WaiterPoll::Ready { reason: reason("stop"), released: Some(registration) }
    );
}
