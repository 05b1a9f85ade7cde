use forge_agent::cancellation::{describe_child_token, CancellationTokenSource};

#[test]
fn test_token_initially_not_cancelled() {
    let source = CancellationTokenSource::new();
    let token = source.token();

    assert!(!token.is_cancelled());
}

#[test]
fn test_source_cancel_sets_token() {
    let source = CancellationTokenSource::new();
    let token = source.token();

    source.cancel();
    assert!(token.is_cancelled());
}

#[test]
fn test_token_clone_shares_state() {
    let source = CancellationTokenSource::new();
    let token1 = source.token();
    let token2 = token1.clone();

    source.cancel();

    assert!(token1.is_cancelled());
    assert!(token2.is_cancelled());
}

#[test]
fn test_child_token_inherits_parent_cancellation() {
    let source = CancellationTokenSource::new();
    let child = source.child_token();

    assert!(!child.is_cancelled());

    source.cancel();
    assert!(child.is_cancelled());
}

#[test]
fn test_child_token_independent_cancel() {
    let source = CancellationTokenSource::new();
    let child = source.child_token();

    child.cancel();
    assert!(child.is_cancelled());

    assert!(!source.token().is_cancelled());
}

#[test]
fn test_multiple_children_all_cancelled() {
    let source = CancellationTokenSource::new();
    let child1 = source.child_token();
    let child2 = source.child_token();
    let child3 = source.child_token();

    source.cancel();

    assert!(child1.is_cancelled());
    assert!(child2.is_cancelled());
    assert!(child3.is_cancelled());
}

#[test]
fn test_token_debug_display() {
    let source = CancellationTokenSource::new();
    let token = source.token();

    let debug_str = format!("{:?}", token);
    assert!(debug_str.contains("CancellationToken"));

    source.cancel();
    let debug_str_cancelled = format!("{:?}", token);
    assert!(debug_str_cancelled.contains("CancellationToken"));
}

#[test]
fn test_child_token_debug_display() {
    let source = CancellationTokenSource::new();
    let child = source.child_token();

    let debug_str = child.debug_string();
    assert!(debug_str.contains("ChildToken"));
    assert!(debug_str.contains("parent_cancelled: false"));
    assert!(debug_str.contains("local_cancelled: false"));

    source.cancel();
    let debug_str_cancelled = child.debug_string();
    assert!(debug_str_cancelled.contains("parent_cancelled: true"));
}

#[test]
fn test_source_cancel_idempotent() {
    let source = CancellationTokenSource::new();
    let token = source.token();

    source.cancel();
    source.cancel();
    source.cancel();

    assert!(token.is_cancelled());
}

#[test]
fn test_child_token_parent_and_local_both_cancelled() {
    let source = CancellationTokenSource::new();
    let child = source.child_token();

    source.cancel();
    child.cancel();

    assert!(child.is_cancelled());
}

#[test]
fn test_default_source() {
    let source = CancellationTokenSource::default();
    let token = source.token();

    assert!(!token.is_cancelled());
}

#[test]
fn child_token_description_text() {
    assert_eq!(
        describe_child_token(true, false),
        "ChildToken { parent_cancelled: true, local_cancelled: false, is_cancelled: true }"
    );
    assert_eq!(
        describe_child_token(false, false),
        "ChildToken { parent_cancelled: false, local_cancelled: false, is_cancelled: false }"
    );
}
