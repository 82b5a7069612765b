use seventeen::protocol::{CoreError, Message, Notification, Response};
use seventeen::transport::{PendingRequests, RouteOutcome};

#[test]
fn two_requests_get_distinct_ids() {
    let mut pending = PendingRequests::new();
    let first = pending.register();
    let second = pending.register();
    assert_ne!(first, second);
}

#[test]
fn response_completes_its_request() {
    let mut pending = PendingRequests::new();
    let id = pending.register();
    let outcome = pending.route(Message::Response {
        id,
        res: Response {
            result: Some(serde_json::Value::Null),
            error: None,
        },
    });
    assert!(matches!(outcome, RouteOutcome::Completed { id: got, .. } if got == id));
}

#[test]
fn response_without_request_is_a_violation() {
    let mut pending = PendingRequests::new();
    let outcome = pending.route(Message::Response {
        id: 7,
        res: Response {
            result: Some(serde_json::Value::Null),
            error: None,
        },
    });
    assert!(matches!(outcome, RouteOutcome::ProtocolViolation { id: 7 }));
}

#[test]
fn notifications_are_forwarded() {
    let mut pending = PendingRequests::new();
    let outcome = pending.route(Message::Notification(Notification::SetTheme {
        theme_name: String::from("InspiredGitHub"),
    }));
    assert!(matches!(
        outcome,
        RouteOutcome::Notify(Notification::SetTheme { .. })
    ));
}

#[test]
fn engine_requests_are_reported() {
    let mut pending = PendingRequests::new();
    let outcome = pending.route(Message::Request {
        id: 3,
        req: seventeen::protocol::Request::NewView { file_path: None },
    });
    assert!(matches!(outcome, RouteOutcome::UnexpectedRequest { id: 3 }));
}

#[test]
fn into_result_takes_the_result() {
    let res = Response {
        result: Some(serde_json::Value::Bool(true)),
        error: None,
    };
    assert!(matches!(res.into_result(), Ok(serde_json::Value::Bool(true))));
}

#[test]
fn into_result_surfaces_engine_errors() {
    let res = Response {
        result: None,
        error: Some(serde_json::Value::Bool(false)),
    };
    assert!(matches!(
        res.into_result(),
        Err(CoreError::BadResponse(serde_json::Value::Bool(false)))
    ));
}

#[test]
fn into_result_rejects_malformed_responses() {
    let neither = Response {
        result: None,
        error: None,
    };
    assert!(matches!(
        neither.into_result(),
        Err(CoreError::InvalidResponse)
    ));

    let both = Response {
        result: Some(serde_json::Value::Null),
        error: Some(serde_json::Value::Null),
    };
    assert!(matches!(both.into_result(), Err(CoreError::InvalidResponse)));
}
