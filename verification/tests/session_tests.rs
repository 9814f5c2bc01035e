//! Session request dispatch and event-delivery membership.

use fswatchd::protocol::{Request, Response};
use fswatchd::session::{RequestResult, Session, SessionBackend};

struct MockBackend;

impl SessionBackend for MockBackend {
    fn hash(
        &self,
        _root: &String,
        _path: &String,
        _glob: &String,
        _persistent: bool,
    ) -> Result<(String, usize), String> {
        Ok((String::from("abc123"), 5))
    }

    fn watch(&self, _root: &String, _path: &String, _glob: &String) -> Result<(), String> {
        Ok(())
    }
}

struct FailingBackend;

impl SessionBackend for FailingBackend {
    fn hash(
        &self,
        _root: &String,
        _path: &String,
        _glob: &String,
        _persistent: bool,
    ) -> Result<(String, usize), String> {
        Err(String::from("no files"))
    }

    fn watch(&self, _root: &String, _path: &String, _glob: &String) -> Result<(), String> {
        Err(String::from("inotify limit"))
    }
}

#[test]
fn test_watch_adds_subscription() {
    let mut session = Session::new();
    let backend = MockBackend;

    let request = Request::Watch {
        root: "/repo".to_string(),
        path: "src".to_string(),
        glob: "**/*.rs".to_string(),
    };

    let result = session.process_request(request, &backend);

    match result {
        RequestResult::Subscribe { key, .. } => {
            assert!(session.should_receive_event(&key));
        }
        _ => panic!("Expected Subscribe"),
    }
}

#[test]
fn test_unwatch_removes_subscription() {
    let mut session = Session::new();
    let backend = MockBackend;

    // First subscribe
    let request: Request = Request::Watch {
        root: "/repo".to_string(),
        path: "src".to_string(),
        glob: "**/*.rs".to_string(),
    };
    let key = match session.process_request(request, &backend) {
        RequestResult::Subscribe { key, .. } => key,
        _ => panic!("Expected Subscribe"),
    };

    assert!(session.should_receive_event(&key));

    // Now unsubscribe
    let request = Request::Unwatch { key: key.clone() };
    session.process_request(request, &backend);

    assert!(!session.should_receive_event(&key));
}

#[test]
fn test_should_receive_event_only_for_subscribed_keys() {
    let mut session = Session::new();
    let backend = MockBackend;

    let request = Request::Watch {
        root: "/repo".to_string(),
        path: "src".to_string(),
        glob: "**/*.rs".to_string(),
    };
    let key = match session.process_request(request, &backend) {
        RequestResult::Subscribe { key, .. } => key,
        _ => panic!("Expected Subscribe"),
    };

    assert!(session.should_receive_event(&key));
    assert!(!session.should_receive_event(&"other-key".to_string()));
}

#[test]
fn test_hash_request_reports_backend_result() {
    let mut session = Session::new();
    let request = Request::Hash {
        root: "/repo".to_string(),
        path: ".".to_string(),
        glob: "*.rs".to_string(),
        persistent: false,
    };
    match session.process_request(request, &MockBackend) {
        RequestResult::Response(Response::Hash { hash, file_count }) => {
            assert_eq!(hash, "abc123");
            assert_eq!(file_count, 5);
        }
        _ => panic!("Expected a hash response"),
    }

    let request = Request::Hash {
        root: "/repo".to_string(),
        path: ".".to_string(),
        glob: "*.rs".to_string(),
        persistent: false,
    };
    match session.process_request(request, &FailingBackend) {
        RequestResult::Response(Response::Error { error }) => {
            assert_eq!(error, "no files");
        }
        _ => panic!("Expected an error response"),
    }
}

#[test]
fn test_watch_failure_leaves_session_unsubscribed() {
    let mut session = Session::new();
    let request = Request::Watch {
        root: "/repo".to_string(),
        path: "src".to_string(),
        glob: "**/*.rs".to_string(),
    };
    match session.process_request(request, &FailingBackend) {
        RequestResult::Response(Response::Error { error }) => {
            assert_eq!(error, "Failed to start watcher: inotify limit");
        }
        _ => panic!("Expected an error response"),
    }
    let key = fswatchd::protocol::make_subscription_key("/repo", "src", "**/*.rs");
    assert!(!session.should_receive_event(&key));
}

#[test]
fn test_unwatch_unknown_key_still_acknowledged() {
    let mut session = Session::new();
    let request = Request::Unwatch {
        key: "0123456789abcdef0123456789abcdef".to_string(),
    };
    match session.process_request(request, &MockBackend) {
        RequestResult::Unsubscribe {
            response: Response::Okay { ok },
            key,
        } => {
            assert!(ok);
            assert_eq!(key, "0123456789abcdef0123456789abcdef");
        }
        _ => panic!("Expected Unsubscribe"),
    }
}
