use std::cell::RefCell;

use mozdef_proxy::capability::Capability;
use mozdef_proxy::queue::Enqueue;
use mozdef_proxy::queue::EnqueueError;
use mozdef_proxy::queue::decode_event;
use mozdef_proxy::queue::encode_event;
use mozdef_proxy::server::MozDefEvent;
use mozdef_proxy::server::Proxy;
use mozdef_proxy::server::Severity;

/// Records every message it is handed, as the real backend would receive
/// them, and always acknowledges.
struct RecordingQueue {
    messages: RefCell<Vec<String>>,
}

impl RecordingQueue {
    fn new() -> Self {
        RecordingQueue { messages: RefCell::new(Vec::new()) }
    }
}

impl<'a> Capability<Enqueue<MozDefEvent>> for &'a RecordingQueue {
    type Output = Result<(), EnqueueError>;

    fn perform(&self, op: Enqueue<MozDefEvent>) -> Self::Output {
        self.messages.borrow_mut().push(encode_event(op.0));
        Ok(())
    }
}

/// Reports failure on every send, with backend-internal diagnostic text.
struct FailingQueue;

impl Capability<Enqueue<MozDefEvent>> for FailingQueue {
    type Output = Result<(), EnqueueError>;

    fn perform(&self, _op: Enqueue<MozDefEvent>) -> Self::Output {
        Err(EnqueueError::Backend(
            "AccessDenied: arn:aws:sqs:us-east-1:123:events".to_string(),
        ))
    }
}

fn valid_body() -> &'static str {
    "{\"category\": \"authentication\", \"hostname\": \"host1\", \"severity\": \"INFO\", \"process\": \"sshd\", \"summary\": \"logon\", \"tags\": [\"ssh\"], \"details\": {\"port\": 22}}"
}

#[test]
fn valid_request_yields_success_and_one_faithful_message() {
    let queue = RecordingQueue::new();
    let proxy = Proxy::new(&queue);
    let r = proxy.handle(valid_body());
    assert_eq!(r.status, 200);
    assert_eq!(r.body, "Success");

    let messages = queue.messages.borrow();
    assert_eq!(messages.len(), 1);
    let event = decode_event(&messages[0]).unwrap();
    assert_eq!(event.category, "authentication");
    assert_eq!(event.hostname, "host1");
    assert_eq!(event.severity, Severity::INFO);
    assert_eq!(event.process, "sshd");
    assert_eq!(event.summary, "logon");
    assert_eq!(event.tags, vec!["ssh".to_string()]);
    assert_eq!(event.source, "mozdef-proxy");
}

#[test]
fn missing_field_yields_bad_request_and_no_backend_call() {
    let queue = RecordingQueue::new();
    let proxy = Proxy::new(&queue);
    // hostname omitted
    let body = "{\"category\": \"c\", \"severity\": \"INFO\", \"process\": \"p\", \"summary\": \"s\", \"details\": {}}";
    let r = proxy.handle(body);
    assert_eq!(r.status, 400);
    assert_eq!(r.body, "Invalid request data");
    assert_eq!(queue.messages.borrow().len(), 0);
}

#[test]
fn unrecognized_severity_yields_bad_request_and_no_backend_call() {
    let queue = RecordingQueue::new();
    let proxy = Proxy::new(&queue);
    let body = "{\"category\": \"c\", \"hostname\": \"h\", \"severity\": \"TRACE\", \"process\": \"p\", \"summary\": \"s\", \"details\": {}}";
    let r = proxy.handle(body);
    assert_eq!(r.status, 400);
    assert_eq!(r.body, "Invalid request data");
    assert_eq!(queue.messages.borrow().len(), 0);
}

#[test]
fn unparsable_body_yields_bad_request() {
    let queue = RecordingQueue::new();
    let proxy = Proxy::new(&queue);
    let r = proxy.handle("not json at all");
    assert_eq!(r.status, 400);
    assert_eq!(r.body, "Invalid request data");
    assert_eq!(queue.messages.borrow().len(), 0);
}

#[test]
fn backend_failure_yields_server_error_without_backend_text() {
    let proxy = Proxy::new(FailingQueue);
    let r = proxy.handle(valid_body());
    assert_eq!(r.status, 500);
    assert_eq!(r.body, "An error occurred in the server");
    assert!(!r.body.contains("AccessDenied"));
    assert!(!r.body.contains("arn:aws"));
}

#[test]
fn each_accepted_request_produces_exactly_one_message() {
    let queue = RecordingQueue::new();
    let proxy = Proxy::new(&queue);
    let n: usize = 25;
    for _ in 0..n {
        let r = proxy.handle(valid_body());
        assert_eq!(r.status, 200);
    }
    assert_eq!(queue.messages.borrow().len(), n);
}
