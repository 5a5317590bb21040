use blaze::framing::FramingError;
use blaze::request::{HttpMethod, OwnedRequest, ParseError};
use blaze::task::{EndpointFuture, TaskAction, TaskEvent, TaskError};

/// Feed a whole request to a fresh task, expecting a dispatch at the final
/// byte; every earlier byte must ask for one more read.
fn run_until_dispatch(input: &[u8]) -> (EndpointFuture, OwnedRequest) {
    let mut task = EndpointFuture::new();
    let mut dispatched: Option<OwnedRequest> = None;
    for (i, &b) in input.iter().enumerate() {
        let (next, action) = task.poll(TaskEvent::ByteRead(b));
        task = next;
        if i + 1 < input.len() {
            assert!(matches!(action, TaskAction::ReadByte));
        } else {
            match action {
                TaskAction::Dispatch(req) => dispatched = Some(req),
                _ => panic!("expected a dispatch at the final byte"),
            }
        }
    }
    (task, dispatched.unwrap())
}

#[test]
fn full_request_dispatches_once() {
    let (task, req) = run_until_dispatch(b"GET /x HTTP/1.1\r\nHost: a\r\n\r\n");
    assert_eq!(req.header_count(), 1);
    assert_eq!(req.method(), HttpMethod::GET);
    assert_eq!(req.path(), b"/x".to_vec());
    assert_eq!(req.version(), b"HTTP/1.1".to_vec());
    assert_eq!(req.header_name(0), b"Host".to_vec());
    assert_eq!(req.header_value(0), b"a".to_vec());
    let (task, action) = task.poll(TaskEvent::WriteDone);
    assert!(matches!(action, TaskAction::Close));
    assert!(task.has_closed());
    assert_eq!(task.failure(), None);
}

#[test]
fn disconnect_mid_request_is_truncated() {
    let mut task = EndpointFuture::new();
    for &b in b"GET /x HT" {
        let (next, action) = task.poll(TaskEvent::ByteRead(b));
        task = next;
        assert!(matches!(action, TaskAction::ReadByte));
    }
    let (task, action) = task.poll(TaskEvent::StreamClosed);
    assert!(matches!(action, TaskAction::Close));
    assert!(task.has_closed());
    assert_eq!(
        task.failure(),
        Some(TaskError::Framing(FramingError::Truncated))
    );

    // the failure stays with that one task: the next connection on the
    // same worker is served untouched
    let (task, req) = run_until_dispatch(b"GET / HTTP/1.1\r\n\r\n");
    assert_eq!(req.header_count(), 0);
    let (task, _) = task.poll(TaskEvent::WriteDone);
    assert_eq!(task.failure(), None);
}

#[test]
fn read_failure_closes_with_io() {
    let task = EndpointFuture::new();
    let (task, action) = task.poll(TaskEvent::ReadFailed);
    assert!(matches!(action, TaskAction::Close));
    assert_eq!(task.failure(), Some(TaskError::Framing(FramingError::Io)));
}

#[test]
fn unparsable_request_closes_with_parse_error() {
    let input = b"BREW / HTTP/1.1\r\n\r\n";
    let mut task = EndpointFuture::new();
    let mut last_action = None;
    for &b in input.iter() {
        let (next, action) = task.poll(TaskEvent::ByteRead(b));
        task = next;
        last_action = Some(action);
    }
    assert!(matches!(last_action, Some(TaskAction::Close)));
    assert!(task.has_closed());
    assert_eq!(
        task.failure(),
        Some(TaskError::Parse(ParseError::UnknownMethod))
    );
}

#[test]
fn write_failure_closes_with_dispatch_error() {
    let (task, _req) = run_until_dispatch(b"GET / HTTP/1.1\r\n\r\n");
    let (task, action) = task.poll(TaskEvent::WriteFailed);
    assert!(matches!(action, TaskAction::Close));
    assert_eq!(task.failure(), Some(TaskError::Dispatch));
}
