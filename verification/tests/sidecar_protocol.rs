// Sidecar protocol decisions: request lines, id correlation, outcomes.

use bnri_cosmic::agent::{
    colibri_args, frame_request, push_decimal, reply_result, request_line, PendingCalls,
    SidecarError, SidecarResponse, WaitOutcome, COLIBRI_PROGRAM,
};

fn reply(id: u64, text: Option<&str>, error: Option<&str>) -> SidecarResponse {
    SidecarResponse {
        id,
        text: text.map(|t| t.to_string()),
        error: error.map(|e| e.to_string()),
    }
}

fn reg<W>(calls: &mut PendingCalls<W>, waiter: W) -> u64 {
    calls.register(waiter).expect("table is open")
}

#[test]
fn request_line_is_framed_json_with_newline() {
    let line = request_line(7, "hi").expect("serializes");
    assert_eq!(line, "{\"id\":7,\"prompt\":\"hi\"}\n");
}

#[test]
fn request_line_escapes_the_prompt() {
    let line = request_line(12, "say \"x\"\nnow").expect("serializes");
    assert_eq!(line, "{\"id\":12,\"prompt\":\"say \\\"x\\\"\\nnow\"}\n");
}

#[test]
fn request_line_escapes_controls_and_keeps_other_text() {
    let line = request_line(3, "a\u{1}b\t\\é\u{7f}").expect("serializes");
    assert_eq!(line, "{\"id\":3,\"prompt\":\"a\\u0001b\\t\\\\é\u{7f}\"}\n");
    let line = request_line(4, "\u{1f}\r\u{8}\u{c}").expect("serializes");
    assert_eq!(line, "{\"id\":4,\"prompt\":\"\\u001f\\r\\b\\f\"}\n");
}

#[test]
fn frame_request_puts_prompt_json_as_is() {
    assert_eq!(frame_request(0, "[1]"), "{\"id\":0,\"prompt\":[1]}\n");
}

#[test]
fn decimal_text_of_numbers() {
    let mut s = String::from("n=");
    push_decimal(&mut s, 0);
    assert_eq!(s, "n=0");
    let mut s = String::new();
    push_decimal(&mut s, 1090);
    assert_eq!(s, "1090");
    let mut s = String::new();
    push_decimal(&mut s, u64::MAX);
    assert_eq!(s, u64::MAX.to_string());
}

#[test]
fn ids_start_at_one_and_count_up() {
    let mut calls: PendingCalls<&str> = PendingCalls::new();
    assert_eq!(reg(&mut calls, "a"), 1);
    assert_eq!(reg(&mut calls, "b"), 2);
    assert_eq!(reg(&mut calls, "c"), 3);
}

#[test]
fn reply_goes_to_the_caller_with_its_id() {
    let mut calls: PendingCalls<&str> = PendingCalls::new();
    let a = reg(&mut calls, "a");
    let b = reg(&mut calls, "b");
    let (who, result) = calls.deliver(reply(b, Some("for b"), None)).expect("b waits");
    assert_eq!(who, "b");
    assert_eq!(result, Ok("for b".to_string()));
    let (who, result) = calls.deliver(reply(a, None, Some("boom"))).expect("a waits");
    assert_eq!(who, "a");
    assert_eq!(result, Err("boom".to_string()));
    // each call is answered once
    assert!(calls.deliver(reply(a, Some("again"), None)).is_none());
}

#[test]
fn reply_for_unknown_id_is_dropped() {
    let mut calls: PendingCalls<u8> = PendingCalls::new();
    let id = reg(&mut calls, 9);
    assert!(calls.deliver(reply(id + 1, Some("x"), None)).is_none());
    assert!(calls.deliver(reply(id, Some("x"), None)).is_some());
}

#[test]
fn text_wins_over_error_and_empty_reply_is_an_error() {
    assert_eq!(reply_result(reply(1, Some("t"), Some("e"))), Ok("t".to_string()));
    assert_eq!(reply_result(reply(1, None, Some("e"))), Err("e".to_string()));
    assert_eq!(
        reply_result(reply(1, None, None)),
        Err("sidecar response has neither text nor error".to_string())
    );
}

#[test]
fn settle_maps_each_outcome() {
    let mut calls: PendingCalls<()> = PendingCalls::new();
    let id = reg(&mut calls, ());
    assert_eq!(calls.settle(id, WaitOutcome::Reply(Ok("ok".to_string()))), Ok("ok".to_string()));
    assert_eq!(
        calls.settle(id, WaitOutcome::Reply(Err("bad".to_string()))),
        Err(SidecarError::Sidecar("bad".to_string()))
    );
    assert_eq!(calls.settle(id, WaitOutcome::Closed), Err(SidecarError::NotRunning));
}

#[test]
fn timed_out_call_leaves_the_table() {
    let mut calls: PendingCalls<()> = PendingCalls::new();
    let id = reg(&mut calls, ());
    assert_eq!(calls.settle(id, WaitOutcome::Elapsed), Err(SidecarError::Timeout));
    // the late reply finds nobody
    assert!(calls.deliver(reply(id, Some("late"), None)).is_none());
}

#[test]
fn close_drops_every_waiting_call() {
    let mut calls: PendingCalls<u32> = PendingCalls::new();
    let a = reg(&mut calls, 1);
    let b = reg(&mut calls, 2);
    calls.close();
    assert!(calls.deliver(reply(a, Some("x"), None)).is_none());
    assert!(calls.deliver(reply(b, Some("x"), None)).is_none());
    // a closed table takes no more calls and keeps nothing
    assert_eq!(calls.register(3), Err(SidecarError::NotRunning));
    assert!(calls.deliver(reply(3, Some("x"), None)).is_none());
}

#[test]
fn error_texts() {
    assert_eq!(SidecarError::NotRunning.describe(), "LLM sidecar is not running");
    assert_eq!(SidecarError::Timeout.describe(), "LLM sidecar request timed out");
    assert_eq!(
        SidecarError::WriteFailed("pipe".to_string()).describe(),
        "Failed to write to sidecar: pipe"
    );
    assert_eq!(SidecarError::Sidecar("oom".to_string()).describe(), "Sidecar error: oom");
}

#[test]
fn colibri_command_line() {
    assert_eq!(COLIBRI_PROGRAM, "python3");
    assert_eq!(
        colibri_args("/models/glm.gguf", 16),
        vec!["-m", "colibri", "--model", "/models/glm.gguf", "--ram-limit", "16"]
    );
}
