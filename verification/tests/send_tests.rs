use slafling::config::ResolvedConfig;
use slafling::errors::{PayloadError, SendError};
use slafling::send::{
    basename, classify_arg, confirmation_gate, plan_send, resolve_payload, response_affirms,
    ArgValue, FileArg, GateDecision, PendingPayload, SendPlan, StdinSource,
};

fn settings(max: u64, confirm: bool) -> ResolvedConfig {
    ResolvedConfig {
        token: "xoxb-test".to_string(),
        channel: "#general".to_string(),
        max_file_size: max,
        confirm,
    }
}

fn default_name() -> String {
    "stdin".to_string()
}

/// A transport stub that only counts how often it is invoked.
struct TransportStub {
    calls: usize,
}

impl TransportStub {
    fn new() -> TransportStub {
        TransportStub { calls: 0 }
    }

    fn send(&mut self, _plan: &SendPlan) {
        self.calls += 1;
    }
}

#[test]
fn classify_arg_cases() {
    assert!(matches!(classify_arg(&None), ArgValue::Absent));
    assert!(matches!(
        classify_arg(&Some("".to_string())),
        ArgValue::StdinRequested
    ));
    match classify_arg(&Some("hi".to_string())) {
        ArgValue::Given(t) => assert_eq!(t, "hi"),
        _ => panic!("expected a given value"),
    }
}

#[test]
fn payload_both_absent_piped_reads_text() {
    let r = resolve_payload(
        ArgValue::Absent,
        FileArg::Absent,
        &default_name(),
        StdinSource::Piped(b"hello\n".to_vec()),
    );
    match r.unwrap() {
        PendingPayload::Text { text } => assert_eq!(text, "hello"),
        _ => panic!("expected text"),
    }
}

#[test]
fn payload_implicit_text_keeps_trailing_spaces() {
    // With no flags at all, only the trailing newline is stripped.
    let r = resolve_payload(
        ArgValue::Absent,
        FileArg::Absent,
        &default_name(),
        StdinSource::Piped(b"a \n".to_vec()),
    );
    match r.unwrap() {
        PendingPayload::Text { text } => assert_eq!(text, "a "),
        _ => panic!("expected text"),
    }
    // The explicit stdin-text flag trims all trailing whitespace.
    let r = resolve_payload(
        ArgValue::StdinRequested,
        FileArg::Absent,
        &default_name(),
        StdinSource::Piped(b"a \n".to_vec()),
    );
    match r.unwrap() {
        PendingPayload::Text { text } => assert_eq!(text, "a"),
        _ => panic!("expected text"),
    }
}

#[test]
fn payload_both_absent_terminal_is_error() {
    let r = resolve_payload(
        ArgValue::Absent,
        FileArg::Absent,
        &default_name(),
        StdinSource::Interactive,
    );
    assert_eq!(r.unwrap_err(), PayloadError::NoInputProvided);
}

#[test]
fn payload_both_stdin_is_ambiguous() {
    let r = resolve_payload(
        ArgValue::StdinRequested,
        FileArg::StdinRequested,
        &default_name(),
        StdinSource::Piped(b"data".to_vec()),
    );
    assert_eq!(r.unwrap_err(), PayloadError::AmbiguousStdin);
}

#[test]
fn payload_text_from_stdin() {
    let r = resolve_payload(
        ArgValue::StdinRequested,
        FileArg::Absent,
        &default_name(),
        StdinSource::Piped(b"hello\n".to_vec()),
    );
    match r.unwrap() {
        PendingPayload::Text { text } => assert_eq!(text, "hello"),
        _ => panic!("expected text"),
    }

    let r = resolve_payload(
        ArgValue::StdinRequested,
        FileArg::Absent,
        &default_name(),
        StdinSource::Interactive,
    );
    assert_eq!(r.unwrap_err(), PayloadError::TextStdinUnavailable);
}

#[test]
fn payload_file_from_stdin_uses_default_name() {
    let r = resolve_payload(
        ArgValue::Absent,
        FileArg::StdinRequested,
        &default_name(),
        StdinSource::Piped(vec![0u8, 159, 146, 150]),
    );
    match r.unwrap() {
        PendingPayload::File { filename, bytes, caption } => {
            assert_eq!(filename, "stdin");
            assert_eq!(bytes, vec![0u8, 159, 146, 150]);
            assert!(caption.is_none());
        },
        _ => panic!("expected a file"),
    }

    let r = resolve_payload(
        ArgValue::Absent,
        FileArg::StdinRequested,
        &default_name(),
        StdinSource::Interactive,
    );
    assert_eq!(r.unwrap_err(), PayloadError::FileStdinUnavailable);
}

#[test]
fn payload_given_text_alone_posts_text() {
    let r = resolve_payload(
        ArgValue::Given("hi there".to_string()),
        FileArg::Absent,
        &default_name(),
        StdinSource::Interactive,
    );
    match r.unwrap() {
        PendingPayload::Text { text } => assert_eq!(text, "hi there"),
        _ => panic!("expected text"),
    }
}

#[test]
fn payload_loaded_file_alone_uploads() {
    let r = resolve_payload(
        ArgValue::Absent,
        FileArg::Loaded { filename: "report.pdf".to_string(), bytes: vec![1, 2, 3] },
        &default_name(),
        StdinSource::Interactive,
    );
    match r.unwrap() {
        PendingPayload::File { filename, bytes, caption } => {
            assert_eq!(filename, "report.pdf");
            assert_eq!(bytes, vec![1, 2, 3]);
            assert!(caption.is_none());
        },
        _ => panic!("expected a file"),
    }
}

#[test]
fn payload_text_and_file_gives_caption() {
    let r = resolve_payload(
        ArgValue::Given("the report".to_string()),
        FileArg::Loaded { filename: "report.pdf".to_string(), bytes: vec![1, 2, 3] },
        &default_name(),
        StdinSource::Interactive,
    );
    match r.unwrap() {
        PendingPayload::File { filename, caption, .. } => {
            assert_eq!(filename, "report.pdf");
            assert_eq!(caption.as_deref(), Some("the report"));
        },
        _ => panic!("expected a file"),
    }
}

#[test]
fn payload_stdin_text_becomes_caption_of_loaded_file() {
    let r = resolve_payload(
        ArgValue::StdinRequested,
        FileArg::Loaded { filename: "report.pdf".to_string(), bytes: vec![1, 2, 3] },
        &default_name(),
        StdinSource::Piped(b"a caption\n".to_vec()),
    );
    match r.unwrap() {
        PendingPayload::File { caption, .. } => {
            assert_eq!(caption.as_deref(), Some("a caption"));
        },
        _ => panic!("expected a file"),
    }
}

#[test]
fn payload_given_text_with_stdin_file() {
    let r = resolve_payload(
        ArgValue::Given("note".to_string()),
        FileArg::StdinRequested,
        &default_name(),
        StdinSource::Piped(vec![9, 9]),
    );
    match r.unwrap() {
        PendingPayload::File { filename, bytes, caption } => {
            assert_eq!(filename, "stdin");
            assert_eq!(bytes, vec![9, 9]);
            assert_eq!(caption.as_deref(), Some("note"));
        },
        _ => panic!("expected a file"),
    }
}

#[test]
fn payload_rejects_invalid_utf8_text() {
    let r = resolve_payload(
        ArgValue::StdinRequested,
        FileArg::Absent,
        &default_name(),
        StdinSource::Piped(vec![0xff, 0xfe]),
    );
    assert_eq!(r.unwrap_err(), PayloadError::StdinNotUtf8);
}

#[test]
fn oversized_file_rejected_before_any_call() {
    let cfg = settings(4, false);
    let mut transport = TransportStub::new();
    let payload = PendingPayload::File {
        filename: "big.bin".to_string(),
        bytes: vec![0u8; 5],
        caption: None,
    };
    match plan_send(&cfg, payload) {
        Ok(plan) => {
            transport.send(&plan);
            panic!("an oversized payload must not produce a plan");
        },
        Err(SendError::FileTooLarge { actual, limit }) => {
            assert_eq!(actual, 5);
            assert_eq!(limit, 4);
        },
        Err(e) => panic!("unexpected error: {e:?}"),
    }
    assert_eq!(transport.calls, 0, "no transport call may precede the size check");
}

#[test]
fn file_at_limit_is_accepted() {
    let cfg = settings(5, false);
    let payload = PendingPayload::File {
        filename: "ok.bin".to_string(),
        bytes: vec![0u8; 5],
        caption: None,
    };
    match plan_send(&cfg, payload).unwrap() {
        SendPlan::Upload { channel, filename, bytes, caption } => {
            assert_eq!(channel, "#general");
            assert_eq!(filename, "ok.bin");
            assert_eq!(bytes.len(), 5);
            assert!(caption.is_none());
        },
        _ => panic!("expected an upload plan"),
    }
}

#[test]
fn empty_message_is_rejected() {
    let cfg = settings(100, false);
    let r = plan_send(&cfg, PendingPayload::Text { text: "".to_string() });
    assert_eq!(r.unwrap_err(), SendError::EmptyMessage);
}

#[test]
fn text_plan_carries_channel() {
    let cfg = settings(100, false);
    match plan_send(&cfg, PendingPayload::Text { text: "hi".to_string() }).unwrap() {
        SendPlan::PostText { channel, text } => {
            assert_eq!(channel, "#general");
            assert_eq!(text, "hi");
        },
        _ => panic!("expected a text plan"),
    }
}

#[test]
fn declined_confirmation_sends_nothing() {
    let cfg = settings(100, true);
    let mut transport = TransportStub::new();
    let payload = PendingPayload::Text { text: "hi".to_string() };
    match confirmation_gate(cfg.confirm, false, true, &payload).unwrap() {
        GateDecision::NeedPrompt { preview } => {
            assert_eq!(preview, "> hi");
            // The simulated user declines.
            if response_affirms("n\n") {
                let plan = plan_send(&cfg, payload).unwrap();
                transport.send(&plan);
            }
        },
        GateDecision::Proceed => panic!("confirmation was required"),
    }
    assert_eq!(transport.calls, 0, "a declined confirmation must not transmit");
}

#[test]
fn affirmed_confirmation_sends_once() {
    let cfg = settings(100, true);
    let mut transport = TransportStub::new();
    let payload = PendingPayload::Text { text: "hi".to_string() };
    match confirmation_gate(cfg.confirm, false, true, &payload).unwrap() {
        GateDecision::NeedPrompt { .. } => {
            if response_affirms("y\n") {
                let plan = plan_send(&cfg, payload).unwrap();
                transport.send(&plan);
            }
        },
        GateDecision::Proceed => panic!("confirmation was required"),
    }
    assert_eq!(transport.calls, 1, "an affirmed confirmation transmits exactly once");
}

#[test]
fn gate_skipped_or_disabled_proceeds() {
    let payload = PendingPayload::Text { text: "hi".to_string() };
    assert!(matches!(
        confirmation_gate(false, false, false, &payload).unwrap(),
        GateDecision::Proceed
    ));
    assert!(matches!(
        confirmation_gate(true, true, false, &payload).unwrap(),
        GateDecision::Proceed
    ));
}

#[test]
fn gate_needs_terminal() {
    let payload = PendingPayload::Text { text: "hi".to_string() };
    let err = confirmation_gate(true, false, false, &payload).unwrap_err();
    assert_eq!(err, SendError::ConfirmationUnavailable);
}

#[test]
fn gate_preview_for_files() {
    let payload = PendingPayload::File {
        filename: "report.pdf".to_string(),
        bytes: vec![1],
        caption: Some("quarterly".to_string()),
    };
    match confirmation_gate(true, false, true, &payload).unwrap() {
        GateDecision::NeedPrompt { preview } => {
            assert_eq!(preview, "file: report.pdf\n> quarterly");
        },
        _ => panic!("expected a prompt"),
    }
    let payload = PendingPayload::File {
        filename: "report.pdf".to_string(),
        bytes: vec![1],
        caption: None,
    };
    match confirmation_gate(true, false, true, &payload).unwrap() {
        GateDecision::NeedPrompt { preview } => {
            assert_eq!(preview, "file: report.pdf");
        },
        _ => panic!("expected a prompt"),
    }
}

#[test]
fn response_affirmation_values() {
    assert!(response_affirms("y"));
    assert!(response_affirms("Y\n"));
    assert!(response_affirms("  y  "));
    assert!(!response_affirms("n"));
    assert!(!response_affirms("yes"));
    assert!(!response_affirms(""));
}

#[test]
fn size_limit_message_shows_both_sizes() {
    let e = SendError::FileTooLarge { actual: 2048, limit: 1024 };
    assert_eq!(e.message(), "file size (2.0KB) exceeds limit (1.0KB)");
    assert_eq!(SendError::Aborted.message(), "aborted");
}

#[test]
fn payload_error_messages() {
    assert_eq!(
        PayloadError::NoInputProvided.message(),
        "no input provided (use -t, -f, or pipe via stdin)"
    );
    assert_eq!(
        PayloadError::FileRead { path: "a.bin".to_string() }.message(),
        "failed to read file: a.bin"
    );
    assert_eq!(PayloadError::InvalidFilePath.message(), "invalid file path");
}

#[test]
fn basename_cases() {
    assert_eq!(basename("dir/report.pdf").unwrap(), "report.pdf");
    assert_eq!(basename("report.pdf").unwrap(), "report.pdf");
    assert_eq!(basename("/a/b/c.txt").unwrap(), "c.txt");
    assert_eq!(basename("a/b/").unwrap(), "b");
    assert_eq!(basename("a/.").unwrap(), "a");
    assert!(basename("").is_err());
    assert!(basename("/").is_err());
    assert!(basename(".").is_err());
    assert!(basename("./").is_err());
    assert!(basename("a/..").is_err());
}
