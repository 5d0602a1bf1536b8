use slafling::slack::{
    acquire_slot_response, finalize_response, interpret_finalize_response, interpret_slot_response,
    interpret_transfer_result, post_message_response, search_begin, search_feed_page,
    search_finish, ApiStatus, ChannelInfo, ListPage, PostError, SearchAction, SlotResponse,
    UploadError,
};

fn channel(name: &str, id: &str) -> ChannelInfo {
    ChannelInfo {
        name: name.to_string(),
        channel_type: "public".to_string(),
        channel_id: id.to_string(),
        user_id: None,
    }
}

fn good_slot() -> SlotResponse {
    SlotResponse {
        ok: true,
        error: None,
        upload_url: Some("https://upload.example/slot".to_string()),
        file_id: Some("F123".to_string()),
    }
}

/// A transport stub that records which steps were invoked and fails the
/// selected one.
struct StepStub {
    fail_at: usize,
    invoked: Vec<usize>,
}

impl StepStub {
    fn new(fail_at: usize) -> StepStub {
        StepStub { fail_at, invoked: Vec::new() }
    }

    fn transfer(&mut self) -> bool {
        self.invoked.push(2);
        self.fail_at != 2
    }

    fn finalize(&mut self) -> ApiStatus {
        self.invoked.push(3);
        if self.fail_at == 3 {
            ApiStatus { ok: false, error: Some("not_in_channel".to_string()) }
        } else {
            ApiStatus { ok: true, error: None }
        }
    }
}

#[test]
fn slot_response_success_builds_session() {
    let s = interpret_slot_response("a.bin".to_string(), 42, good_slot()).unwrap();
    assert_eq!(s.upload_url, "https://upload.example/slot");
    assert_eq!(s.file_id, "F123");
    assert_eq!(s.filename, "a.bin");
    assert_eq!(s.byte_length, 42);
}

#[test]
fn slot_response_failures() {
    let mut resp = good_slot();
    resp.ok = false;
    resp.error = Some("invalid_auth".to_string());
    match interpret_slot_response("a".to_string(), 1, resp).unwrap_err() {
        UploadError::SlotAcquisition { detail } => assert_eq!(detail, "invalid_auth"),
        _ => panic!("expected a slot acquisition error"),
    }

    let mut resp = good_slot();
    resp.upload_url = None;
    match interpret_slot_response("a".to_string(), 1, resp).unwrap_err() {
        UploadError::SlotAcquisition { detail } => {
            assert_eq!(detail, "missing upload_url in response")
        },
        _ => panic!("expected a slot acquisition error"),
    }

    let mut resp = good_slot();
    resp.file_id = None;
    match interpret_slot_response("a".to_string(), 1, resp).unwrap_err() {
        UploadError::SlotAcquisition { detail } => {
            assert_eq!(detail, "missing file_id in response")
        },
        _ => panic!("expected a slot acquisition error"),
    }
}

#[test]
fn step_two_failure_is_localized() {
    let mut stub = StepStub::new(2);
    let session = interpret_slot_response("a.bin".to_string(), 42, good_slot()).unwrap();
    let transferred = stub.transfer();
    match interpret_transfer_result(session, transferred) {
        Err(UploadError::Transfer { session }) => {
            // Step one's slot is still reported as acquired.
            assert_eq!(session.upload_url, "https://upload.example/slot");
            assert_eq!(session.file_id, "F123");
        },
        _ => panic!("step two must fail as a transfer error"),
    }
    assert_eq!(stub.invoked, vec![2]);
}

#[test]
fn step_three_failure_is_localized() {
    let mut stub = StepStub::new(3);
    let session = interpret_slot_response("a.bin".to_string(), 42, good_slot()).unwrap();
    let session = interpret_transfer_result(session, stub.transfer()).unwrap();
    let status = stub.finalize();
    match interpret_finalize_response(session, status) {
        Err(UploadError::Finalization { session, code }) => {
            assert_eq!(code, "not_in_channel");
            // Step one's slot is still reported as acquired.
            assert_eq!(session.file_id, "F123");
        },
        _ => panic!("step three must fail as a finalization error"),
    }
    assert_eq!(stub.invoked, vec![2, 3]);
}

#[test]
fn whole_upload_succeeds_in_order() {
    let mut stub = StepStub::new(0);
    let session = interpret_slot_response("a.bin".to_string(), 42, good_slot()).unwrap();
    let session = interpret_transfer_result(session, stub.transfer()).unwrap();
    assert!(interpret_finalize_response(session, stub.finalize()).is_ok());
    assert_eq!(stub.invoked, vec![2, 3]);
}

#[test]
fn post_response_ok() {
    assert!(post_message_response("{\"ok\":true}").is_ok());
}

#[test]
fn post_response_error_code() {
    match post_message_response("{\"ok\":false,\"error\":\"channel_not_found\"}").unwrap_err() {
        PostError::RemoteApi { code } => assert_eq!(code, "channel_not_found"),
        _ => panic!("expected a remote error"),
    }
    match post_message_response("{\"ok\":false}").unwrap_err() {
        PostError::RemoteApi { code } => assert_eq!(code, "unknown error"),
        _ => panic!("expected a remote error"),
    }
}

#[test]
fn post_response_unreadable() {
    assert!(matches!(
        post_message_response("not json").unwrap_err(),
        PostError::BadResponse
    ));
}

#[test]
fn slot_response_from_body() {
    let body = "{\"ok\":true,\"upload_url\":\"https://u.example/x\",\"file_id\":\"F9\"}";
    let s = acquire_slot_response("b.bin".to_string(), 7, body).unwrap();
    assert_eq!(s.upload_url, "https://u.example/x");
    assert_eq!(s.file_id, "F9");
    assert!(matches!(
        acquire_slot_response("b".to_string(), 1, "{").unwrap_err(),
        UploadError::BadResponse { .. }
    ));
}

#[test]
fn finalize_response_from_body() {
    let session = interpret_slot_response("a".to_string(), 1, good_slot()).unwrap();
    assert!(finalize_response(session, "{\"ok\":true}").is_ok());
    let session = interpret_slot_response("a".to_string(), 1, good_slot()).unwrap();
    match finalize_response(session, "{\"ok\":false,\"error\":\"bad\"}").unwrap_err() {
        UploadError::Finalization { code, .. } => assert_eq!(code, "bad"),
        _ => panic!("expected a finalization error"),
    }
}

#[test]
fn search_filters_case_insensitively() {
    let mut state = search_begin("DEV".to_string());
    let page = ListPage {
        ok: true,
        error: None,
        channels: vec![
            channel("dev-team", "C1"),
            channel("general", "C2"),
            channel("Devops", "C3"),
        ],
        next_cursor: None,
    };
    let action = search_feed_page(&mut state, page).unwrap();
    assert!(matches!(action, SearchAction::Done));
    let out = search_finish(state);
    let names: Vec<&str> = out.iter().map(|c| c.name.as_str()).collect();
    assert_eq!(names, vec!["Devops", "dev-team"]);
}

#[test]
fn search_folds_unicode_case() {
    let mut state = search_begin("\u{c9}".to_string());
    let page = ListPage {
        ok: true,
        error: None,
        channels: vec![channel("caf\u{e9}", "C1"), channel("plain", "C2")],
        next_cursor: None,
    };
    search_feed_page(&mut state, page).unwrap();
    let out = search_finish(state);
    assert_eq!(out.len(), 1);
    assert_eq!(out[0].name, "caf\u{e9}");
}

#[test]
fn search_refused_page_carries_code() {
    let mut state = search_begin("x".to_string());
    let page = ListPage {
        ok: false,
        error: Some("invalid_auth".to_string()),
        channels: Vec::new(),
        next_cursor: None,
    };
    match search_feed_page(&mut state, page).unwrap_err() {
        slafling::slack::SearchError::RemoteApi { code } => assert_eq!(code, "invalid_auth"),
        _ => panic!("expected a remote error"),
    }
}

#[test]
fn search_cursor_continues() {
    let mut state = search_begin("a".to_string());
    let page = ListPage {
        ok: true,
        error: None,
        channels: vec![channel("alpha", "C1")],
        next_cursor: Some("cur123".to_string()),
    };
    match search_feed_page(&mut state, page).unwrap() {
        SearchAction::Continue { cursor } => assert_eq!(cursor, "cur123"),
        SearchAction::Done => panic!("a non-empty cursor continues"),
    }
    let page = ListPage {
        ok: true,
        error: None,
        channels: vec![channel("beta-a", "C2")],
        next_cursor: Some("".to_string()),
    };
    assert!(matches!(
        search_feed_page(&mut state, page).unwrap(),
        SearchAction::Done
    ));
}

#[test]
fn two_pages_equal_one_batch() {
    let page1 = vec![channel("zeta-dev", "C1"), channel("ops", "C2")];
    let page2 = vec![channel("alpha-dev", "C3"), channel("dev", "C4")];

    // Incremental: two pages fed one at a time.
    let mut state = search_begin("dev".to_string());
    let p = ListPage {
        ok: true,
        error: None,
        channels: page1.clone(),
        next_cursor: Some("next".to_string()),
    };
    search_feed_page(&mut state, p).unwrap();
    let p = ListPage { ok: true, error: None, channels: page2.clone(), next_cursor: None };
    search_feed_page(&mut state, p).unwrap();
    let incremental = search_finish(state);

    // Batch: the concatenation fed as one page.
    let mut both = page1;
    both.extend(page2);
    let mut state = search_begin("dev".to_string());
    let p = ListPage { ok: true, error: None, channels: both, next_cursor: None };
    search_feed_page(&mut state, p).unwrap();
    let batch = search_finish(state);

    let names = |v: &Vec<ChannelInfo>| -> Vec<String> {
        v.iter().map(|c| c.name.clone()).collect()
    };
    assert_eq!(names(&incremental), names(&batch));
    assert_eq!(names(&incremental), vec!["alpha-dev", "dev", "zeta-dev"]);
}

#[test]
fn empty_result_is_distinguishable() {
    let mut state = search_begin("nothing".to_string());
    let page = ListPage {
        ok: true,
        error: None,
        channels: vec![channel("general", "C1")],
        next_cursor: None,
    };
    search_feed_page(&mut state, page).unwrap();
    let out = search_finish(state);
    assert!(out.is_empty());
}

#[test]
fn sort_is_stable_for_equal_names() {
    let mut state = search_begin("dup".to_string());
    let page = ListPage {
        ok: true,
        error: None,
        channels: vec![channel("dup", "first"), channel("dup", "second")],
        next_cursor: None,
    };
    search_feed_page(&mut state, page).unwrap();
    let out = search_finish(state);
    let ids: Vec<&str> = out.iter().map(|c| c.channel_id.as_str()).collect();
    assert_eq!(ids, vec!["first", "second"]);
}
