//! The remote messaging operations: interpreting the post-message call,
//! the three-step upload protocol, and the paginated channel search.

use vstd::prelude::*;

use crate::config;
use crate::text;

verus! {

/// One channel of the destination listing.
#[derive(Clone, Debug)]
pub struct ChannelInfo {
    pub name: String,
    pub channel_type: String,
    pub channel_id: String,
    pub user_id: Option<String>,
}

/// A parsed `ok`/`error` response envelope.
#[derive(Debug)]
pub struct ApiStatus {
    pub ok: bool,
    pub error: Option<String>,
}

/// A parsed slot-acquisition response.
#[derive(Debug)]
pub struct SlotResponse {
    pub ok: bool,
    pub error: Option<String>,
    pub upload_url: Option<String>,
    pub file_id: Option<String>,
}

/// One upload slot: issued at step one, consumed by steps two and three.
#[derive(Debug)]
pub struct UploadSession {
    pub upload_url: String,
    pub file_id: String,
    pub filename: String,
    pub byte_length: u64,
}

/// The step of the upload protocol an error belongs to.
#[derive(Clone, Copy, PartialEq, Eq, Structural, Debug)]
pub enum UploadStep {
    AcquireSlot,
    Transfer,
    Finalize,
}

/// Failures of the upload protocol, each localized to its step.  Errors of
/// the later steps still carry the slot that step one acquired.
#[derive(Debug)]
pub enum UploadError {
    /// Step one refused or answered without the slot fields.
    SlotAcquisition { detail: String },
    /// Step two's transfer failed; the acquired slot is reported back.
    Transfer { session: UploadSession },
    /// Step three refused; the acquired slot is reported back.
    Finalization { session: UploadSession, code: String },
    /// The network call itself failed at the given step.
    Transport { step: UploadStep },
    /// The response at the given step was not readable.
    BadResponse { step: UploadStep },
}

/// Failures of the post-message call.
#[derive(Debug)]
pub enum PostError {
    /// The service answered `ok = false` with this code.
    RemoteApi { code: String },
    /// The response was not readable.
    BadResponse,
    /// The network call itself failed.
    Transport,
}

/// Failures of the channel listing.
#[derive(Debug)]
pub enum SearchError {
    /// The service answered `ok = false` with this code.
    RemoteApi { code: String },
    /// The response was not readable.
    BadResponse,
    /// The network call itself failed.
    Transport,
}

impl UploadStep {
    /// The remote endpoint the step talks to.
    pub open spec fn endpoint_view(self) -> Seq<char> {
        match self {
            UploadStep::AcquireSlot => "files.getUploadURLExternal"@,
            UploadStep::Transfer => "file upload"@,
            UploadStep::Finalize => "files.completeUploadExternal"@,
        }
    }

    /// The remote endpoint the step talks to.
    pub fn endpoint(&self) -> (r: &'static str)
        ensures
            r@ == self.endpoint_view(),
    {
        match self {
            UploadStep::AcquireSlot => "files.getUploadURLExternal",
            UploadStep::Transfer => "file upload",
            UploadStep::Finalize => "files.completeUploadExternal",
        }
    }
}

impl UploadError {
    /// The exact text of each failure's description.
    pub open spec fn message_view(self) -> Seq<char> {
        match self {
            UploadError::SlotAcquisition { detail } => "Slack API error (getUploadURLExternal): "@
                + detail@,
            UploadError::Transfer { session } => "failed to upload file content"@,
            UploadError::Finalization { session, code } => "Slack API error (completeUploadExternal): "@
                + code@,
            UploadError::Transport { step } => "failed to call "@ + step.endpoint_view(),
            UploadError::BadResponse { step } => "failed to parse "@ + step.endpoint_view()
                + " response"@,
        }
    }

    /// A human-readable description of the failure.
    pub fn message(&self) -> (r: String)
        ensures
            r@ == self.message_view(),
    {
        match self {
            UploadError::SlotAcquisition { detail } => {
                let mut m = String::from_str("Slack API error (getUploadURLExternal): ");
                m.append(detail.as_str());
                m
            },
            UploadError::Transfer { session } => String::from_str("failed to upload file content"),
            UploadError::Finalization { session, code } => {
                let mut m = String::from_str("Slack API error (completeUploadExternal): ");
                m.append(code.as_str());
                m
            },
            UploadError::Transport { step } => {
                let mut m = String::from_str("failed to call ");
                m.append(step.endpoint());
                m
            },
            UploadError::BadResponse { step } => {
                let mut m = String::from_str("failed to parse ");
                m.append(step.endpoint());
                m.append(" response");
                m
            },
        }
    }
}

impl PostError {
    /// The exact text of each failure's description.
    pub open spec fn message_view(self) -> Seq<char> {
        match self {
            PostError::RemoteApi { code } => "Slack API error: "@ + code@,
            PostError::BadResponse => "failed to parse Slack API response"@,
            PostError::Transport => "failed to call Slack API"@,
        }
    }

    /// A human-readable description of the failure.
    pub fn message(&self) -> (r: String)
        ensures
            r@ == self.message_view(),
    {
        match self {
            PostError::RemoteApi { code } => {
                let mut m = String::from_str("Slack API error: ");
                m.append(code.as_str());
                m
            },
            PostError::BadResponse => String::from_str("failed to parse Slack API response"),
            PostError::Transport => String::from_str("failed to call Slack API"),
        }
    }
}

impl SearchError {
    /// The exact text of each failure's description.
    pub open spec fn message_view(self) -> Seq<char> {
        match self {
            SearchError::RemoteApi { code } => "Slack API error (conversations.list): "@ + code@,
            SearchError::BadResponse => "failed to parse conversations.list response"@,
            SearchError::Transport => "failed to call conversations.list"@,
        }
    }

    /// A human-readable description of the failure.
    pub fn message(&self) -> (r: String)
        ensures
            r@ == self.message_view(),
    {
        match self {
            SearchError::RemoteApi { code } => {
                let mut m = String::from_str("Slack API error (conversations.list): ");
                m.append(code.as_str());
                m
            },
            SearchError::BadResponse => String::from_str(
                "failed to parse conversations.list response",
            ),
            SearchError::Transport => String::from_str("failed to call conversations.list"),
        }
    }
}

/// What parsing an `ok`/`error` JSON envelope yields; a function of the
/// body text alone.
pub uninterp spec fn parsed_status(body: Seq<char>) -> Option<(bool, Option<Seq<char>>)>;

/// Relies on serde_json::from_str::<Value> and Value's accessors: parsing
/// is deterministic in the body text.  Yields the `ok` boolean (false when
/// absent) and the `error` string; `None` when the body is not JSON.
#[verifier::external_body]
fn parse_status(body: &str) -> (r: Option<ApiStatus>)
    ensures
        match r {
            Some(st) => parsed_status(body@) == Some(
                (
                    st.ok,
                    match st.error {
                        Some(e) => Some(e@),
                        None => None::<Seq<char>>,
                    },
                ),
            ),
            None => parsed_status(body@) is None,
        },
{
    let v: serde_json::Value = serde_json::from_str(body).ok()?;
    let ok = v.get("ok").and_then(|b| b.as_bool()).unwrap_or(false);
    let error = v.get("error").and_then(|e| e.as_str()).map(String::from);
    Some(ApiStatus { ok, error })
}

/// What parsing a slot-acquisition JSON body yields; a function of the
/// body text alone: (`ok`, `error`, `upload_url`, `file_id`).
pub uninterp spec fn parsed_slot(body: Seq<char>) -> Option<
    (bool, Option<Seq<char>>, Option<Seq<char>>, Option<Seq<char>>),
>;

/// Relies on serde_json::from_str::<Value> and Value's accessors: parsing
/// is deterministic in the body text.  Yields the `ok` boolean and the
/// `error`, `upload_url` and `file_id` strings; `None` when the body is
/// not JSON.
#[verifier::external_body]
fn parse_slot(body: &str) -> (r: Option<SlotResponse>)
    ensures
        match r {
            Some(st) => parsed_slot(body@) == Some(
                (
                    st.ok,
                    match st.error {
                        Some(e) => Some(e@),
                        None => None::<Seq<char>>,
                    },
                    match st.upload_url {
                        Some(u) => Some(u@),
                        None => None::<Seq<char>>,
                    },
                    match st.file_id {
                        Some(f) => Some(f@),
                        None => None::<Seq<char>>,
                    },
                ),
            ),
            None => parsed_slot(body@) is None,
        },
{
    let v: serde_json::Value = serde_json::from_str(body).ok()?;
    let ok = v.get("ok").and_then(|b| b.as_bool()).unwrap_or(false);
    let error = v.get("error").and_then(|e| e.as_str()).map(String::from);
    let upload_url = v.get("upload_url").and_then(|e| e.as_str()).map(String::from);
    let file_id = v.get("file_id").and_then(|e| e.as_str()).map(String::from);
    Some(SlotResponse { ok, error, upload_url, file_id })
}

/// The error code of a status, with the service's placeholder when none
/// was supplied.
pub open spec fn code_view(error: Option<String>) -> Seq<char> {
    match error {
        Some(e) => e@,
        None => "unknown error"@,
    }
}

/// The error code as a value.
fn code_of(error: Option<String>) -> (r: String)
    ensures
        r@ == code_view(error),
{
    match error {
        Some(e) => e,
        None => String::from_str("unknown error"),
    }
}

/// Interpret a post-message status: `ok = false` carries the service code.
pub fn interpret_post_response(st: ApiStatus) -> (r: Result<(), PostError>)
    ensures
        st.ok <==> r is Ok,
        !st.ok ==> (r matches Err(PostError::RemoteApi { code }) && code@ == code_view(st.error)),
{
    if st.ok {
        Ok(())
    } else {
        Err(PostError::RemoteApi { code: code_of(st.error) })
    }
}

/// Interpret the raw body of a post-message response.
pub fn post_message_response(body: &str) -> (r: Result<(), PostError>)
    ensures
        match parsed_status(body@) {
            Some((ok, err)) => {
                &&& ok <==> r is Ok
                &&& !ok ==> (r matches Err(PostError::RemoteApi { code }) && Some(code@)
                    == override_code(err))
            },
            None => r matches Err(e) && e is BadResponse,
        },
{
    match parse_status(body) {
        Some(st) => interpret_post_response(st),
        None => Err(PostError::BadResponse),
    }
}

/// The code a parsed error field carries, with the placeholder for absence.
pub open spec fn override_code(err: Option<Seq<char>>) -> Option<Seq<char>> {
    match err {
        Some(e) => Some(e),
        None => Some("unknown error"@),
    }
}

/// Step one: interpret the slot-acquisition response.  `ok = false` or a
/// missing slot field refuses the slot; otherwise the session records the
/// slot together with the filename and length it was requested for.
pub fn interpret_slot_response(filename: String, byte_length: u64, resp: SlotResponse) -> (r:
    Result<UploadSession, UploadError>)
    ensures
        match r {
            Ok(s) => {
                &&& resp.ok && resp.upload_url is Some && resp.file_id is Some
                &&& s.upload_url@ == resp.upload_url->0@
                &&& s.file_id@ == resp.file_id->0@
                &&& s.filename@ == filename@
                &&& s.byte_length == byte_length
            },
            Err(e) => {
                ||| {
                    &&& !resp.ok
                    &&& e matches UploadError::SlotAcquisition { detail } && detail@ == code_view(
                        resp.error,
                    )
                }
                ||| {
                    &&& resp.ok && resp.upload_url is None
                    &&& e matches UploadError::SlotAcquisition { detail } && detail@
                        == "missing upload_url in response"@
                }
                ||| {
                    &&& resp.ok && resp.upload_url is Some && resp.file_id is None
                    &&& e matches UploadError::SlotAcquisition { detail } && detail@
                        == "missing file_id in response"@
                }
            },
        },
{
    if !resp.ok {
        return Err(UploadError::SlotAcquisition { detail: code_of(resp.error) });
    }
    let upload_url = match resp.upload_url {
        Some(u) => u,
        None => {
            return Err(
                UploadError::SlotAcquisition {
                    detail: String::from_str("missing upload_url in response"),
                },
            );
        },
    };
    let file_id = match resp.file_id {
        Some(f) => f,
        None => {
            return Err(
                UploadError::SlotAcquisition {
                    detail: String::from_str("missing file_id in response"),
                },
            );
        },
    };
    Ok(UploadSession { upload_url, file_id, filename, byte_length })
}

/// Step one from the raw response body.
pub fn acquire_slot_response(filename: String, byte_length: u64, body: &str) -> (r: Result<
    UploadSession,
    UploadError,
>)
    ensures
        parsed_slot(body@) is None ==> (r matches Err(UploadError::BadResponse { step }) && step
            is AcquireSlot),
        parsed_slot(body@) matches Some((ok, err, url, fid)) ==> match r {
            Ok(s) => {
                &&& ok && url is Some && fid is Some
                &&& s.upload_url@ == url->0
                &&& s.file_id@ == fid->0
                &&& s.filename@ == filename@
                &&& s.byte_length == byte_length
            },
            Err(e) => {
                ||| {
                    &&& !ok
                    &&& e matches UploadError::SlotAcquisition { detail } && Some(detail@)
                        == override_code(err)
                }
                ||| {
                    &&& ok && url is None
                    &&& e matches UploadError::SlotAcquisition { detail } && detail@
                        == "missing upload_url in response"@
                }
                ||| {
                    &&& ok && url is Some && fid is None
                    &&& e matches UploadError::SlotAcquisition { detail } && detail@
                        == "missing file_id in response"@
                }
            },
        },
{
    match parse_slot(body) {
        Some(resp) => interpret_slot_response(filename, byte_length, resp),
        None => Err(UploadError::BadResponse { step: UploadStep::AcquireSlot }),
    }
}

/// Step two: interpret the transfer outcome.  A failed transfer reports
/// the slot that step one acquired.
pub fn interpret_transfer_result(session: UploadSession, transferred: bool) -> (r: Result<
    UploadSession,
    UploadError,
>)
    ensures
        transferred ==> r == Ok::<UploadSession, UploadError>(session),
        !transferred ==> (r matches Err(UploadError::Transfer { session: s }) && s == session),
{
    if transferred {
        Ok(session)
    } else {
        Err(UploadError::Transfer { session })
    }
}

/// Step three: interpret the finalize response.  A refusal reports the
/// service code and the slot that step one acquired.
pub fn interpret_finalize_response(session: UploadSession, st: ApiStatus) -> (r: Result<
    (),
    UploadError,
>)
    ensures
        st.ok <==> r is Ok,
        !st.ok ==> (r matches Err(UploadError::Finalization { session: s, code }) && s == session
            && code@ == code_view(st.error)),
{
    if st.ok {
        Ok(())
    } else {
        Err(UploadError::Finalization { session, code: code_of(st.error) })
    }
}

/// Step three from the raw response body.
pub fn finalize_response(session: UploadSession, body: &str) -> (r: Result<(), UploadError>)
    ensures
        parsed_status(body@) is None ==> (r matches Err(UploadError::BadResponse { step }) && step
            is Finalize),
        parsed_status(body@) matches Some((ok, err)) ==> {
            &&& ok <==> r is Ok
            &&& !ok ==> (r matches Err(UploadError::Finalization { session: s, code }) && s
                == session && Some(code@) == override_code(err))
        },
{
    match parse_status(body) {
        Some(st) => interpret_finalize_response(session, st),
        None => Err(UploadError::BadResponse { step: UploadStep::Finalize }),
    }
}

/// Does a channel name match the query?  Containment of the lower-cased
/// query in the lower-cased name.
pub open spec fn name_matches(query: Seq<char>) -> spec_fn(ChannelInfo) -> bool {
    |c: ChannelInfo| text::contains_seq(text::lower_of(c.name@), text::lower_of(query))
}

/// The channels of a listing that match the query, in listing order.
pub open spec fn filter_channels(chs: Seq<ChannelInfo>, query: Seq<char>) -> Seq<ChannelInfo> {
    chs.filter(name_matches(query))
}

/// One parsed page of the channel listing.
#[derive(Debug)]
pub struct ListPage {
    pub ok: bool,
    pub error: Option<String>,
    pub channels: Vec<ChannelInfo>,
    pub next_cursor: Option<String>,
}

/// What the pager does after a page: fetch the next one, or stop.
#[derive(Debug)]
pub enum SearchAction {
    Continue { cursor: String },
    Done,
}

/// The search in progress: the query and the matches accumulated so far.
#[derive(Debug)]
pub struct SearchState {
    pub query: String,
    pub results: Vec<ChannelInfo>,
}

/// Start a search.
pub fn search_begin(query: String) -> (r: SearchState)
    ensures
        r.query@ == query@,
        r.results@ == Seq::<ChannelInfo>::empty(),
{
    SearchState { query, results: Vec::new() }
}

/// Feed one page of the listing to the pager.  A refused page aborts with
/// the service code and leaves the accumulated matches unchanged; an
/// accepted page appends its matching channels, and a non-empty cursor
/// asks for the next page.
pub fn search_feed_page(state: &mut SearchState, page: ListPage) -> (r: Result<
    SearchAction,
    SearchError,
>)
    ensures
        final(state).query@ == old(state).query@,
        match r {
            Ok(a) => {
                &&& page.ok
                &&& final(state).results@ == old(state).results@ + filter_channels(
                    page.channels@,
                    old(state).query@,
                )
                &&& match a {
                    SearchAction::Continue { cursor } => config::nonempty_view(page.next_cursor)
                        == Some(cursor@),
                    SearchAction::Done => config::nonempty_view(page.next_cursor) is None,
                }
            },
            Err(e) => {
                &&& !page.ok
                &&& final(state).results@ == old(state).results@
                &&& e matches SearchError::RemoteApi { code } && code@ == code_view(page.error)
            },
        },
{
    if !page.ok {
        return Err(SearchError::RemoteApi { code: code_of(page.error) });
    }
    let ghost query_view = state.query@;
    let ghost pre = state.results@;
    let ghost pred = name_matches(query_view);
    let query_lower = text::lowercase(state.query.as_str());
    let mut chs = page.channels;
    let ghost all = chs@;
    let ghost mut i: int = 0;
    proof {
        assert(all.take(0) =~= Seq::<ChannelInfo>::empty());
        assert(Seq::<ChannelInfo>::empty().filter(pred) =~= Seq::<ChannelInfo>::empty()) by {
            reveal(Seq::filter);
        }
        assert(pre + all.take(0).filter(pred) =~= pre);
        assert(chs@ =~= all.skip(0));
    }
    while chs.len() > 0
        invariant
            0 <= i <= all.len(),
            chs@ == all.skip(i),
            state.query@ == query_view,
            query_lower@ == text::lower_of(query_view),
            pred == name_matches(query_view),
            state.results@ == pre + all.take(i).filter(pred),
        decreases chs@.len(),
    {
        let c = chs.remove(0);
        proof {
            assert(c == all[i]);
            assert(chs@ =~= all.skip(i + 1));
            all.take(i).lemma_filter_push(all[i], pred);
            assert(all.take(i + 1) =~= all.take(i).push(all[i]));
        }
        let name_lower = text::lowercase(c.name.as_str());
        let is_match = text::contains_str(name_lower.as_str(), query_lower.as_str());
        if is_match {
            state.results.push(c);
            proof {
                assert(state.results@ =~= pre + all.take(i + 1).filter(pred));
            }
        }
        proof {
            i = i + 1;
        }
    }
    proof {
        assert(all.take(all.len() as int) =~= all);
        assert(i == all.len());
    }
    match page.next_cursor {
        Some(cursor) => {
            if cursor.as_str().unicode_len() > 0 {
                Ok(SearchAction::Continue { cursor })
            } else {
                Ok(SearchAction::Done)
            }
        },
        None => Ok(SearchAction::Done),
    }
}

/// Insert a channel into a name-sorted sequence, after every entry whose
/// name is at most as large: equal names keep their relative order, which
/// makes the sort stable.
pub open spec fn sorted_insert(s: Seq<ChannelInfo>, x: ChannelInfo) -> Seq<ChannelInfo>
    decreases s.len(),
{
    if s.len() == 0 {
        seq![x]
    } else if text::lex_le(s.last().name@, x.name@) {
        s.push(x)
    } else {
        sorted_insert(s.drop_last(), x).push(s.last())
    }
}

/// Stable insertion sort of channels by name.
pub open spec fn sort_by_name(s: Seq<ChannelInfo>) -> Seq<ChannelInfo>
    decreases s.len(),
{
    if s.len() == 0 {
        s
    } else {
        sorted_insert(sort_by_name(s.drop_last()), s.last())
    }
}

/// Where the scan from the right stops, that is where the insertion lands.
proof fn lemma_sorted_insert_at(s: Seq<ChannelInfo>, x: ChannelInfo, pos: int)
    requires
        0 <= pos <= s.len(),
        forall|k: int| pos <= k < s.len() ==> !text::lex_le((#[trigger] s[k]).name@, x.name@),
        pos > 0 ==> text::lex_le(s[pos - 1].name@, x.name@),
    ensures
        sorted_insert(s, x) == s.subrange(0, pos) + seq![x] + s.subrange(pos, s.len() as int),
    decreases s.len(),
{
    if s.len() == 0 {
        assert(sorted_insert(s, x) =~= s.subrange(0, 0) + seq![x] + s.subrange(0, 0));
    } else if pos == s.len() {
        assert(sorted_insert(s, x) == s.push(x));
        assert(s.push(x) =~= s.subrange(0, pos) + seq![x] + s.subrange(pos, s.len() as int));
    } else {
        assert(!text::lex_le(s.last().name@, x.name@));
        let t = s.drop_last();
        assert(forall|k: int| pos <= k < t.len() ==> !text::lex_le((#[trigger] t[k]).name@, x.name@))
            by {
            assert(forall|k: int| 0 <= k < t.len() ==> t[k] == #[trigger] s[k]);
        }
        lemma_sorted_insert_at(t, x, pos);
        assert(sorted_insert(s, x) == sorted_insert(t, x).push(s.last()));
        assert((t.subrange(0, pos) + seq![x] + t.subrange(pos, t.len() as int)).push(s.last()) =~= s.subrange(
            0,
            pos,
        ) + seq![x] + s.subrange(pos, s.len() as int));
    }
}

/// Finish a search: the accumulated matches, stably sorted by name.
pub fn search_finish(state: SearchState) -> (r: Vec<ChannelInfo>)
    ensures
        r@ == sort_by_name(state.results@),
{
    let mut v = state.results;
    let ghost all = v@;
    let mut out: Vec<ChannelInfo> = Vec::new();
    let ghost mut i: int = 0;
    proof {
        assert(all.take(0) =~= Seq::<ChannelInfo>::empty());
        assert(out@ =~= sort_by_name(all.take(0)));
        assert(v@ =~= all.skip(0));
    }
    while v.len() > 0
        invariant
            0 <= i <= all.len(),
            v@ == all.skip(i),
            out@ == sort_by_name(all.take(i)),
        decreases v@.len(),
    {
        let x = v.remove(0);
        proof {
            assert(x == all[i]);
            assert(v@ =~= all.skip(i + 1));
        }
        let mut pos = out.len();
        while pos > 0 && !text::str_le(out[pos - 1].name.as_str(), x.name.as_str())
            invariant
                pos <= out@.len(),
                forall|k: int|
                    pos <= k < out@.len() ==> !text::lex_le((#[trigger] out@[k]).name@, x.name@),
            decreases pos,
        {
            pos = pos - 1;
        }
        let ghost old_out = out@;
        out.insert(pos, x);
        proof {
            lemma_sorted_insert_at(old_out, x, pos as int);
            assert(out@ =~= old_out.subrange(0, pos as int) + seq![x] + old_out.subrange(
                pos as int,
                old_out.len() as int,
            ));
            assert(all.take(i + 1).drop_last() =~= all.take(i));
            assert(all.take(i + 1).last() == all[i]);
            assert(out@ == sort_by_name(all.take(i + 1)));
            i = i + 1;
        }
    }
    proof {
        assert(all.take(all.len() as int) =~= all);
    }
    out
}

/// The sequence is ordered by name.
pub open spec fn ordered_by_name(s: Seq<ChannelInfo>) -> bool {
    forall|i: int, j: int|
        0 <= i < j < s.len() ==> text::lex_le((#[trigger] s[i]).name@, (#[trigger] s[j]).name@)
}

/// Inserting into an ordered sequence keeps it ordered, and adds only the
/// inserted element.
proof fn lemma_sorted_insert_props(s: Seq<ChannelInfo>, x: ChannelInfo)
    requires
        ordered_by_name(s),
    ensures
        ordered_by_name(sorted_insert(s, x)),
        forall|i: int|
            0 <= i < sorted_insert(s, x).len() ==> ((#[trigger] sorted_insert(s, x)[i]) == x
                || exists|j: int| 0 <= j < s.len() && sorted_insert(s, x)[i] == s[j]),
    decreases s.len(),
{
    let res = sorted_insert(s, x);
    if s.len() == 0 {
        assert(res =~= seq![x]);
    } else if text::lex_le(s.last().name@, x.name@) {
        assert(res =~= s.push(x));
        assert forall|i: int, j: int| 0 <= i < j < res.len() implies text::lex_le(
            (#[trigger] res[i]).name@,
            (#[trigger] res[j]).name@,
        ) by {
            if j == res.len() - 1 {
                if i < s.len() - 1 {
                    assert(text::lex_le(s[i].name@, s.last().name@));
                    text::lemma_lex_trans(s[i].name@, s.last().name@, x.name@);
                }
            }
        }
    } else {
        let t = s.drop_last();
        assert(ordered_by_name(t)) by {
            assert(forall|k: int| 0 <= k < t.len() ==> t[k] == #[trigger] s[k]);
        }
        lemma_sorted_insert_props(t, x);
        let rec = sorted_insert(t, x);
        assert(res =~= rec.push(s.last()));
        assert(text::lex_le(x.name@, s.last().name@)) by {
            text::lemma_lex_total(s.last().name@, x.name@);
        }
        assert forall|i: int, j: int| 0 <= i < j < res.len() implies text::lex_le(
            (#[trigger] res[i]).name@,
            (#[trigger] res[j]).name@,
        ) by {
            if j == res.len() - 1 {
                assert(res[i] == rec[i]);
                if res[i] == x {
                } else {
                    let jj = choose|jj: int| 0 <= jj < t.len() && rec[i] == t[jj];
                    assert(text::lex_le(s[jj].name@, s.last().name@));
                }
            }
        }
    }
}

/// Law: the finished listing is ordered by name.
pub proof fn lemma_sort_by_name_ordered(s: Seq<ChannelInfo>)
    ensures
        ordered_by_name(sort_by_name(s)),
    decreases s.len(),
{
    if s.len() > 0 {
        lemma_sort_by_name_ordered(s.drop_last());
        lemma_sorted_insert_props(sort_by_name(s.drop_last()), s.last());
    }
}

/// Law: feeding the pager two pages one after the other accumulates
/// exactly what one batch over their concatenation filters, and therefore
/// sorts to the same final listing.
pub proof fn lemma_pagination_batch(p1: Seq<ChannelInfo>, p2: Seq<ChannelInfo>, q: Seq<char>)
    ensures
        filter_channels(p1, q) + filter_channels(p2, q) == filter_channels(p1 + p2, q),
        sort_by_name(filter_channels(p1, q) + filter_channels(p2, q)) == sort_by_name(
            filter_channels(p1 + p2, q),
        ),
{
    Seq::filter_distributes_over_add(p1, p2, name_matches(q));
}

} // verus!
