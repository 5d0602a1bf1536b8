//! Payload arbitration, the confirmation gate, and the send plan.

use vstd::prelude::*;
use vstd::utf8::{decode_utf8, valid_utf8};

use crate::config::ResolvedConfig;
use crate::errors::PayloadError;
use crate::errors::SendError;
use crate::text;

verus! {

/// The state of the text flag: absent, given without a value (requesting
/// standard input), or given a value.
pub enum ArgValue {
    Absent,
    StdinRequested,
    Given(String),
}

/// The state of the file flag, with a named path already read into memory
/// by the surrounding program.
pub enum FileArg {
    Absent,
    StdinRequested,
    Loaded { filename: String, bytes: Vec<u8> },
}

/// Standard input as seen by one invocation: attached to a terminal, or a
/// pipe whose whole content is at hand.
pub enum StdinSource {
    Interactive,
    Piped(Vec<u8>),
}

/// The one payload an invocation transmits.
#[derive(Debug)]
pub enum PendingPayload {
    Text { text: String },
    File { filename: String, bytes: Vec<u8>, caption: Option<String> },
}

/// Classify a flag value: an empty string requests standard input.
pub fn classify_arg(v: &Option<String>) -> (r: ArgValue)
    ensures
        match *v {
            None => r is Absent,
            Some(s) => if s@.len() == 0 {
                r is StdinRequested
            } else {
                r matches ArgValue::Given(t) && t@ == s@
            },
        },
{
    match v {
        None => ArgValue::Absent,
        Some(s) => {
            if s.as_str().unicode_len() == 0 {
                ArgValue::StdinRequested
            } else {
                ArgValue::Given(s.clone())
            }
        },
    }
}

/// Relies on String::from_utf8: it succeeds exactly on valid UTF-8 and
/// decodes the bytes to the characters they encode.
#[verifier::external_body]
fn bytes_to_string(bytes: Vec<u8>) -> (r: Option<String>)
    ensures
        match r {
            Some(s) => valid_utf8(bytes@) && s@ == decode_utf8(bytes@),
            None => !valid_utf8(bytes@),
        },
{
    String::from_utf8(bytes).ok()
}

/// Text explicitly requested from a piped standard input: decoded as UTF-8
/// with trailing whitespace removed.
pub open spec fn piped_text(bytes: Seq<u8>) -> Seq<char> {
    text::trim_end_spec(decode_utf8(bytes))
}

/// Text implied by giving no flag at all: decoded as UTF-8 with only a
/// trailing newline stripped.
pub open spec fn implicit_text(bytes: Seq<u8>) -> Seq<char> {
    text::strip_newline_spec(decode_utf8(bytes))
}

/// Decode piped bytes as text, trimming trailing whitespace.
fn read_stdin_text(bytes: Vec<u8>) -> (r: Result<String, PayloadError>)
    ensures
        match r {
            Ok(s) => valid_utf8(bytes@) && s@ == piped_text(bytes@),
            Err(e) => !valid_utf8(bytes@) && e is StdinNotUtf8,
        },
{
    match bytes_to_string(bytes) {
        Some(s) => Ok(text::trim_end(s.as_str())),
        None => Err(PayloadError::StdinNotUtf8),
    }
}

/// Decode piped bytes as text, stripping only a trailing newline.
fn read_stdin_text_implicit(bytes: Vec<u8>) -> (r: Result<String, PayloadError>)
    ensures
        match r {
            Ok(s) => valid_utf8(bytes@) && s@ == implicit_text(bytes@),
            Err(e) => !valid_utf8(bytes@) && e is StdinNotUtf8,
        },
{
    match bytes_to_string(bytes) {
        Some(s) => Ok(text::strip_newline(s.as_str())),
        None => Err(PayloadError::StdinNotUtf8),
    }
}

/// A caption from resolved text: present only when non-empty.
pub open spec fn caption_of(t: Seq<char>) -> Option<Seq<char>> {
    if t.len() > 0 {
        Some(t)
    } else {
        None
    }
}

/// The view of an optional caption.
pub open spec fn caption_view(c: Option<String>) -> Option<Seq<char>> {
    match c {
        Some(s) => Some(s@),
        None => None,
    }
}

/// Decide, from the two flags and the state of standard input, the one
/// payload this invocation transmits.  Every combination is enumerated:
///
/// * both flags absent: a non-interactive standard input is read as text
///   with only a trailing newline stripped; a terminal is `NoInputProvided`;
/// * both flags requesting standard input: `AmbiguousStdin`;
/// * text from standard input: trimmed piped text, a terminal is an error;
///   combined with a loaded file it becomes the caption;
/// * file from standard input: raw piped bytes under the default filename,
///   with any given text as the caption;
/// * given values: text alone posts text; a loaded file uploads, with
///   non-empty given text as the caption.
pub fn resolve_payload(
    text_arg: ArgValue,
    file_arg: FileArg,
    filename_default: &String,
    stdin: StdinSource,
) -> (r: Result<PendingPayload, PayloadError>)
    ensures
        match (text_arg, file_arg) {
            (ArgValue::Absent, FileArg::Absent) => match stdin {
                StdinSource::Interactive => r matches Err(e) && e is NoInputProvided,
                StdinSource::Piped(b) => if valid_utf8(b@) {
                    r matches Ok(PendingPayload::Text { text }) && text@ == implicit_text(b@)
                } else {
                    r matches Err(e) && e is StdinNotUtf8
                },
            },
            (ArgValue::StdinRequested, FileArg::StdinRequested) => r matches Err(e) && e
                is AmbiguousStdin,
            (ArgValue::StdinRequested, FileArg::Absent) => match stdin {
                StdinSource::Interactive => r matches Err(e) && e is TextStdinUnavailable,
                StdinSource::Piped(b) => if valid_utf8(b@) {
                    r matches Ok(PendingPayload::Text { text }) && text@ == piped_text(b@)
                } else {
                    r matches Err(e) && e is StdinNotUtf8
                },
            },
            (ArgValue::StdinRequested, FileArg::Loaded { filename, bytes }) => match stdin {
                StdinSource::Interactive => r matches Err(e) && e is TextStdinUnavailable,
                StdinSource::Piped(b) => if valid_utf8(b@) {
                    r matches Ok(PendingPayload::File { filename: f, bytes: d, caption }) && f@
                        == filename@ && d@ == bytes@ && caption_view(caption) == caption_of(
                        piped_text(b@),
                    )
                } else {
                    r matches Err(e) && e is StdinNotUtf8
                },
            },
            (ArgValue::Absent, FileArg::StdinRequested) => match stdin {
                StdinSource::Interactive => r matches Err(e) && e is FileStdinUnavailable,
                StdinSource::Piped(b) => r matches Ok(
                    PendingPayload::File { filename: f, bytes: d, caption },
                ) && f@ == filename_default@ && d@ == b@ && caption is None,
            },
            (ArgValue::Given(t), FileArg::StdinRequested) => match stdin {
                StdinSource::Interactive => r matches Err(e) && e is FileStdinUnavailable,
                StdinSource::Piped(b) => r matches Ok(
                    PendingPayload::File { filename: f, bytes: d, caption },
                ) && f@ == filename_default@ && d@ == b@ && caption_view(caption) == caption_of(t@),
            },
            (ArgValue::Given(t), FileArg::Absent) => r matches Ok(PendingPayload::Text { text })
                && text@ == t@,
            (ArgValue::Absent, FileArg::Loaded { filename, bytes }) => r matches Ok(
                PendingPayload::File { filename: f, bytes: d, caption },
            ) && f@ == filename@ && d@ == bytes@ && caption is None,
            (ArgValue::Given(t), FileArg::Loaded { filename, bytes }) => r matches Ok(
                PendingPayload::File { filename: f, bytes: d, caption },
            ) && f@ == filename@ && d@ == bytes@ && caption_view(caption) == caption_of(t@),
        },
{
    match (text_arg, file_arg) {
        (ArgValue::Absent, FileArg::Absent) => match stdin {
            StdinSource::Interactive => Err(PayloadError::NoInputProvided),
            StdinSource::Piped(b) => match read_stdin_text_implicit(b) {
                Ok(text) => Ok(PendingPayload::Text { text }),
                Err(e) => Err(e),
            },
        },
        (ArgValue::StdinRequested, FileArg::StdinRequested) => Err(PayloadError::AmbiguousStdin),
        (ArgValue::StdinRequested, FileArg::Absent) => match stdin {
            StdinSource::Interactive => Err(PayloadError::TextStdinUnavailable),
            StdinSource::Piped(b) => match read_stdin_text(b) {
                Ok(text) => Ok(PendingPayload::Text { text }),
                Err(e) => Err(e),
            },
        },
        (ArgValue::StdinRequested, FileArg::Loaded { filename, bytes }) => match stdin {
            StdinSource::Interactive => Err(PayloadError::TextStdinUnavailable),
            StdinSource::Piped(b) => match read_stdin_text(b) {
                Ok(text) => {
                    let caption = if text.as_str().unicode_len() > 0 {
                        Some(text)
                    } else {
                        None
                    };
                    Ok(PendingPayload::File { filename, bytes, caption })
                },
                Err(e) => Err(e),
            },
        },
        (ArgValue::Absent, FileArg::StdinRequested) => match stdin {
            StdinSource::Interactive => Err(PayloadError::FileStdinUnavailable),
            StdinSource::Piped(b) => Ok(
                PendingPayload::File {
                    filename: filename_default.clone(),
                    bytes: b,
                    caption: None,
                },
            ),
        },
        (ArgValue::Given(t), FileArg::StdinRequested) => match stdin {
            StdinSource::Interactive => Err(PayloadError::FileStdinUnavailable),
            StdinSource::Piped(b) => {
                let caption = if t.as_str().unicode_len() > 0 {
                    Some(t)
                } else {
                    None
                };
                Ok(
                    PendingPayload::File {
                        filename: filename_default.clone(),
                        bytes: b,
                        caption,
                    },
                )
            },
        },
        (ArgValue::Given(t), FileArg::Absent) => Ok(PendingPayload::Text { text: t }),
        (ArgValue::Absent, FileArg::Loaded { filename, bytes }) => Ok(
            PendingPayload::File { filename, bytes, caption: None },
        ),
        (ArgValue::Given(t), FileArg::Loaded { filename, bytes }) => {
            let caption = if t.as_str().unicode_len() > 0 {
                Some(t)
            } else {
                None
            };
            Ok(PendingPayload::File { filename, bytes, caption })
        },
    }
}

/// The path with its trailing separators removed.
pub open spec fn strip_trailing_slashes(s: Seq<char>) -> Seq<char>
    decreases s.len(),
{
    if s.len() > 0 && s.last() == '/' {
        strip_trailing_slashes(s.drop_last())
    } else {
        s
    }
}

/// The characters after the last separator.
pub open spec fn last_segment(s: Seq<char>) -> Seq<char>
    decreases s.len(),
{
    if s.len() == 0 {
        s
    } else if s.last() == '/' {
        Seq::empty()
    } else {
        last_segment(s.drop_last()).push(s.last())
    }
}

/// The file segment a path names: trailing separators are ignored, a bare
/// `.` segment backs up to the segment before it, and what remains is the
/// part after the last separator.
pub open spec fn path_file_segment(s: Seq<char>) -> Seq<char>
    decreases s.len(),
{
    if s.len() == 0 {
        s
    } else if s.last() == '/' {
        path_file_segment(s.drop_last())
    } else if last_segment(s) == seq!['.'] {
        path_file_segment(s.drop_last())
    } else {
        last_segment(s)
    }
}

/// A usable upload filename: non-empty and not a parent-directory step.
pub open spec fn segment_usable(seg: Seq<char>) -> bool {
    seg.len() > 0 && seg != seq!['.', '.']
}

/// Where the scan from the right stops, that is the last segment.
proof fn lemma_last_segment_at(t: Seq<char>, j: int)
    requires
        0 <= j <= t.len(),
        forall|k: int| j <= k < t.len() ==> #[trigger] t[k] != '/',
        j > 0 ==> t[j - 1] == '/',
    ensures
        last_segment(t) == t.subrange(j, t.len() as int),
    decreases t.len() - j,
{
    if j == t.len() {
        if t.len() == 0 {
            assert(last_segment(t) =~= t.subrange(0, 0));
        } else {
            assert(t.last() == '/');
            assert(last_segment(t) =~= t.subrange(j, t.len() as int));
        }
    } else {
        assert(t.last() != '/');
        let u = t.drop_last();
        assert(forall|k: int| j <= k < u.len() ==> #[trigger] u[k] != '/') by {
            assert(forall|k: int| 0 <= k < u.len() ==> u[k] == #[trigger] t[k]);
        }
        lemma_last_segment_at(u, j);
        assert(u.subrange(j, u.len() as int).push(t.last()) =~= t.subrange(j, t.len() as int));
    }
}

/// The upload filename a path denotes: the segment after the last
/// separator, with trailing separators and bare `.` segments ignored.  An
/// empty result or a parent-directory step is rejected.
pub fn basename(path: &str) -> (r: Result<String, PayloadError>)
    ensures
        ({
            let seg = path_file_segment(path@);
            match r {
                Ok(name) => segment_usable(seg) && name@ == seg,
                Err(e) => !segment_usable(seg) && e is InvalidFilePath,
            }
        }),
{
    let len = path.unicode_len();
    let mut end = len;
    let mut start: usize = 0;
    proof {
        assert(path@.subrange(0, len as int) =~= path@);
    }
    loop
        invariant
            end <= len,
            len == path@.len(),
            path_file_segment(path@) == path_file_segment(path@.subrange(0, end as int)),
        ensures
            start <= end <= len,
            len == path@.len(),
            path_file_segment(path@) == path@.subrange(start as int, end as int),
            forall|k: int| start <= k < end ==> #[trigger] path@[k] != '/',
        decreases end,
    {
        // Trailing separators are ignored.
        if end > 0 && path.get_char(end - 1) == '/' {
            proof {
                assert(path@.subrange(0, end as int).drop_last() =~= path@.subrange(0, end - 1));
            }
            end = end - 1;
            continue;
        }
        // Isolate the segment after the last separator.
        start = end;
        while start > 0 && path.get_char(start - 1) != '/'
            invariant
                start <= end <= len,
                len == path@.len(),
                forall|k: int| start <= k < end ==> #[trigger] path@[k] != '/',
            decreases start,
        {
            start = start - 1;
        }
        let ghost t = path@.subrange(0, end as int);
        proof {
            assert(forall|k: int| start <= k < t.len() ==> #[trigger] t[k] == path@[k]);
            lemma_last_segment_at(t, start as int);
            assert(t.subrange(start as int, t.len() as int) =~= path@.subrange(
                start as int,
                end as int,
            ));
        }
        // A bare `.` segment backs up to the segment before it.
        if end - start == 1 && path.get_char(start) == '.' {
            proof {
                assert(last_segment(t) =~= seq!['.']);
                assert(t.drop_last() =~= path@.subrange(0, end - 1));
            }
            end = end - 1;
            continue;
        }
        proof {
            if end > 0 {
                assert(t.last() != '/');
                assert(last_segment(t) != seq!['.']) by {
                    if last_segment(t) == seq!['.'] {
                        assert(path@.subrange(start as int, end as int) == seq!['.']);
                        assert(path@.subrange(start as int, end as int).len() == 1);
                        assert(path@.subrange(start as int, end as int)[0] == '.');
                        assert(path@[start as int] == '.');
                        assert(end - start == 1);
                    }
                }
            } else {
                assert(t =~= Seq::<char>::empty());
                assert(path@.subrange(start as int, end as int) =~= t);
            }
            assert(path_file_segment(t) == path@.subrange(start as int, end as int));
        }
        break;
    }
    let seg = path.substring_char(start, end);
    let usable = seg.unicode_len() > 0 && !text::eq_str(seg, "..");
    proof {
        reveal_strlit("..");
        assert(".."@ =~= seq!['.', '.']);
    }
    if usable {
        Ok(String::from_str(seg))
    } else {
        Err(PayloadError::InvalidFilePath)
    }
}

/// What a payload becomes once accepted: one text post, or one upload.
#[derive(Debug)]
pub enum SendPlan {
    PostText { channel: String, text: String },
    Upload { channel: String, filename: String, bytes: Vec<u8>, caption: Option<String> },
}

/// Decide what a payload becomes.  A file longer than the configured
/// ceiling is rejected here, before anything is transmitted; an empty
/// text-only message is rejected too.
pub fn plan_send(settings: &ResolvedConfig, payload: PendingPayload) -> (r: Result<
    SendPlan,
    SendError,
>)
    requires
        settings.wf(),
    ensures
        match payload {
            PendingPayload::Text { text } => if text@.len() == 0 {
                r matches Err(e) && e is EmptyMessage
            } else {
                r matches Ok(SendPlan::PostText { channel, text: t }) && channel@
                    == settings.channel@ && t@ == text@
            },
            PendingPayload::File { filename, bytes, caption } => if bytes@.len()
                > settings.max_file_size {
                r matches Err(SendError::FileTooLarge { actual, limit }) && actual == bytes@.len()
                    && limit == settings.max_file_size
            } else {
                r matches Ok(SendPlan::Upload { channel, filename: f, bytes: d, caption: c })
                    && channel@ == settings.channel@ && f@ == filename@ && d@ == bytes@
                    && caption_view(c) == caption_view(caption)
            },
        },
{
    match payload {
        PendingPayload::Text { text } => {
            if text.as_str().unicode_len() == 0 {
                Err(SendError::EmptyMessage)
            } else {
                Ok(SendPlan::PostText { channel: settings.channel.clone(), text })
            }
        },
        PendingPayload::File { filename, bytes, caption } => {
            if bytes.len() as u64 > settings.max_file_size {
                Err(
                    SendError::FileTooLarge {
                        actual: bytes.len() as u64,
                        limit: settings.max_file_size,
                    },
                )
            } else {
                Ok(
                    SendPlan::Upload {
                        channel: settings.channel.clone(),
                        filename,
                        bytes,
                        caption,
                    },
                )
            }
        },
    }
}

/// The one-or-two-line preview the confirmation gate shows: the filename
/// for files, with the caption as a quoted second line; the quoted text
/// for messages.
pub open spec fn preview_spec(p: PendingPayload) -> Seq<char> {
    match p {
        PendingPayload::Text { text } => "> "@ + text@,
        PendingPayload::File { filename, bytes, caption } => match caption {
            Some(c) => if c@.len() > 0 {
                "file: "@ + filename@ + "\n> "@ + c@
            } else {
                "file: "@ + filename@
            },
            None => "file: "@ + filename@,
        },
    }
}

/// What the confirmation gate decides before any prompt is shown.
#[derive(Debug)]
pub enum GateDecision {
    Proceed,
    NeedPrompt { preview: String },
}

/// The confirmation gate: a no-op when confirmation is off or skipped;
/// otherwise it needs an interactive standard input and yields the preview
/// to prompt with.
pub fn confirmation_gate(
    require_confirmation: bool,
    skip: bool,
    stdin_interactive: bool,
    payload: &PendingPayload,
) -> (r: Result<GateDecision, SendError>)
    ensures
        (!require_confirmation || skip) ==> (r matches Ok(d) && d is Proceed),
        (require_confirmation && !skip && !stdin_interactive) ==> (r matches Err(e) && e
            is ConfirmationUnavailable),
        (require_confirmation && !skip && stdin_interactive) ==> (r matches Ok(
            GateDecision::NeedPrompt { preview },
        ) && preview@ == preview_spec(*payload)),
{
    if !require_confirmation || skip {
        return Ok(GateDecision::Proceed);
    }
    if !stdin_interactive {
        return Err(SendError::ConfirmationUnavailable);
    }
    let preview = match payload {
        PendingPayload::Text { text } => {
            let mut p = String::from_str("> ");
            p.append(text.as_str());
            p
        },
        PendingPayload::File { filename, bytes, caption } => {
            let mut p = String::from_str("file: ");
            p.append(filename.as_str());
            if let Some(c) = caption {
                if c.as_str().unicode_len() > 0 {
                    p.append("\n> ");
                    p.append(c.as_str());
                }
            }
            p
        },
    };
    Ok(GateDecision::NeedPrompt { preview })
}

/// Only `y` or `Y`, once surrounding whitespace is trimmed, affirms a
/// confirmation prompt.
pub fn response_affirms(response: &str) -> (r: bool)
    ensures
        r == (text::trim_spec(response@) == "y"@ || text::trim_spec(response@) == "Y"@),
{
    let t = text::trim(response);
    text::eq_str(t.as_str(), "y") || text::eq_str(t.as_str(), "Y")
}

} // verus!

