//! The wire protocol of the speech synthesis service: the messages of a
//! realtime synthesis session and what each reply does to it, the body of
//! an HTTP synthesis request and where its reply holds the audio, the
//! download retry policy, and voice enrollment requests.

use base64::Engine;
use vstd::prelude::*;
use crate::error::{AppError, error_text};
use crate::text::{append_str, owned, replace_first, replace_first_str, starts_with, str_eq, trim, trim_chars};

verus! {

broadcast use vstd::string::group_string_axioms;

// ---------------------------------------------------------------------------
// Outside encoders
// ---------------------------------------------------------------------------

/// A lowercase hexadecimal digit.
pub open spec fn hex_digit(d: nat) -> char {
    if d < 10 {
        crate::fmt::digit(d)
    } else if d == 10 {
        'a'
    } else if d == 11 {
        'b'
    } else if d == 12 {
        'c'
    } else if d == 13 {
        'd'
    } else if d == 14 {
        'e'
    } else {
        'f'
    }
}

/// How a character is written inside a JSON string: the quote and the
/// backslash escaped, the five named control characters by name, other
/// control characters as `\u00XX`, everything else as itself.
pub open spec fn json_escaped_char(c: char) -> Seq<char> {
    let u = c as nat;
    if c == '"' {
        seq!['\\', '"']
    } else if c == '\\' {
        seq!['\\', '\\']
    } else if u == 8 {
        seq!['\\', 'b']
    } else if c == '\t' {
        seq!['\\', 't']
    } else if c == '\n' {
        seq!['\\', 'n']
    } else if u == 12 {
        seq!['\\', 'f']
    } else if c == '\r' {
        seq!['\\', 'r']
    } else if u < 32 {
        seq!['\\', 'u', '0', '0', hex_digit(u / 16), hex_digit(u % 16)]
    } else {
        seq![c]
    }
}

/// The characters of `s`, each as it is written inside a JSON string.
pub open spec fn json_escaped(s: Seq<char>) -> Seq<char>
    decreases s.len(),
{
    if s.len() == 0 {
        s
    } else {
        json_escaped(s.drop_last()) + json_escaped_char(s.last())
    }
}

/// The JSON string literal of the text `s`: quoted and escaped.
pub open spec fn json_quoted(s: Seq<char>) -> Seq<char> {
    seq!['"'] + json_escaped(s) + seq!['"']
}

/// `serde_json::to_string` of a string: its JSON string literal (see
/// [`json_quoted`], which restates the escape table of `serde_json`'s
/// compact formatter). Writing a string cannot fail.
#[verifier::external_body]
pub(crate) fn json_string(s: &str) -> (r: String)
    ensures
        r@ == json_quoted(s@),
{
    match serde_json::to_string(s) {
        Ok(q) => q,
        Err(_) => String::new(),
    }
}

/// What the standard base64 engine makes of the text `s`: the bytes it
/// encodes, or the message of the decoding error.
pub uninterp spec fn base64_decoding(s: Seq<char>) -> Result<Seq<u8>, Seq<char>>;

/// The character of the standard base64 alphabet for the six bits `v`:
/// `A`-`Z`, `a`-`z`, `0`-`9`, `+`, `/`.
pub open spec fn base64_symbol(v: nat) -> char {
    if v < 26 {
        (65 + v) as char
    } else if v < 52 {
        (97 + v - 26) as char
    } else if v < 62 {
        (48 + v - 52) as char
    } else if v == 62 {
        '+'
    } else {
        '/'
    }
}

/// The standard padded base64 encoding of `b`: four symbols per three
/// bytes, a last group of one or two bytes padded with `=`.
pub open spec fn base64_encoding(b: Seq<u8>) -> Seq<char>
    decreases b.len(),
{
    if b.len() == 0 {
        seq![]
    } else if b.len() == 1 {
        seq![base64_symbol(b[0] as nat / 4), base64_symbol((b[0] as nat % 4) * 16), '=', '=']
    } else if b.len() == 2 {
        seq![
            base64_symbol(b[0] as nat / 4),
            base64_symbol((b[0] as nat % 4) * 16 + b[1] as nat / 16),
            base64_symbol((b[1] as nat % 16) * 4),
            '=',
        ]
    } else {
        seq![
            base64_symbol(b[0] as nat / 4),
            base64_symbol((b[0] as nat % 4) * 16 + b[1] as nat / 16),
            base64_symbol((b[1] as nat % 16) * 4 + b[2] as nat / 64),
            base64_symbol(b[2] as nat % 64),
        ] + base64_encoding(b.skip(3))
    }
}

/// `base64::engine::general_purpose::STANDARD.decode`: the decoded bytes,
/// or the error's message. That engine requires canonical padding and no
/// trailing bits, so it accepts exactly the standard padded encodings (see
/// [`base64_encoding`]) and gives back the bytes encoded; the text of its
/// error messages is named here, not restated.
#[verifier::external_body]
pub(crate) fn base64_decode(s: &str) -> (r: Result<Vec<u8>, String>)
    ensures
        match r {
            Ok(b) => base64_decoding(s@) == Ok::<Seq<u8>, Seq<char>>(b@),
            Err(m) => base64_decoding(s@) == Err::<Seq<u8>, Seq<char>>(m@),
        },
        r matches Ok(b) ==> base64_encoding(b@) == s@,
        (exists|b: Seq<u8>| #[trigger] base64_encoding(b) == s@) ==> r is Ok,
{
    match base64::engine::general_purpose::STANDARD.decode(s) {
        Ok(b) => Ok(b),
        Err(e) => Err(format!("{}", e)),
    }
}

/// `base64::engine::general_purpose::STANDARD.encode`: the standard padded
/// encoding of `b` (see [`base64_encoding`]).
#[verifier::external_body]
pub(crate) fn base64_encode(b: &[u8]) -> (r: String)
    ensures
        r@ == base64_encoding(b@),
{
    base64::engine::general_purpose::STANDARD.encode(b)
}

/// The characters of a string, if any.
pub open spec fn opt_view(o: Option<String>) -> Option<Seq<char>> {
    match o {
        Some(s) => Some(s@),
        None => None,
    }
}

/// Whether instructions are given: present and not blank.
pub open spec fn has_instructions(instructions: Option<Seq<char>>) -> bool {
    match instructions {
        Some(i) => trim(i).len() > 0,
        None => false,
    }
}

fn instructions_given(instructions: Option<&str>) -> (b: bool)
    ensures
        b == has_instructions(match instructions {
            Some(i) => Some(i@),
            None => None,
        }),
{
    match instructions {
        Some(i) => trim_chars(i).len() > 0,
        None => false,
    }
}

/// The address of a realtime synthesis session with `model`.
pub fn realtime_url(model: &str) -> (r: String)
    ensures
        r@ == "wss://dashscope.aliyuncs.com/api-ws/v1/realtime?model="@ + model@,
{
    let mut r = owned("wss://dashscope.aliyuncs.com/api-ws/v1/realtime?model=");
    append_str(&mut r, model);
    r
}

// ---------------------------------------------------------------------------
// Realtime session messages
// ---------------------------------------------------------------------------

/// Voice-cloning models take no instructions.
pub open spec fn is_vc_model(model: Seq<char>) -> bool {
    "qwen3-tts-vc"@.is_prefix_of(model)
}

/// The `session.update` message that opens a realtime session: server-side
/// commit, the model and voice, MP3 at 24 kHz, and the instructions when
/// they are given and the model is not a voice-cloning one. Keys are in
/// `serde_json`'s (sorted) order.
pub open spec fn session_update_text(model: Seq<char>, voice: Seq<char>, instructions: Option<Seq<char>>) -> Seq<char> {
    let instr = if has_instructions(instructions) && !is_vc_model(model) {
        "\"instructions\":"@ + json_quoted(instructions.unwrap()) + ","@
    } else {
        Seq::<char>::empty()
    };
    "{\"session\":{"@ + instr + "\"mode\":\"server_commit\",\"model\":"@ + json_quoted(model)
        + ",\"response_format\":\"mp3\",\"sample_rate\":24000,\"voice\":"@ + json_quoted(voice)
        + "},\"type\":\"session.update\"}"@
}

/// Builds the `session.update` message; see [`session_update_text`].
pub fn session_update_message(model: &str, voice: &str, instructions: Option<&str>) -> (r: String)
    ensures
        r@ == session_update_text(
            model@,
            voice@,
            match instructions {
                Some(i) => Some(i@),
                None => None,
            },
        ),
{
    let with_instr = instructions_given(instructions) && !starts_with(model, "qwen3-tts-vc");
    let mut r = owned("{\"session\":{");
    if with_instr {
        match instructions {
            Some(i) => {
                append_str(&mut r, "\"instructions\":");
                let q = json_string(i);
                append_str(&mut r, q.as_str());
                append_str(&mut r, ",");
            },
            None => {},
        }
    }
    append_str(&mut r, "\"mode\":\"server_commit\",\"model\":");
    let qm = json_string(model);
    append_str(&mut r, qm.as_str());
    append_str(&mut r, ",\"response_format\":\"mp3\",\"sample_rate\":24000,\"voice\":");
    let qv = json_string(voice);
    append_str(&mut r, qv.as_str());
    append_str(&mut r, "},\"type\":\"session.update\"}");
    proof {
        let instr_part = if with_instr {
            "\"instructions\":"@ + json_quoted(instructions.unwrap()@) + ","@
        } else {
            Seq::<char>::empty()
        };
        assert(r@ =~= "{\"session\":{"@ + instr_part + "\"mode\":\"server_commit\",\"model\":"@
            + json_quoted(model@) + ",\"response_format\":\"mp3\",\"sample_rate\":24000,\"voice\":"@
            + json_quoted(voice@) + "},\"type\":\"session.update\"}"@);
    }
    r
}

/// The message that appends one text to a realtime session.
pub open spec fn text_append_text(text: Seq<char>) -> Seq<char> {
    "{\"text\":"@ + json_quoted(text) + ",\"type\":\"input_text_buffer.append\"}"@
}

/// Builds the message appending `text`; see [`text_append_text`].
pub fn text_append_message(text: &str) -> (r: String)
    ensures
        r@ == text_append_text(text@),
{
    let mut r = owned("{\"text\":");
    let q = json_string(text);
    append_str(&mut r, q.as_str());
    append_str(&mut r, ",\"type\":\"input_text_buffer.append\"}");
    r
}

/// The message that ends the input of a realtime session.
pub fn session_finish_message() -> (r: String)
    ensures
        r@ == "{\"type\":\"session.finish\"}"@,
{
    owned("{\"type\":\"session.finish\"}")
}

/// The messages of a realtime session, in order: the session update, one
/// append per text, and the finish.
pub fn session_messages(texts: &[String], model: &str, voice: &str, instructions: Option<&str>) -> (r: Vec<String>)
    ensures
        r@.len() == texts@.len() + 2,
        r@[0]@ == session_update_text(
            model@,
            voice@,
            match instructions {
                Some(i) => Some(i@),
                None => None,
            },
        ),
        forall|i: int| 0 <= i < texts@.len() ==> (#[trigger] r@[i + 1])@ == text_append_text(texts@[i]@),
        r@[texts@.len() as int + 1]@ == "{\"type\":\"session.finish\"}"@,
{
    let mut r: Vec<String> = Vec::new();
    r.push(session_update_message(model, voice, instructions));
    let mut i: usize = 0;
    while i < texts.len()
        invariant
            i <= texts@.len(),
            r@.len() == i + 1,
            r@[0]@ == session_update_text(
                model@,
                voice@,
                match instructions {
                    Some(i) => Some(i@),
                    None => None,
                },
            ),
            forall|k: int| 0 <= k < i ==> (#[trigger] r@[k + 1])@ == text_append_text(texts@[k]@),
        decreases texts@.len() - i,
    {
        r.push(text_append_message(texts[i].as_str()));
        i = i + 1;
    }
    r.push(session_finish_message());
    r
}

// ---------------------------------------------------------------------------
// Realtime session replies
// ---------------------------------------------------------------------------

/// The fields of a realtime reply that the session reads: its type, its
/// audio delta, and its error code and message (each present only if it is
/// a JSON string).
#[derive(Clone, Debug, PartialEq)]
pub struct WsReplyFields {
    pub kind: Option<String>,
    pub delta: Option<String>,
    pub error_code: Option<String>,
    pub error_message: Option<String>,
}

/// The fields of the reply text `t`, if it parses as JSON.
pub uninterp spec fn ws_reply_fields(t: Seq<char>) -> Option<(Option<Seq<char>>, Option<Seq<char>>, Option<Seq<char>>, Option<Seq<char>>)>;

pub open spec fn fields_view(f: WsReplyFields) -> (Option<Seq<char>>, Option<Seq<char>>, Option<Seq<char>>, Option<Seq<char>>) {
    (opt_view(f.kind), opt_view(f.delta), opt_view(f.error_code), opt_view(f.error_message))
}

/// `serde_json::from_str::<serde_json::Value>` on a reply, then its `type`,
/// `delta`, `error.code` and `error.message` as strings: `None` when the
/// text is not JSON, and a field is `None` when it is missing or not a
/// string. The JSON grammar is `serde_json`'s, named here.
#[verifier::external_body]
fn read_ws_reply(t: &str) -> (r: Option<WsReplyFields>)
    ensures
        match r {
            Some(f) => ws_reply_fields(t@) == Some(fields_view(f)),
            None => ws_reply_fields(t@) is None,
        },
{
    match serde_json::from_str::<serde_json::Value>(t) {
        Ok(v) => Some(WsReplyFields {
            kind: v["type"].as_str().map(String::from),
            delta: v["delta"].as_str().map(String::from),
            error_code: v["error"]["code"].as_str().map(String::from),
            error_message: v["error"]["message"].as_str().map(String::from),
        }),
        Err(_) => None,
    }
}

/// What the socket delivered while a session waits for audio.
#[derive(Clone, Debug, PartialEq)]
pub enum WsEvent {
    /// The wait ran out: the short idle wait if one is armed, else the
    /// overall one.
    TimedOut,
    /// The socket closed.
    Closed,
    /// The socket failed, with its message.
    SocketError(String),
    /// A text message.
    Text(String),
    /// Any other message (binary, ping, pong).
    Other,
}

/// What the session does next.
#[derive(Clone, Debug, PartialEq)]
pub enum WsAction {
    /// Wait for the next message.
    Continue,
    /// Arm (or re-arm) the short idle wait, then wait for the next message.
    ArmIdle,
    /// Drop the idle wait, then wait for the next message.
    DisarmIdle,
    /// Stop receiving; the result is [`WsSession::finish`].
    Finish,
    /// Stop with this error.
    Fail(AppError),
}

/// A realtime session collecting audio: the audio received so far and
/// whether the short idle wait is armed (after a response completed).
#[derive(Clone, Debug, PartialEq)]
pub struct WsSession {
    pub audio: Vec<u8>,
    pub idle: bool,
}

/// The audio delta a reply adds, if any.
pub open spec fn delta_bytes(delta: Option<Seq<char>>) -> Seq<u8> {
    match delta {
        Some(d) => match base64_decoding(d) {
            Ok(b) => b,
            Err(_) => Seq::<u8>::empty(),
        },
        None => Seq::<u8>::empty(),
    }
}

/// The error a reply of type `error` is reported as.
pub open spec fn reply_error_text(code: Option<Seq<char>>, message: Option<Seq<char>>) -> Seq<char> {
    "TTS error: "@ + or_empty(code) + " - "@ + or_empty(message)
}

/// `r` fails with a synthesis-service error whose detail is `msg`.
pub open spec fn fails_with(r: WsAction, msg: Seq<char>) -> bool {
    r matches WsAction::Fail(AppError::TtsService(m)) && m@ == msg
}

/// The characters of an optional text, none when it is absent.
pub open spec fn or_empty(o: Option<Seq<char>>) -> Seq<char> {
    match o {
        Some(t) => t,
        None => Seq::<char>::empty(),
    }
}

/// The type of a reply, `""` when it has none.
pub open spec fn reply_kind(f: (Option<Seq<char>>, Option<Seq<char>>, Option<Seq<char>>, Option<Seq<char>>)) -> Seq<char> {
    or_empty(f.0)
}

fn tts_failure(prefix: &str, detail: &str) -> (r: WsAction)
    ensures
        fails_with(r, prefix@ + detail@),
{
    let mut m = owned(prefix);
    append_str(&mut m, detail);
    WsAction::Fail(AppError::TtsService(m))
}

fn text_or_empty(o: &Option<String>) -> (r: &str)
    ensures
        r@ == or_empty(opt_view(*o)),
{
    proof {
        reveal_strlit("");
    }
    match o {
        Some(s) => s.as_str(),
        None => "",
    }
}

/// A reply's fields as plain values: type, audio delta, error code and
/// error message.
pub type FieldsView = (Option<Seq<char>>, Option<Seq<char>>, Option<Seq<char>>, Option<Seq<char>>);

/// The audio and idle flag of a session after a text reply whose fields are
/// `f` (`None` when it is not JSON).
pub open spec fn reply_next(s: WsSession, f: Option<FieldsView>) -> (Seq<u8>, bool) {
    match f {
        Some(f) => {
            let kind = reply_kind(f);
            if kind == "response.created"@ {
                (s.audio@, false)
            } else if kind == "response.audio.delta"@ {
                (s.audio@ + delta_bytes(f.1), s.idle)
            } else if kind == "response.done"@ {
                (s.audio@, true)
            } else {
                (s.audio@, s.idle)
            }
        },
        None => (s.audio@, s.idle),
    }
}

/// The action a session takes on a text reply whose fields are `f`.
pub open spec fn reply_action(f: Option<FieldsView>, r: WsAction) -> bool {
    match f {
        None => r is Continue,
        Some(f) => {
            let kind = reply_kind(f);
            if kind == "response.created"@ {
                r is DisarmIdle
            } else if kind == "response.audio.delta"@ {
                r is Continue
            } else if kind == "response.done"@ {
                r is ArmIdle
            } else if kind == "session.finished"@ {
                r is Finish
            } else if kind == "error"@ {
                fails_with(r, reply_error_text(f.2, f.3))
            } else {
                r is Continue
            }
        },
    }
}

/// The audio and idle flag of a session after an event.
pub open spec fn ws_next(s: WsSession, ev: WsEvent) -> (Seq<u8>, bool) {
    match ev {
        WsEvent::Text(t) => reply_next(s, ws_reply_fields(t@)),
        _ => (s.audio@, s.idle),
    }
}

/// The action a session takes on an event.
pub open spec fn ws_action(s: WsSession, ev: WsEvent, r: WsAction) -> bool {
    match ev {
        WsEvent::TimedOut => if s.idle {
            r is Finish
        } else {
            fails_with(r, "WS task timed out (600s)"@)
        },
        WsEvent::Closed => if s.audio@.len() > 0 {
            r is Finish
        } else {
            fails_with(r, "WS closed unexpectedly"@)
        },
        WsEvent::SocketError(e) => if s.audio@.len() > 0 {
            r is Finish
        } else {
            fails_with(r, "WS error: "@ + e@)
        },
        WsEvent::Other => r is Continue,
        WsEvent::Text(t) => reply_action(ws_reply_fields(t@), r),
    }
}

/// Audio once received is kept: after any event, the audio received so far
/// is the start of the session's audio.
pub proof fn law_ws_audio_kept(s: WsSession, ev: WsEvent)
    ensures
        s.audio@.is_prefix_of(ws_next(s, ev).0),
{
    match ev {
        WsEvent::Text(t) => match ws_reply_fields(t@) {
            Some(f) => {
                assert(s.audio@ =~= (s.audio@ + delta_bytes(f.1)).take(s.audio@.len() as int));
            },
            None => {},
        },
        _ => {},
    }
}

impl WsSession {
    /// A session before any reply: no audio, no idle wait.
    pub fn new() -> (r: Self)
        ensures
            r.audio@ == Seq::<u8>::empty(),
            !r.idle,
    {
        WsSession { audio: Vec::new(), idle: false }
    }

    /// The session's response to one event. A timeout ends the session
    /// when the idle wait was armed and fails it otherwise; a closed or
    /// failed socket ends it if audio has arrived and fails it otherwise. A
    /// text reply that is JSON acts by its type: `response.created` drops
    /// the idle wait, `response.audio.delta` appends its base64-decoded
    /// delta (an undecodable one is skipped), `response.done` arms the idle
    /// wait, `session.finished` ends the session, and `error` fails it with
    /// its code and message; anything else is ignored.
    pub fn on_event(&mut self, ev: WsEvent) -> (r: WsAction)
        ensures
            (final(self).audio@, final(self).idle) == ws_next(*old(self), ev),
            ws_action(*old(self), ev, r),
    {
        proof {
            reveal_strlit("");
        }
        match ev {
            WsEvent::TimedOut => {
                if self.idle {
                    WsAction::Finish
                } else {
                    tts_failure("WS task timed out (600s)", "")
                }
            },
            WsEvent::Closed => {
                if self.audio.len() > 0 {
                    WsAction::Finish
                } else {
                    tts_failure("WS closed unexpectedly", "")
                }
            },
            WsEvent::SocketError(e) => {
                if self.audio.len() > 0 {
                    WsAction::Finish
                } else {
                    tts_failure("WS error: ", e.as_str())
                }
            },
            WsEvent::Other => WsAction::Continue,
            WsEvent::Text(t) => self.on_reply(read_ws_reply(t.as_str())),
        }
    }

    /// The session's response to a text reply, given its fields (`None`
    /// when it is not JSON); see [`WsSession::on_event`].
    pub fn on_reply(&mut self, reply: Option<WsReplyFields>) -> (r: WsAction)
        ensures
            (final(self).audio@, final(self).idle) == reply_next(
                *old(self),
                match reply {
                    Some(f) => Some(fields_view(f)),
                    None => None,
                },
            ),
            reply_action(
                match reply {
                    Some(f) => Some(fields_view(f)),
                    None => None,
                },
                r,
            ),
    {
        proof {
            reveal_strlit("");
        }
        match reply {
            None => WsAction::Continue,
            Some(f) => {
                let kind = text_or_empty(&f.kind);
                if str_eq(kind, "response.created") {
                    self.idle = false;
                    WsAction::DisarmIdle
                } else if str_eq(kind, "response.audio.delta") {
                    match &f.delta {
                        Some(d) => {
                            match base64_decode(d.as_str()) {
                                Ok(bytes) => {
                                    let mut b = bytes;
                                    self.audio.append(&mut b);
                                },
                                Err(_) => {},
                            }
                        },
                        None => {},
                    }
                    WsAction::Continue
                } else if str_eq(kind, "response.done") {
                    self.idle = true;
                    WsAction::ArmIdle
                } else if str_eq(kind, "session.finished") {
                    WsAction::Finish
                } else if str_eq(kind, "error") {
                    let mut m = owned("TTS error: ");
                    append_str(&mut m, text_or_empty(&f.error_code));
                    append_str(&mut m, " - ");
                    append_str(&mut m, text_or_empty(&f.error_message));
                    WsAction::Fail(AppError::TtsService(m))
                } else {
                    WsAction::Continue
                }
            },
        }
    }

    /// The result of an ended session: its audio, or an error when none
    /// arrived.
    pub fn finish(self) -> (r: Result<Vec<u8>, AppError>)
        ensures
            self.audio@.len() > 0 ==> (r matches Ok(a) && a@ == self.audio@),
            self.audio@.len() == 0 ==> (r matches Err(AppError::TtsService(m)) && m@
                == "No audio received"@),
    {
        if self.audio.len() == 0 {
            Err(AppError::TtsService(owned("No audio received")))
        } else {
            Ok(self.audio)
        }
    }
}


// ---------------------------------------------------------------------------
// HTTP synthesis
// ---------------------------------------------------------------------------

/// The body of an HTTP synthesis request: the text and voice, the
/// instructions (with instruction optimisation on) when they are given, and
/// the model. Keys are in `serde_json`'s (sorted) order.
pub open spec fn http_body_text(text: Seq<char>, voice: Seq<char>, instructions: Option<Seq<char>>, model: Seq<char>) -> Seq<char> {
    let instr = if has_instructions(instructions) {
        "\"instructions\":"@ + json_quoted(instructions.unwrap()) + ",\"optimize_instructions\":true,"@
    } else {
        Seq::<char>::empty()
    };
    "{\"input\":{"@ + instr + "\"text\":"@ + json_quoted(text) + ",\"voice\":"@ + json_quoted(voice)
        + "},\"model\":"@ + json_quoted(model) + "}"@
}

/// Builds the body of an HTTP synthesis request; see [`http_body_text`].
pub fn http_tts_body(text: &str, voice: &str, instructions: Option<&str>, model: &str) -> (r: String)
    ensures
        r@ == http_body_text(
            text@,
            voice@,
            match instructions {
                Some(i) => Some(i@),
                None => None,
            },
            model@,
        ),
{
    let with_instr = instructions_given(instructions);
    let mut r = owned("{\"input\":{");
    if with_instr {
        match instructions {
            Some(i) => {
                append_str(&mut r, "\"instructions\":");
                let q = json_string(i);
                append_str(&mut r, q.as_str());
                append_str(&mut r, ",\"optimize_instructions\":true,");
            },
            None => {},
        }
    }
    append_str(&mut r, "\"text\":");
    let qt = json_string(text);
    append_str(&mut r, qt.as_str());
    append_str(&mut r, ",\"voice\":");
    let qv = json_string(voice);
    append_str(&mut r, qv.as_str());
    append_str(&mut r, "},\"model\":");
    let qm = json_string(model);
    append_str(&mut r, qm.as_str());
    append_str(&mut r, "}");
    proof {
        let instr_part = if with_instr {
            "\"instructions\":"@ + json_quoted(instructions.unwrap()@) + ",\"optimize_instructions\":true,"@
        } else {
            Seq::<char>::empty()
        };
        assert(r@ =~= "{\"input\":{"@ + instr_part + "\"text\":"@ + json_quoted(text@) + ",\"voice\":"@
            + json_quoted(voice@) + "},\"model\":"@ + json_quoted(model@) + "}"@);
    }
    r
}

/// Where the reply to an HTTP synthesis request holds the audio.
#[derive(Clone, Debug, PartialEq)]
pub enum HttpAudio {
    /// At this address, to download.
    Url(String),
    /// In the reply itself.
    Bytes(Vec<u8>),
}

/// `r` is the audio of an HTTP synthesis reply with the `output.audio.url`
/// string `url`, the `output.audio.data` string `data` and the text
/// `reply`: the address (on `https` where it named `http`) if there is one,
/// else the decoded inline data, else an error quoting the reply.
pub open spec fn http_audio_of(url: Option<Seq<char>>, data: Option<Seq<char>>, reply: Seq<char>, r: Result<HttpAudio, AppError>) -> bool {
    match url {
        Some(u) => r matches Ok(HttpAudio::Url(x)) && x@ == replace_first(u, "http://"@, "https://"@),
        None => match data {
            Some(d) => match base64_decoding(d) {
                Ok(b) => r matches Ok(HttpAudio::Bytes(x)) && x@ == b,
                Err(m) => r matches Err(AppError::TtsService(e)) && e@ == "解码音频失败: "@ + m,
            },
            None => r matches Err(AppError::TtsService(e)) && e@ == "响应中未找到音频: "@ + reply,
        },
    }
}

/// Reads the audio out of an HTTP synthesis reply, given its
/// `output.audio.url` and `output.audio.data` strings and its text: the
/// address (on `https` where it named `http`) if there is one, else the
/// decoded inline data, else an error quoting the reply.
pub fn http_audio_source(url: Option<String>, data: Option<String>, reply: &str) -> (r: Result<HttpAudio, AppError>)
    ensures
        http_audio_of(opt_view(url), opt_view(data), reply@, r),
{
    match url {
        Some(u) => {
            proof {
                reveal_strlit("http://");
            }
            Ok(HttpAudio::Url(replace_first_str(u.as_str(), "http://", "https://")))
        },
        None => match data {
            Some(d) => match base64_decode(d.as_str()) {
                Ok(b) => Ok(HttpAudio::Bytes(b)),
                Err(m) => {
                    let mut e = owned("解码音频失败: ");
                    append_str(&mut e, m.as_str());
                    Err(AppError::TtsService(e))
                },
            },
            None => {
                let mut e = owned("响应中未找到音频: ");
                append_str(&mut e, reply);
                Err(AppError::TtsService(e))
            },
        },
    }
}

/// The fields of an HTTP synthesis reply text that its audio is read from:
/// `output.audio.url` and `output.audio.data` (each present only if it is a
/// JSON string) and the reply written back compactly, if it parses as JSON.
pub uninterp spec fn http_reply_fields(t: Seq<char>) -> Option<(Option<Seq<char>>, Option<Seq<char>>, Seq<char>)>;

/// The fields of an HTTP synthesis reply.
#[derive(Clone, Debug, PartialEq)]
pub struct HttpReplyFields {
    pub url: Option<String>,
    pub data: Option<String>,
    pub compact: String,
}

/// `serde_json::from_str::<serde_json::Value>` on the reply, then its
/// `output.audio.url` and `output.audio.data` as strings and the parsed
/// value as its `Display` writes it (compact JSON): `None` when the text is
/// not JSON. The JSON grammar and writing are `serde_json`'s, named here.
#[verifier::external_body]
fn read_http_reply(t: &str) -> (r: Option<HttpReplyFields>)
    ensures
        match r {
            Some(f) => http_reply_fields(t@) == Some((opt_view(f.url), opt_view(f.data), f.compact@)),
            None => http_reply_fields(t@) is None,
        },
{
    match serde_json::from_str::<serde_json::Value>(t) {
        Ok(v) => Some(HttpReplyFields {
            url: v["output"]["audio"]["url"].as_str().map(String::from),
            data: v["output"]["audio"]["data"].as_str().map(String::from),
            compact: v.to_string(),
        }),
        Err(_) => None,
    }
}

/// Reads the audio out of the text of an HTTP synthesis reply: nothing when
/// it is not JSON (the caller reports the decoding failure), else the audio
/// of its fields, an error quoting the reply as `serde_json` writes it; see
/// [`http_audio_of`].
pub fn http_reply_audio(reply: &str) -> (r: Option<Result<HttpAudio, AppError>>)
    ensures
        match http_reply_fields(reply@) {
            None => r is None,
            Some((u, d, c)) => r matches Some(x) && http_audio_of(u, d, c, x),
        },
{
    match read_http_reply(reply) {
        Some(f) => Some(http_audio_source(f.url, f.data, f.compact.as_str())),
        None => None,
    }
}

/// Number of attempts at downloading synthesised audio.
pub const DOWNLOAD_ATTEMPTS: u32 = 3;

/// What to do after a failed download attempt.
#[derive(Clone, Debug, PartialEq)]
pub enum RetryDecision {
    /// Pause, then try again.
    Retry,
    /// Stop with this error.
    GiveUp(AppError),
}

/// After download attempt `attempt` (counting from 1) failed with
/// `last_error`: try again while attempts remain, else give up quoting the
/// last error.
pub fn download_retry(attempt: u32, last_error: &str) -> (r: RetryDecision)
    requires
        1 <= attempt <= DOWNLOAD_ATTEMPTS,
    ensures
        attempt < DOWNLOAD_ATTEMPTS ==> r is Retry,
        attempt == DOWNLOAD_ATTEMPTS ==> (r matches RetryDecision::GiveUp(AppError::TtsService(e))
            && e@ == "下载百炼 TTS 音频失败 (3次重试): "@ + last_error@),
{
    if attempt < DOWNLOAD_ATTEMPTS {
        RetryDecision::Retry
    } else {
        let mut e = owned("下载百炼 TTS 音频失败 (3次重试): ");
        append_str(&mut e, last_error);
        RetryDecision::GiveUp(AppError::TtsService(e))
    }
}

// ---------------------------------------------------------------------------
// Uploaded audio and voice enrollment
// ---------------------------------------------------------------------------

/// Decodes base64 audio sent by the user interface; an undecodable upload is
/// a file-system error quoting the decoder.
pub fn decode_upload(audio_base64: &str) -> (r: Result<Vec<u8>, AppError>)
    ensures
        (match base64_decoding(audio_base64@) {
            Ok(b) => r matches Ok(x) && x@ == b,
            Err(m) => r matches Err(AppError::FileSystem(e)) && e@ == "base64 decode: "@ + m,
        }),
        r matches Ok(x) ==> base64_encoding(x@) == audio_base64@,
        (exists|b: Seq<u8>| #[trigger] base64_encoding(b) == audio_base64@) ==> r is Ok,
{
    match base64_decode(audio_base64) {
        Ok(b) => Ok(b),
        Err(m) => {
            let mut e = owned("base64 decode: ");
            append_str(&mut e, m.as_str());
            Err(AppError::FileSystem(e))
        },
    }
}

/// The data URI that carries uploaded audio to voice enrollment: the upload
/// decoded and encoded again as `data:audio/mpeg;base64,...`.
pub fn voice_data_uri(audio_base64: &str) -> (r: Result<String, AppError>)
    ensures
        (match base64_decoding(audio_base64@) {
            Ok(b) => r matches Ok(u) && u@ == "data:audio/mpeg;base64,"@ + base64_encoding(b),
            Err(m) => r matches Err(AppError::FileSystem(e)) && e@ == "base64 decode: "@ + m,
        }),
        r matches Ok(u) ==> u@ == "data:audio/mpeg;base64,"@ + audio_base64@,
        (exists|b: Seq<u8>| #[trigger] base64_encoding(b) == audio_base64@) ==> r is Ok,
{
    match decode_upload(audio_base64) {
        Ok(bytes) => {
            let mut u = owned("data:audio/mpeg;base64,");
            let enc = base64_encode(bytes.as_slice());
            append_str(&mut u, enc.as_str());
            Ok(u)
        },
        Err(e) => Err(e),
    }
}

/// The voice enrollment request: create a voice for `target_model` named
/// `preferred_name` from the audio in `data_uri`. Keys are in `serde_json`'s
/// (sorted) order.
pub open spec fn enrollment_text(target_model: Seq<char>, preferred_name: Seq<char>, data_uri: Seq<char>) -> Seq<char> {
    "{\"input\":{\"action\":\"create\",\"audio\":{\"data\":"@ + json_quoted(data_uri)
        + "},\"preferred_name\":"@ + json_quoted(preferred_name) + ",\"target_model\":"@
        + json_quoted(target_model) + "},\"model\":\"qwen-voice-enrollment\"}"@
}

/// Builds the voice enrollment request; see [`enrollment_text`].
pub fn enrollment_payload(target_model: &str, preferred_name: &str, data_uri: &str) -> (r: String)
    ensures
        r@ == enrollment_text(target_model@, preferred_name@, data_uri@),
{
    let mut r = owned("{\"input\":{\"action\":\"create\",\"audio\":{\"data\":");
    let qd = json_string(data_uri);
    append_str(&mut r, qd.as_str());
    append_str(&mut r, "},\"preferred_name\":");
    let qn = json_string(preferred_name);
    append_str(&mut r, qn.as_str());
    append_str(&mut r, ",\"target_model\":");
    let qm = json_string(target_model);
    append_str(&mut r, qm.as_str());
    append_str(&mut r, "},\"model\":\"qwen-voice-enrollment\"}");
    r
}

} // verus!
