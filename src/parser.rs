//! The frame grammar: recognises one complete frame at the start of a byte window.
use vstd::prelude::*;
use vstd::string::StringSliceAdditionalSpecFns;
use crate::headers::{HeaderMap, headers_of, lookup};
use crate::lex::{
    lit_at, blanks_end, byte_end, digits_end, decimal, trim_end, starts_with_at, find_byte,
    skip_blanks, skip_digits, decimal_value, trimmed_end, copy_range,
    lemma_digits_end_bounds, lemma_blanks_end_before, decimal_text, is_digit, lemma_decimal_text,
    lemma_digits_end_at, is_ws, is_blank,
};

verus! {

/// Outcome marker at the start of a reply text.
#[derive(Debug, Clone, Copy, PartialEq, Eq, Structural)]
pub enum Code {
    Success,
    Failure,
}

/// The window does not start with a complete frame of a recognised shape.
#[derive(Debug, Clone, Copy, PartialEq, Eq, Structural)]
pub enum Errors {
    Unrecognized,
}

/// Reply to a directly issued command or api call.
#[derive(Debug, Clone, PartialEq, Eq)]
pub struct CommandAndApiReplyBody {
    pub headers: HeaderMap,
    pub code: Code,
    /// Whether the reply text began with an outcome marker (`+OK` or `-ERR`).
    pub marked: bool,
    pub reply_text: Vec<u8>,
    pub job_uuid: Option<Vec<u8>>,
}

/// An asynchronous notification.
#[derive(Debug, Clone, PartialEq, Eq)]
pub struct BackgroundEvent {
    pub code: Code,
    pub body: Vec<u8>,
    pub headers: HeaderMap,
}

/// One decoded frame.
#[derive(Debug, Clone, PartialEq, Eq)]
pub enum FreeswitchReply {
    AuthRequest,
    CommandAndApiReply(CommandAndApiReplyBody),
    DisconnectNotice(Vec<u8>),
    Event(BackgroundEvent),
}

pub struct ReplyBodyView {
    pub headers: Seq<(Seq<u8>, Seq<u8>)>,
    pub code: Code,
    pub marked: bool,
    pub reply_text: Seq<u8>,
    pub job_uuid: Option<Seq<u8>>,
}

pub struct EventView {
    pub code: Code,
    pub body: Seq<u8>,
    pub headers: Seq<(Seq<u8>, Seq<u8>)>,
}

pub enum ReplyView {
    AuthRequest,
    CommandAndApiReply(ReplyBodyView),
    DisconnectNotice(Seq<u8>),
    Event(EventView),
}

impl View for CommandAndApiReplyBody {
    type V = ReplyBodyView;

    open spec fn view(&self) -> ReplyBodyView {
        ReplyBodyView {
            headers: self.headers@,
            code: self.code,
            marked: self.marked,
            reply_text: self.reply_text@,
            job_uuid: match self.job_uuid {
                Some(j) => Some(j@),
                None => None,
            },
        }
    }
}

impl View for BackgroundEvent {
    type V = EventView;

    open spec fn view(&self) -> EventView {
        EventView { code: self.code, body: self.body@, headers: self.headers@ }
    }
}

impl View for FreeswitchReply {
    type V = ReplyView;

    open spec fn view(&self) -> ReplyView {
        match self {
            FreeswitchReply::AuthRequest => ReplyView::AuthRequest,
            FreeswitchReply::CommandAndApiReply(b) => ReplyView::CommandAndApiReply(b@),
            FreeswitchReply::DisconnectNotice(m) => ReplyView::DisconnectNotice(m@),
            FreeswitchReply::Event(e) => ReplyView::Event(e@),
        }
    }
}

impl CommandAndApiReplyBody {
    pub open spec fn wf(&self) -> bool {
        self.headers.wf()
    }
}

impl BackgroundEvent {
    pub open spec fn wf(&self) -> bool {
        self.headers.wf()
    }
}

impl FreeswitchReply {
    pub open spec fn wf(&self) -> bool {
        match self {
            FreeswitchReply::CommandAndApiReply(b) => b.wf(),
            FreeswitchReply::Event(e) => e.wf(),
            _ => true,
        }
    }
}

pub open spec fn newline() -> Seq<u8> {
    "\n".spec_bytes()
}

pub open spec fn blank_line() -> Seq<u8> {
    "\n\n".spec_bytes()
}

pub open spec fn ok_marker() -> Seq<u8> {
    "+OK".spec_bytes()
}

pub open spec fn err_marker() -> Seq<u8> {
    "-ERR".spec_bytes()
}

pub open spec fn auth_request_frame() -> Seq<u8> {
    "Content-Type: auth/request\n\n".spec_bytes()
}

pub open spec fn command_reply_head() -> Seq<u8> {
    "Content-Type: command/reply\nReply-Text: ".spec_bytes()
}

pub open spec fn job_uuid_line() -> Seq<u8> {
    "\nJob-UUID: ".spec_bytes()
}

pub open spec fn api_response_head() -> Seq<u8> {
    "Content-Type: api/response\nContent-Length: ".spec_bytes()
}

pub open spec fn disconnect_head() -> Seq<u8> {
    "Content-Type: text/disconnect-notice\nContent-Length: ".spec_bytes()
}

pub open spec fn event_length_head() -> Seq<u8> {
    "Content-Length: ".spec_bytes()
}

pub open spec fn event_plain_type() -> Seq<u8> {
    "\nContent-Type: text/event-plain\n\n".spec_bytes()
}

pub open spec fn content_length_name() -> Seq<u8> {
    "Content-Length".spec_bytes()
}

pub open spec fn content_type_name() -> Seq<u8> {
    "Content-Type".spec_bytes()
}

pub open spec fn command_reply_type() -> Seq<u8> {
    "command/reply".spec_bytes()
}

/// The outcome marker at `p`, and where it ends.
pub open spec fn code_at(s: Seq<u8>, p: int) -> Option<(Code, int)> {
    if lit_at(s, p, ok_marker()) {
        Some((Code::Success, p + ok_marker().len()))
    } else if lit_at(s, p, err_marker()) {
        Some((Code::Failure, p + err_marker().len()))
    } else {
        None
    }
}

/// An optional outcome marker at `p`, and where the text after it and its blanks starts; no
/// marker means success, with the text starting at `p`.
pub open spec fn opt_code_at(s: Seq<u8>, p: int) -> (Code, int) {
    match code_at(s, p) {
        Some((c, e)) => (c, blanks_end(s, e)),
        None => (Code::Success, p),
    }
}

/// A reply text: an optional marker with the blanks after it, then the text without trailing
/// whitespace. Without a marker the whole text counts, leading blanks included.
pub open spec fn body_reply(b: Seq<u8>) -> (Code, Seq<u8>) {
    let (code, p) = opt_code_at(b, 0);
    (code, trim_end(b.subrange(p, b.len() as int)))
}

/// A decimal length at `p` that fits in 32 bits, and where its digits end.
pub open spec fn length_at(s: Seq<u8>, p: int) -> Option<(nat, int)> {
    let e = digits_end(s, p);
    if 0 <= p && p < e && decimal(s.subrange(p, e)) <= u32::MAX {
        Some((decimal(s.subrange(p, e)), e))
    } else {
        None
    }
}

/// One `Key: Value` line at `p`: its key, its value and where the next line starts.
pub open spec fn key_value_at(s: Seq<u8>, p: int) -> Option<(Seq<u8>, Seq<u8>, int)> {
    let e = byte_end(s, p, 10);
    let c = byte_end(s, p, 58);
    if 0 <= p <= s.len() && e < s.len() && c < e {
        Some((s.subrange(p, c), s.subrange(blanks_end(s, c + 1), e), e + 1))
    } else {
        None
    }
}

/// The longest run of `Key: Value` lines from `p`, and where it ends.
pub open spec fn key_values(s: Seq<u8>, p: int) -> (Seq<(Seq<u8>, Seq<u8>)>, int)
    decreases s.len() - p,
{
    match key_value_at(s, p) {
        Some((k, v, q)) => if p < q <= s.len() {
            let (rest, e) = key_values(s, q);
            (seq![(k, v)] + rest, e)
        } else {
            (Seq::empty(), p)
        },
        None => (Seq::empty(), p),
    }
}

/// At least one `Key: Value` line from `p`: the header block they make and where they end.
pub open spec fn colon_separated(s: Seq<u8>, p: int) -> Option<(Seq<(Seq<u8>, Seq<u8>)>, int)> {
    let (lines, e) = key_values(s, p);
    if lines.len() > 0 {
        Some((headers_of(lines), e))
    } else {
        None
    }
}

/// Whether a reply text starts with an outcome marker.
pub open spec fn body_marked(b: Seq<u8>) -> bool {
    code_at(b, 0) is Some
}

pub open spec fn command_view(
    code: Code,
    marked: bool,
    text: Seq<u8>,
    job: Option<Seq<u8>>,
) -> ReplyView {
    ReplyView::CommandAndApiReply(
        ReplyBodyView { headers: Seq::empty(), code, marked, reply_text: text, job_uuid: job },
    )
}

pub open spec fn spec_auth_request(s: Seq<u8>) -> Option<(ReplyView, int)> {
    if lit_at(s, 0, auth_request_frame()) {
        Some((ReplyView::AuthRequest, auth_request_frame().len() as int))
    } else {
        None
    }
}

pub open spec fn spec_command_reply_with_job_uuid(s: Seq<u8>) -> Option<(ReplyView, int)> {
    let (code, p2) = opt_code_at(s, command_reply_head().len() as int);
    let e = byte_end(s, p2, 10);
    let j0 = e + job_uuid_line().len();
    let j1 = byte_end(s, j0, 10);
    if lit_at(s, 0, command_reply_head()) && lit_at(s, e, job_uuid_line()) && lit_at(
        s,
        j1,
        blank_line(),
    ) {
        Some(
            (
                command_view(
                    code,
                    code_at(s, command_reply_head().len() as int) is Some,
                    s.subrange(p2, e),
                    Some(s.subrange(j0, j1)),
                ),
                j1 + blank_line().len(),
            ),
        )
    } else {
        None
    }
}

pub open spec fn spec_command_reply(s: Seq<u8>) -> Option<(ReplyView, int)> {
    let (code, p2) = opt_code_at(s, command_reply_head().len() as int);
    let e = byte_end(s, p2, 10);
    if lit_at(s, 0, command_reply_head()) && lit_at(s, e, blank_line()) {
        Some(
            (
                command_view(
                    code,
                    code_at(s, command_reply_head().len() as int) is Some,
                    s.subrange(p2, e),
                    None,
                ),
                e + blank_line().len(),
            ),
        )
    } else {
        None
    }
}

pub open spec fn spec_api_response(s: Seq<u8>) -> Option<(ReplyView, int)> {
    if !lit_at(s, 0, api_response_head()) {
        None
    } else {
        match length_at(s, api_response_head().len() as int) {
            Some((n, p1)) => if lit_at(s, p1, blank_line()) && p1 + blank_line().len() + n
                <= s.len() {
                let b0 = p1 + blank_line().len();
                let body = s.subrange(b0, b0 + n);
                let (code, text) = body_reply(body);
                Some((command_view(code, body_marked(body), text, None), b0 + n))
            } else {
                None
            },
            None => None,
        }
    }
}

pub open spec fn spec_disconnect_event(s: Seq<u8>) -> Option<(ReplyView, int)> {
    if !lit_at(s, 0, disconnect_head()) {
        None
    } else {
        match length_at(s, disconnect_head().len() as int) {
            Some((n, p1)) => if lit_at(s, p1, blank_line()) && n >= 1 && lit_at(
                s,
                p1 + blank_line().len() + n - 1,
                blank_line(),
            ) {
                let b0 = p1 + blank_line().len();
                Some(
                    (
                        ReplyView::DisconnectNotice(s.subrange(b0, b0 + n - 1)),
                        b0 + n - 1 + blank_line().len(),
                    ),
                )
            } else {
                None
            },
            None => None,
        }
    }
}

/// A header value that is a decimal length and nothing else.
pub open spec fn whole_length(v: Seq<u8>) -> Option<nat> {
    match length_at(v, 0) {
        Some((m, e)) => if e == v.len() {
            Some(m)
        } else {
            None
        },
        None => None,
    }
}

/// The event that a header block `h` makes, with the body that follows it in `c` at `he`: no
/// body when `h` declares no `Content-Length`, else exactly that many bytes after a blank line,
/// which must all be present before `end`.
pub open spec fn event_with_body(
    c: Seq<u8>,
    h: Seq<(Seq<u8>, Seq<u8>)>,
    he: int,
    end: int,
) -> Option<(EventView, int)> {
    match lookup(h, content_length_name()) {
        None => Some((EventView { code: Code::Success, body: Seq::empty(), headers: h }, he)),
        Some(lv) => match whole_length(lv) {
            None => None,
            Some(m) => if lit_at(c, he, newline()) && he + newline().len() + m <= end {
                let b0 = he + newline().len();
                let (code, text) = body_reply(c.subrange(b0, b0 + m));
                Some((EventView { code, body: text, headers: h }, b0 + m))
            } else {
                None
            },
        },
    }
}

/// The event's header lines, its blank line and its body, which ends at `e`, take the whole
/// block `c`.
pub open spec fn fills_block(c: Seq<u8>, h: Seq<(Seq<u8>, Seq<u8>)>, he: int, e: int) -> bool {
    match lookup(h, content_length_name()) {
        None => lit_at(c, he, newline()) && he + newline().len() == c.len(),
        Some(_) => e == c.len(),
    }
}

/// A plain event: `Content-Length: n`, its content type and a blank line, then exactly `n` bytes
/// of event headers, a blank line and, when the headers declare a length, the event's body.
pub open spec fn spec_plain_event(s: Seq<u8>) -> Option<(ReplyView, int)> {
    let p0 = event_length_head().len() as int;
    if !lit_at(s, 0, event_length_head()) {
        None
    } else {
        match length_at(s, p0) {
            None => None,
            Some((n, p1)) => {
                let c0 = p1 + event_plain_type().len();
                let after = c0 + n;
                if !lit_at(s, p1, event_plain_type()) || after > s.len() {
                    None
                } else {
                    let c = s.subrange(c0, after);
                    match colon_separated(c, 0) {
                        None => None,
                        Some((h, he)) => match event_with_body(c, h, he, n as int) {
                            None => None,
                            Some((ev, e)) => if fills_block(c, h, he, e) {
                                Some((ReplyView::Event(ev), after))
                            } else {
                                None
                            },
                        },
                    }
                }
            },
        }
    }
}

/// A bare header block whose content type is `command/reply`, with the body it declares.
pub open spec fn spec_colon_seperated_reply(s: Seq<u8>) -> Option<(ReplyView, int)> {
    match colon_separated(s, 0) {
        Some((h, e)) => if lit_at(s, e, newline()) && lookup(h, content_type_name()) == Some(
            command_reply_type(),
        ) {
            match lookup(h, content_length_name()) {
                None => Some(
                    (
                        ReplyView::Event(
                            EventView { code: Code::Success, body: Seq::empty(), headers: h },
                        ),
                        e + newline().len(),
                    ),
                ),
                Some(_) => match event_with_body(s, h, e, s.len() as int) {
                    None => None,
                    Some((ev, end)) => Some((ReplyView::Event(ev), end)),
                },
            }
        } else {
            None
        },
        None => None,
    }
}

/// The frame at the start of `s`, trying each shape in priority order.
pub open spec fn spec_any_frame(s: Seq<u8>) -> Option<(ReplyView, int)> {
    if spec_command_reply_with_job_uuid(s) is Some {
        spec_command_reply_with_job_uuid(s)
    } else if spec_command_reply(s) is Some {
        spec_command_reply(s)
    } else if spec_api_response(s) is Some {
        spec_api_response(s)
    } else if spec_plain_event(s) is Some {
        spec_plain_event(s)
    } else if spec_disconnect_event(s) is Some {
        spec_disconnect_event(s)
    } else if spec_auth_request(s) is Some {
        spec_auth_request(s)
    } else {
        spec_colon_seperated_reply(s)
    }
}

/// `r` is what `spec` describes: the frame and the number of bytes it took, or a failure.
pub open spec fn parsed_as(
    r: Result<(FreeswitchReply, usize), Errors>,
    spec: Option<(ReplyView, int)>,
) -> bool {
    match (r, spec) {
        (Ok((f, n)), Some((v, m))) => f@ == v && n == m && f.wf(),
        (Err(_), None) => true,
        _ => false,
    }
}

} // verus!

verus! {

/// The outcome marker at `p`.
fn marker_at(s: &[u8], p: usize) -> (r: Option<(Code, usize)>)
    ensures
        match r {
            Some((c, e)) => code_at(s@, p as int) == Some((c, e as int)),
            None => code_at(s@, p as int) is None,
        },
{
    let ok = "+OK".as_bytes();
    let err = "-ERR".as_bytes();
    if starts_with_at(s, p, ok) {
        Some((Code::Success, p + ok.len()))
    } else if starts_with_at(s, p, err) {
        Some((Code::Failure, p + err.len()))
    } else {
        None
    }
}

/// An optional outcome marker at `p`.
fn opt_marker_at(s: &[u8], p: usize) -> (r: (Code, usize))
    requires
        p <= s@.len(),
    ensures
        (r.0, r.1 as int) == opt_code_at(s@, p as int),
        p <= r.1 <= s@.len(),
{
    match marker_at(s, p) {
        Some((c, e)) => (c, skip_blanks(s, e)),
        None => (Code::Success, p),
    }
}

/// Recognises `+OK`.
pub fn parse_ok(input: &[u8]) -> (r: Result<(Code, usize), Errors>)
    ensures
        r is Ok <==> lit_at(input@, 0, ok_marker()),
        r is Ok ==> r == Ok::<(Code, usize), Errors>((Code::Success, ok_marker().len() as usize)),
{
    let ok = "+OK".as_bytes();
    if starts_with_at(input, 0, ok) {
        Ok((Code::Success, ok.len()))
    } else {
        Err(Errors::Unrecognized)
    }
}

/// Recognises `-ERR`.
pub fn parse_err(input: &[u8]) -> (r: Result<(Code, usize), Errors>)
    ensures
        r is Ok <==> lit_at(input@, 0, err_marker()),
        r is Ok ==> r == Ok::<(Code, usize), Errors>((Code::Failure, err_marker().len() as usize)),
{
    let err = "-ERR".as_bytes();
    if starts_with_at(input, 0, err) {
        Ok((Code::Failure, err.len()))
    } else {
        Err(Errors::Unrecognized)
    }
}

/// Recognises an outcome marker: `+OK` or `-ERR`.
pub fn parse_code(input: &[u8]) -> (r: Result<(Code, usize), Errors>)
    ensures
        match r {
            Ok((c, n)) => code_at(input@, 0) == Some((c, n as int)),
            Err(_) => code_at(input@, 0) is None,
        },
{
    match marker_at(input, 0) {
        Some(c) => Ok(c),
        None => Err(Errors::Unrecognized),
    }
}

/// Recognises the blank line that ends a header block.
pub fn two_newlines(input: &[u8]) -> (r: Result<usize, Errors>)
    ensures
        r is Ok <==> lit_at(input@, 0, blank_line()),
        r is Ok ==> r == Ok::<usize, Errors>(blank_line().len() as usize),
{
    let nl = "\n\n".as_bytes();
    if starts_with_at(input, 0, nl) {
        Ok(nl.len())
    } else {
        Err(Errors::Unrecognized)
    }
}

/// Splits a reply text into its outcome and its text.
pub fn parse_body(input: &[u8]) -> (r: (Code, Vec<u8>))
    ensures
        r.0 == body_reply(input@).0,
        r.1@ == body_reply(input@).1,
{
    let (code, q) = opt_marker_at(input, 0);
    let e = trimmed_end(input, q, input.len());
    (code, copy_range(input, q, e))
}

/// The decimal length at `p`.
fn length_field_at(s: &[u8], p: usize) -> (r: Option<(u32, usize)>)
    requires
        p <= s@.len(),
    ensures
        match r {
            Some((n, e)) => length_at(s@, p as int) == Some((n as nat, e as int)) && p < e
                <= s@.len(),
            None => length_at(s@, p as int) is None,
        },
{
    let e = skip_digits(s, p);
    if e == p {
        return None;
    }
    proof {
        lemma_digits_end_bounds(s@, p as int);
    }
    match decimal_value(s, p, e) {
        Some(v) => Some((v, e)),
        None => None,
    }
}

/// Recognises a decimal length that fits in 32 bits.
pub fn parse_content_length(input: &[u8]) -> (r: Result<(u32, usize), Errors>)
    ensures
        match r {
            Ok((n, e)) => length_at(input@, 0) == Some((n as nat, e as int)),
            Err(_) => length_at(input@, 0) is None,
        },
{
    match length_field_at(input, 0) {
        Some(x) => Ok(x),
        None => Err(Errors::Unrecognized),
    }
}

/// A header value that holds a decimal length and nothing else.
pub fn parse_whole_length(v: &[u8]) -> (r: Option<u32>)
    ensures
        match r {
            Some(m) => whole_length(v@) == Some(m as nat),
            None => whole_length(v@) is None,
        },
{
    match length_field_at(v, 0) {
        Some((m, e)) => if e == v.len() {
            Some(m)
        } else {
            None
        },
        None => None,
    }
}

/// One `Key: Value` line at `p`.
fn key_value_at_pos(s: &[u8], p: usize) -> (r: Result<(Vec<u8>, Vec<u8>, usize), Errors>)
    requires
        p <= s@.len(),
    ensures
        match key_value_at(s@, p as int) {
            Some((k, v, q)) => r matches Ok((k2, v2, q2)) && k2@ == k && v2@ == v && q2 == q && p
                < q2 <= s@.len(),
            None => r is Err,
        },
{
    let e = find_byte(s, p, 10);
    let c = find_byte(s, p, 58);
    if e >= s.len() || c >= e {
        return Err(Errors::Unrecognized);
    }
    proof {
        lemma_blanks_end_before(s@, c + 1, e as int);
    }
    let v = skip_blanks(s, c + 1);
    Ok((copy_range(s, p, c), copy_range(s, v, e), e + 1))
}

/// Recognises one `Key: Value` line.
pub fn parse_key_value(input: &[u8]) -> (r: Result<(Vec<u8>, Vec<u8>, usize), Errors>)
    ensures
        match key_value_at(input@, 0) {
            Some((k, v, q)) => r matches Ok((k2, v2, q2)) && k2@ == k && v2@ == v && q2 == q,
            None => r is Err,
        },
{
    key_value_at_pos(input, 0)
}

/// One or more `Key: Value` lines from `p`.
fn colon_separated_at(s: &[u8], p: usize) -> (r: Result<(HeaderMap, usize), Errors>)
    requires
        p <= s@.len(),
    ensures
        match colon_separated(s@, p as int) {
            Some((h, e)) => r matches Ok((m, n)) && m@ == h && n == e && m.wf() && n <= s@.len(),
            None => r is Err,
        },
{
    let mut map = HeaderMap::new();
    let mut i = p;
    let ghost mut acc: Seq<(Seq<u8>, Seq<u8>)> = Seq::empty();
    let mut found = false;
    assert(acc + key_values(s@, p as int).0 =~= key_values(s@, p as int).0);
    loop
        invariant
            p <= i <= s@.len(),
            map.wf(),
            map@ == headers_of(acc),
            found == (acc.len() > 0),
            key_values(s@, p as int) == (acc + key_values(s@, i as int).0, key_values(
                s@,
                i as int,
            ).1),
        ensures
            found == (acc.len() > 0),
            p <= i <= s@.len(),
            map.wf(),
            map@ == headers_of(acc),
            key_values(s@, p as int) == (acc + key_values(s@, i as int).0, key_values(
                s@,
                i as int,
            ).1),
            key_value_at(s@, i as int) is None,
        decreases s@.len() - i,
    {
        match key_value_at_pos(s, i) {
            Ok((k, v, q)) => {
                let ghost x = (k@, v@);
                proof {
                    let rest = key_values(s@, q as int);
                    assert(key_values(s@, i as int) == (seq![x] + rest.0, rest.1));
                    assert(acc + (seq![x] + rest.0) =~= acc.push(x) + rest.0);
                    assert(acc.push(x).drop_last() =~= acc);
                    acc = acc.push(x);
                }
                map.insert(k, v);
                i = q;
                found = true;
            },
            Err(_) => {
                break ;
            },
        }
    }
    assert(acc + key_values(s@, i as int).0 =~= acc);
    if !found {
        return Err(Errors::Unrecognized);
    }
    Ok((map, i))
}

/// Recognises one or more `Key: Value` lines and gathers them into a header block.
pub fn parse_colon_seperated(input: &[u8]) -> (r: Result<(HeaderMap, usize), Errors>)
    ensures
        match colon_separated(input@, 0) {
            Some((h, e)) => r matches Ok((m, n)) && m@ == h && n == e && m.wf(),
            None => r is Err,
        },
{
    colon_separated_at(input, 0)
}

pub fn parse_auth_request(input: &[u8]) -> (r: Result<(FreeswitchReply, usize), Errors>)
    ensures
        parsed_as(r, spec_auth_request(input@)),
{
    let frame = "Content-Type: auth/request\n\n".as_bytes();
    if starts_with_at(input, 0, frame) {
        Ok((FreeswitchReply::AuthRequest, frame.len()))
    } else {
        Err(Errors::Unrecognized)
    }
}

pub fn parse_command_reply_with_job_uuid(input: &[u8]) -> (r: Result<
    (FreeswitchReply, usize),
    Errors,
>)
    ensures
        parsed_as(r, spec_command_reply_with_job_uuid(input@)),
{
    let head = "Content-Type: command/reply\nReply-Text: ".as_bytes();
    if !starts_with_at(input, 0, head) {
        return Err(Errors::Unrecognized);
    }
    let (code, p2) = opt_marker_at(input, head.len());
    let e = find_byte(input, p2, 10);
    let job = "\nJob-UUID: ".as_bytes();
    if !starts_with_at(input, e, job) {
        return Err(Errors::Unrecognized);
    }
    let j0 = e + job.len();
    let j1 = find_byte(input, j0, 10);
    let bl = "\n\n".as_bytes();
    if !starts_with_at(input, j1, bl) {
        return Err(Errors::Unrecognized);
    }
    let body = CommandAndApiReplyBody {
        headers: HeaderMap::new(),
        code,
        marked: marker_at(input, head.len()).is_some(),
        reply_text: copy_range(input, p2, e),
        job_uuid: Some(copy_range(input, j0, j1)),
    };
    Ok((FreeswitchReply::CommandAndApiReply(body), j1 + bl.len()))
}

pub fn parse_command_reply(input: &[u8]) -> (r: Result<(FreeswitchReply, usize), Errors>)
    ensures
        parsed_as(r, spec_command_reply(input@)),
{
    let head = "Content-Type: command/reply\nReply-Text: ".as_bytes();
    if !starts_with_at(input, 0, head) {
        return Err(Errors::Unrecognized);
    }
    let (code, p2) = opt_marker_at(input, head.len());
    let e = find_byte(input, p2, 10);
    let bl = "\n\n".as_bytes();
    if !starts_with_at(input, e, bl) {
        return Err(Errors::Unrecognized);
    }
    let body = CommandAndApiReplyBody {
        headers: HeaderMap::new(),
        code,
        marked: marker_at(input, head.len()).is_some(),
        reply_text: copy_range(input, p2, e),
        job_uuid: None,
    };
    Ok((FreeswitchReply::CommandAndApiReply(body), e + bl.len()))
}

pub fn parse_api_response(input: &[u8]) -> (r: Result<(FreeswitchReply, usize), Errors>)
    ensures
        parsed_as(r, spec_api_response(input@)),
{
    let head = "Content-Type: api/response\nContent-Length: ".as_bytes();
    if !starts_with_at(input, 0, head) {
        return Err(Errors::Unrecognized);
    }
    let (n, p1) = match length_field_at(input, head.len()) {
        Some(x) => x,
        None => return Err(Errors::Unrecognized),
    };
    let bl = "\n\n".as_bytes();
    if !starts_with_at(input, p1, bl) {
        return Err(Errors::Unrecognized);
    }
    let b0 = p1 + bl.len();
    if n as usize > input.len() - b0 {
        return Err(Errors::Unrecognized);
    }
    let content = copy_range(input, b0, b0 + n as usize);
    let (code, text) = parse_body(content.as_slice());
    let body = CommandAndApiReplyBody {
        headers: HeaderMap::new(),
        code,
        marked: marker_at(content.as_slice(), 0).is_some(),
        reply_text: text,
        job_uuid: None,
    };
    Ok((FreeswitchReply::CommandAndApiReply(body), b0 + n as usize))
}

pub fn parse_disconnect_event(input: &[u8]) -> (r: Result<(FreeswitchReply, usize), Errors>)
    ensures
        parsed_as(r, spec_disconnect_event(input@)),
{
    let head = "Content-Type: text/disconnect-notice\nContent-Length: ".as_bytes();
    if !starts_with_at(input, 0, head) {
        return Err(Errors::Unrecognized);
    }
    let (n, p1) = match length_field_at(input, head.len()) {
        Some(x) => x,
        None => return Err(Errors::Unrecognized),
    };
    let bl = "\n\n".as_bytes();
    if !starts_with_at(input, p1, bl) || n == 0 {
        return Err(Errors::Unrecognized);
    }
    let b0 = p1 + bl.len();
    if n as usize - 1 > input.len() - b0 {
        return Err(Errors::Unrecognized);
    }
    let e = b0 + (n as usize - 1);
    if !starts_with_at(input, e, bl) {
        return Err(Errors::Unrecognized);
    }
    Ok((FreeswitchReply::DisconnectNotice(copy_range(input, b0, e)), e + bl.len()))
}

/// The event made of the header block `headers` (parsed from `c`, ending at `he`) and the
/// body that it declares.
fn event_from_block(c: &[u8], headers: HeaderMap, he: usize, end: usize) -> (r: Result<
    (BackgroundEvent, usize),
    Errors,
>)
    requires
        headers.wf(),
        he <= end <= c@.len(),
    ensures
        match event_with_body(c@, headers@, he as int, end as int) {
            Some((ev, e)) => r matches Ok((x, e2)) && x@ == ev && x.wf() && e2 == e,
            None => r is Err,
        },
{
    let declared = match headers.get("Content-Length".as_bytes()) {
        Some(lv) => Some(parse_whole_length(lv.as_slice())),
        None => None,
    };
    match declared {
        None => Ok((BackgroundEvent { code: Code::Success, body: Vec::new(), headers }, he)),
        Some(None) => Err(Errors::Unrecognized),
        Some(Some(m)) => {
            let nl = "\n".as_bytes();
            if !starts_with_at(c, he, nl) || he + nl.len() > end || m as usize > end - he
                - nl.len() {
                return Err(Errors::Unrecognized);
            }
            let b0 = he + nl.len();
            let inner = copy_range(c, b0, b0 + m as usize);
            let (code, body) = parse_body(inner.as_slice());
            Ok((BackgroundEvent { code, body, headers }, b0 + m as usize))
        },
    }
}

pub fn parse_plain_event(input: &[u8]) -> (r: Result<(FreeswitchReply, usize), Errors>)
    ensures
        parsed_as(r, spec_plain_event(input@)),
{
    let head = "Content-Length: ".as_bytes();
    if !starts_with_at(input, 0, head) {
        return Err(Errors::Unrecognized);
    }
    let (n, p1) = match length_field_at(input, head.len()) {
        Some(x) => x,
        None => return Err(Errors::Unrecognized),
    };
    let ty = "\nContent-Type: text/event-plain\n\n".as_bytes();
    if !starts_with_at(input, p1, ty) {
        return Err(Errors::Unrecognized);
    }
    let c0 = p1 + ty.len();
    if n as usize > input.len() - c0 {
        return Err(Errors::Unrecognized);
    }
    let after = c0 + n as usize;
    let content = copy_range(input, c0, after);
    let (headers, he) = match colon_separated_at(content.as_slice(), 0) {
        Ok(x) => x,
        Err(e) => return Err(e),
    };
    let declared = headers.get("Content-Length".as_bytes()).is_some();
    let nl = "\n".as_bytes();
    let blank_ends = starts_with_at(content.as_slice(), he, nl) && he + nl.len() == content.len();
    match event_from_block(content.as_slice(), headers, he, n as usize) {
        Ok((ev, e)) => if (declared && e == content.len()) || (!declared && blank_ends) {
            Ok((FreeswitchReply::Event(ev), after))
        } else {
            Err(Errors::Unrecognized)
        },
        Err(e) => Err(e),
    }
}

/// A bare header block whose `Content-Type` is `command/reply`, with the body it declares.
pub fn parse_colon_seperated_reply(input: &[u8]) -> (r: Result<(FreeswitchReply, usize), Errors>)
    ensures
        parsed_as(r, spec_colon_seperated_reply(input@)),
{
    let (headers, e) = match colon_separated_at(input, 0) {
        Ok(x) => x,
        Err(err) => return Err(err),
    };
    let nl = "\n".as_bytes();
    if !starts_with_at(input, e, nl) || !headers.has_value(
        "Content-Type".as_bytes(),
        "command/reply".as_bytes(),
    ) {
        return Err(Errors::Unrecognized);
    }
    if headers.get("Content-Length".as_bytes()).is_none() {
        let ev = BackgroundEvent { code: Code::Success, body: Vec::new(), headers };
        return Ok((FreeswitchReply::Event(ev), e + nl.len()));
    }
    match event_from_block(input, headers, e, input.len()) {
        Ok((ev, end)) => Ok((FreeswitchReply::Event(ev), end)),
        Err(err) => Err(err),
    }
}

/// Recognises the frame at the start of `input`, whatever its shape.
pub fn parse_any_freeswitch_event(input: &[u8]) -> (r: Result<(FreeswitchReply, usize), Errors>)
    ensures
        parsed_as(r, spec_any_frame(input@)),
{
    let r = parse_command_reply_with_job_uuid(input);
    if r.is_ok() {
        return r;
    }
    let r = parse_command_reply(input);
    if r.is_ok() {
        return r;
    }
    let r = parse_api_response(input);
    if r.is_ok() {
        return r;
    }
    let r = parse_plain_event(input);
    if r.is_ok() {
        return r;
    }
    let r = parse_disconnect_event(input);
    if r.is_ok() {
        return r;
    }
    let r = parse_auth_request(input);
    if r.is_ok() {
        return r;
    }
    parse_colon_seperated_reply(input)
}

} // verus!

verus! {

/// An `api/response` frame whose declared length is that of `body`.
pub open spec fn api_response_frame(body: Seq<u8>) -> Seq<u8> {
    api_response_head() + decimal_text(body.len()) + blank_line() + body
}

/// The reply that an `api/response` frame with this body stands for.
pub open spec fn api_response_reply(body: Seq<u8>) -> ReplyView {
    command_view(body_reply(body).0, body_marked(body), body_reply(body).1, None)
}

pub proof fn lemma_frame_literals()
    ensures
        api_response_head().len() == 43,
        command_reply_head().len() == 40,
        api_response_head()[14] == 97,
        auth_request_frame().len() == 28,
        command_reply_head()[14] == 99,
        blank_line() == seq![10u8, 10u8],
        newline() == seq![10u8],
{
    reveal_strlit("Content-Type: api/response\nContent-Length: ");
    reveal_strlit("Content-Type: command/reply\nReply-Text: ");
    reveal_strlit("\n\n");
    reveal_strlit("\n");
    reveal_strlit("Content-Type: auth/request\n\n");
    vstd::string::is_ascii_spec_bytes("Content-Type: auth/request\n\n");
    vstd::string::is_ascii_spec_bytes("Content-Type: api/response\nContent-Length: ");
    vstd::string::is_ascii_spec_bytes("Content-Type: command/reply\nReply-Text: ");
    vstd::string::is_ascii_spec_bytes("\n\n");
    vstd::string::is_ascii_spec_bytes("\n");
}

/// Encoding a body as an `api/response` frame and decoding it gives back the body's reply, and
/// the decoder takes exactly the frame's bytes, whatever follows them.
pub proof fn lemma_api_response_round_trip(body: Seq<u8>, rest: Seq<u8>)
    requires
        body.len() <= u32::MAX,
    ensures
        spec_any_frame(api_response_frame(body) + rest) == Some(
            (api_response_reply(body), api_response_frame(body).len() as int),
        ),
{
    lemma_frame_literals();
    lemma_decimal_text(body.len());
    let h = api_response_head();
    let d = decimal_text(body.len());
    let bl = blank_line();
    let f = api_response_frame(body);
    let s = f + rest;
    let p0 = h.len() as int;
    let p1 = p0 + d.len();
    let b0 = p1 + 2;
    assert(s.subrange(0, p0) =~= h);
    assert(s.subrange(p0, p1) =~= d);
    assert(s.subrange(p1, p1 + 2) =~= bl);
    assert(s.subrange(b0, b0 + body.len()) =~= body);
    assert forall|i: int| p0 <= i < p1 implies is_digit(#[trigger] s[i]) by {
        assert(s[i] == d[i - p0]);
    }
    assert(s[p1] == 10);
    lemma_digits_end_at(s, p0, d.len() as int);
    assert(length_at(s, p0) == Some((body.len(), p1)));
    assert(spec_api_response(s) == Some((api_response_reply(body), f.len() as int)));
    assert(s[14] == 97);
    assert(!lit_at(s, 0, command_reply_head())) by {
        if lit_at(s, 0, command_reply_head()) {
            assert(s.subrange(0, 40)[14] == command_reply_head()[14]);
        }
    }
}

} // verus!

verus! {

/// Every recognised frame takes at least one byte, and no more than there are.
pub proof fn lemma_frame_takes_bytes(s: Seq<u8>)
    ensures
        spec_any_frame(s) matches Some((_, n)) ==> 0 < n <= s.len(),
{
    lemma_frame_literals();
}

} // verus!

verus! {

/// A length-declaring head `head` at the start of `s`, its length, then `sep`; and fewer than
/// `extra + n` bytes after `sep`.
pub open spec fn short_after(s: Seq<u8>, head: Seq<u8>, sep: Seq<u8>, extra: int) -> bool {
    lit_at(s, 0, head) && match length_at(s, head.len() as int) {
        Some((n, p1)) => lit_at(s, p1, sep) && p1 + sep.len() + extra + n > s.len(),
        None => false,
    }
}

/// A bare `command/reply` header block that declares a body not yet all present.
pub open spec fn bare_block_short(s: Seq<u8>) -> bool {
    match colon_separated(s, 0) {
        Some((h, e)) => lit_at(s, e, newline()) && lookup(h, content_type_name()) == Some(
            command_reply_type(),
        ) && match lookup(h, content_length_name()) {
            Some(lv) => match whole_length(lv) {
                Some(m) => e + 2 * newline().len() + m > s.len(),
                None => false,
            },
            None => false,
        },
        None => false,
    }
}

/// The window holds the complete header block of a frame that declares a body, but not yet all
/// of that body.
pub open spec fn awaits_body(s: Seq<u8>) -> bool {
    ||| short_after(s, api_response_head(), blank_line(), 0)
    ||| (short_after(s, disconnect_head(), blank_line(), blank_line().len() - 1) && length_at(
        s,
        disconnect_head().len() as int,
    )->Some_0.0 >= 1)
    ||| short_after(s, event_length_head(), event_plain_type(), 0)
    ||| bare_block_short(s)
}

/// Whether the window waits for the rest of a declared body.
pub fn declared_body_pending(input: &[u8]) -> (r: bool)
    ensures
        r == awaits_body(input@),
{
    let bl = "\n\n".as_bytes();
    let api = "Content-Type: api/response\nContent-Length: ".as_bytes();
    if starts_with_at(input, 0, api) {
        if let Some((n, p1)) = length_field_at(input, api.len()) {
            if starts_with_at(input, p1, bl) && n as usize > input.len() - p1 - bl.len() {
                return true;
            }
        }
    }
    let disc = "Content-Type: text/disconnect-notice\nContent-Length: ".as_bytes();
    if starts_with_at(input, 0, disc) {
        if let Some((n, p1)) = length_field_at(input, disc.len()) {
            if starts_with_at(input, p1, bl) && n >= 1 && (input.len() - p1 - bl.len()
                < bl.len() || n as usize - 1 > input.len() - p1 - 2 * bl.len()) {
                return true;
            }
        }
    }
    let ev = "Content-Length: ".as_bytes();
    let ty = "\nContent-Type: text/event-plain\n\n".as_bytes();
    if starts_with_at(input, 0, ev) {
        if let Some((n, p1)) = length_field_at(input, ev.len()) {
            if starts_with_at(input, p1, ty) && n as usize > input.len() - p1 - ty.len() {
                return true;
            }
        }
    }
    let nl = "\n".as_bytes();
    if let Ok((headers, e)) = colon_separated_at(input, 0) {
        if starts_with_at(input, e, nl) && headers.has_value(
            "Content-Type".as_bytes(),
            "command/reply".as_bytes(),
        ) {
            if let Some(lv) = headers.get("Content-Length".as_bytes()) {
                if let Some(m) = parse_whole_length(lv.as_slice()) {
                    if input.len() - e - nl.len() < nl.len() || m as usize > input.len() - e - 2
                        * nl.len() {
                        return true;
                    }
                }
            }
        }
    }
    false
}

} // verus!

verus! {

/// The outcome marker that stands for `c`.
pub open spec fn marker_of(c: Code) -> Seq<u8> {
    match c {
        Code::Success => ok_marker(),
        Code::Failure => err_marker(),
    }
}

/// A reply text: the marker of `c`, a space, `t` and a line feed.
pub open spec fn reply_text_body(c: Code, t: Seq<u8>) -> Seq<u8> {
    marker_of(c) + " ".spec_bytes() + t + newline()
}

/// Encoding an outcome and a text as an `api/response` frame and decoding it gives back the
/// same outcome and text, for any text without surrounding whitespace.
pub proof fn lemma_reply_text_round_trip(c: Code, t: Seq<u8>, rest: Seq<u8>)
    requires
        t.len() + 6 <= u32::MAX,
        t.len() > 0 ==> !is_ws(t[0]) && !is_ws(t.last()),
    ensures
        spec_any_frame(api_response_frame(reply_text_body(c, t)) + rest) == Some(
            (
                command_view(c, true, t, None),
                api_response_frame(reply_text_body(c, t)).len() as int,
            ),
        ),
{
    reveal_strlit("+OK");
    reveal_strlit("-ERR");
    reveal_strlit(" ");
    vstd::string::is_ascii_spec_bytes("+OK");
    vstd::string::is_ascii_spec_bytes("-ERR");
    vstd::string::is_ascii_spec_bytes(" ");
    lemma_frame_literals();
    let b = reply_text_body(c, t);
    let m = marker_of(c);
    let k = m.len() as int;
    assert(ok_marker() == seq![43u8, 79u8, 75u8]);
    assert(err_marker() == seq![45u8, 69u8, 82u8, 82u8]);
    assert(" ".spec_bytes() == seq![32u8]);
    assert(b.len() == k + t.len() + 2);
    assert(b.subrange(0, k) =~= m);
    if c == Code::Failure {
        assert(b[0] == 45u8);
        assert(!lit_at(b, 0, ok_marker())) by {
            if lit_at(b, 0, ok_marker()) {
                assert(b.subrange(0, 3)[0] == 43u8);
            }
        }
    }
    assert(code_at(b, 0) == Some((c, k)));
    assert(b[k] == 32u8);
    assert(!is_blank(b[k + 1])) by {
        if t.len() > 0 {
            assert(b[k + 1] == t[0]);
        } else {
            assert(b[k + 1] == 10u8);
        }
    }
    assert(blanks_end(b, k + 1) == k + 1);
    assert(blanks_end(b, k) == k + 1);
    let tail = b.subrange(k + 1, b.len() as int);
    assert(tail =~= t.push(10u8));
    assert(tail.drop_last() =~= t);
    assert(trim_end(tail) == trim_end(t));
    assert(trim_end(t) == t);
    assert(body_reply(b) == (c, t));
    lemma_api_response_round_trip(b, rest);
}

} // verus!
