//! Requests to servers on this machine.

use vstd::prelude::*;
use vstd::utf8::{decode_utf8, encode_utf8, is_ascii_chars, valid_utf8};
use crate::bytes::{copy_bytes, find, find_from, find_from_bounds, find_part, push_all, stands_at};
use crate::outside::{decode_exact, hexadecimal_refusal, read_hexadecimal, utf8_refusal};
use crate::text::{
    ascii_lowercase, decimal, decimal_text, has_prefix, hex_number, hex_value, hexadecimal,
    hexadecimal_is_digits, hexadecimal_length, hexadecimal_reads_back, is_space, join, lines,
    lines_of, starts_with, texts, to_lower, trim, trimmed,
};

verus! {

/// The longest body of a response, in bytes.
pub const MAX_RESPONSE_BODY_BYTES: usize = 1048576;

/// The longest headers of a response, in bytes.
pub const MAX_RESPONSE_HEADER_BYTES: usize = 8192;

/// Why a request gave no body.
#[derive(Debug)]
pub enum HttpError {
    MissingHeaders,
    /// The headers are not UTF-8; the text is that of the error.
    HeadersNotText(String),
    MissingChunkSize,
    /// The size of a chunk is not UTF-8; the text is that of the error.
    ChunkSizeNotText(String),
    /// The size of a chunk is not a number; the text is that of the error.
    ChunkSizeInvalid(String),
    TooLarge,
    ShortChunk,
    /// The body is not UTF-8; the text is that of the error.
    BodyNotText(String),
    /// The host was stopped.
    Stopped,
    TimedOut,
    /// The connection failed; the text is that of the error.
    Failed(String),
}

/// Why a request gave no body, with texts as sequences.
pub enum HttpProblem {
    MissingHeaders,
    HeadersNotText(Seq<char>),
    MissingChunkSize,
    ChunkSizeNotText(Seq<char>),
    ChunkSizeInvalid(Seq<char>),
    TooLarge,
    ShortChunk,
    BodyNotText(Seq<char>),
    Stopped,
    TimedOut,
    Failed(Seq<char>),
}

impl View for HttpError {
    type V = HttpProblem;

    open spec fn view(&self) -> HttpProblem {
        match *self {
            HttpError::MissingHeaders => HttpProblem::MissingHeaders,
            HttpError::HeadersNotText(message) => HttpProblem::HeadersNotText(message@),
            HttpError::MissingChunkSize => HttpProblem::MissingChunkSize,
            HttpError::ChunkSizeNotText(message) => HttpProblem::ChunkSizeNotText(message@),
            HttpError::ChunkSizeInvalid(message) => HttpProblem::ChunkSizeInvalid(message@),
            HttpError::TooLarge => HttpProblem::TooLarge,
            HttpError::ShortChunk => HttpProblem::ShortChunk,
            HttpError::BodyNotText(message) => HttpProblem::BodyNotText(message@),
            HttpError::Stopped => HttpProblem::Stopped,
            HttpError::TimedOut => HttpProblem::TimedOut,
            HttpError::Failed(message) => HttpProblem::Failed(message@),
        }
    }
}

impl HttpProblem {
    /// The message of an error.
    pub open spec fn text(self) -> Seq<char> {
        match self {
            HttpProblem::MissingHeaders => "missing headers"@,
            HttpProblem::HeadersNotText(message) => message,
            HttpProblem::MissingChunkSize => "missing chunk size"@,
            HttpProblem::ChunkSizeNotText(message) => message,
            HttpProblem::ChunkSizeInvalid(message) => message,
            HttpProblem::TooLarge => "HTTP response body too large"@,
            HttpProblem::ShortChunk => "short chunk body"@,
            HttpProblem::BodyNotText(message) => message,
            HttpProblem::Stopped => "extension host stopped"@,
            HttpProblem::TimedOut => "local HTTP request timed out"@,
            HttpProblem::Failed(message) => message,
        }
    }
}

impl HttpError {
    /// The message of an error.
    pub fn to_text(&self) -> (out: String)
        ensures
            out@ == self@.text(),
    {
        match self {
            HttpError::MissingHeaders => "missing headers".to_owned(),
            HttpError::HeadersNotText(message) => message.clone(),
            HttpError::MissingChunkSize => "missing chunk size".to_owned(),
            HttpError::ChunkSizeNotText(message) => message.clone(),
            HttpError::ChunkSizeInvalid(message) => message.clone(),
            HttpError::TooLarge => "HTTP response body too large".to_owned(),
            HttpError::ShortChunk => "short chunk body".to_owned(),
            HttpError::BodyNotText(message) => message.clone(),
            HttpError::Stopped => "extension host stopped".to_owned(),
            HttpError::TimedOut => "local HTTP request timed out".to_owned(),
            HttpError::Failed(message) => message.clone(),
        }
    }
}

/// The end of a line.
pub open spec fn crlf() -> Seq<u8> {
    seq![13u8, 10u8]
}

/// The end of the headers.
pub open spec fn headers_end() -> Seq<u8> {
    seq![13u8, 10u8, 13u8, 10u8]
}

/// The text of a request.
pub open spec fn request(port: u16, path: Seq<char>) -> Seq<char> {
    "GET "@ + path + " HTTP/1.1\r\nHost: 127.0.0.1:"@ + decimal(port as nat)
        + "\r\nConnection: close\r\n\r\n"@
}

/// The text of a request to a server on this machine.
pub fn request_text(port: u16, path: &str) -> (out: String)
    ensures
        out@ == request(port, path@),
{
    let a = join("GET ", path);
    let b = join(&a, " HTTP/1.1\r\nHost: 127.0.0.1:");
    let c = join(&b, &decimal_text(port as u64));
    join(&c, "\r\nConnection: close\r\n\r\n")
}

/// What the chunks of a body come to, after what was read of it before.
pub open spec fn dechunked(body: Seq<u8>, before: Seq<u8>) -> Result<Seq<u8>, HttpProblem>
    decreases body.len(),
    via dechunked_shrinks
{
    match find(body, crlf()) {
        None => Err(HttpProblem::MissingChunkSize),
        Some(end) => {
            let line = body.take(end);
            let rest = body.skip(end + 2);
            if !valid_utf8(line) {
                Err(HttpProblem::ChunkSizeNotText(utf8_refusal(line)))
            } else {
                match hex_number(trim(decode_utf8(line)), usize::MAX as nat) {
                    None => Err(
                        HttpProblem::ChunkSizeInvalid(
                            hexadecimal_refusal(trim(decode_utf8(line))),
                        ),
                    ),
                    Some(size) => if size == 0 {
                        Ok(before)
                    } else if before.len() + size > MAX_RESPONSE_BODY_BYTES {
                        Err(HttpProblem::TooLarge)
                    } else if size + 2 > rest.len() {
                        Err(HttpProblem::ShortChunk)
                    } else {
                        dechunked(rest.skip(size as int + 2), before + rest.take(size as int))
                    },
                }
            }
        },
    }
}

#[via_fn]
proof fn dechunked_shrinks(body: Seq<u8>, before: Seq<u8>) {
    find_from_bounds(body, crlf(), 0);
}

/// Whether the headers say that the body comes in chunks.
pub open spec fn is_chunked(headers: Seq<char>) -> bool {
    exists|i: int|
        0 <= i < lines_of(headers).len() && starts_with(
            ascii_lowercase(#[trigger] lines_of(headers)[i]),
            "transfer-encoding: chunked"@,
        )
}

/// The body of a response.
pub open spec fn body_of(response: Seq<u8>) -> Result<Seq<char>, HttpProblem> {
    match find(response, headers_end()) {
        None => Err(HttpProblem::MissingHeaders),
        Some(end) => {
            let headers = response.take(end);
            let body = response.skip(end + 4);
            if !valid_utf8(headers) {
                Err(HttpProblem::HeadersNotText(utf8_refusal(headers)))
            } else {
                let bytes = if is_chunked(decode_utf8(headers)) {
                    dechunked(body, Seq::empty())
                } else if body.len() > MAX_RESPONSE_BODY_BYTES {
                    Err(HttpProblem::TooLarge)
                } else {
                    Ok(body)
                };
                match bytes {
                    Err(error) => Err(error),
                    Ok(bytes) => if valid_utf8(bytes) {
                        Ok(decode_utf8(bytes))
                    } else {
                        Err(HttpProblem::BodyNotText(utf8_refusal(bytes)))
                    },
                }
            }
        },
    }
}

/// The bytes from one position up to another.
fn cut(bytes: &[u8], from: usize, to: usize) -> (out: Vec<u8>)
    requires
        from <= to <= bytes@.len(),
    ensures
        out@ == bytes@.subrange(from as int, to as int),
{
    copy_bytes(vstd::slice::slice_subrange(bytes, from, to))
}

/// Position of the first line end.
pub fn find_crlf(bytes: &[u8]) -> (out: Option<usize>)
    ensures
        match out {
            Some(i) => find(bytes@, crlf()) == Some(i as int) && i + 2 <= bytes@.len(),
            None => find(bytes@, crlf()) is None,
        },
{
    let part: Vec<u8> = vec![13u8, 10u8];
    assert(part@ =~= crlf());
    find_part(bytes, &part)
}

/// Puts the chunks of a body together.
pub fn decode_chunked_body(body: &[u8]) -> (out: Result<Vec<u8>, HttpError>)
    ensures
        match out {
            Ok(bytes) => dechunked(body@, Seq::empty()) == Ok::<Seq<u8>, HttpProblem>(bytes@),
            Err(error) => dechunked(body@, Seq::empty()) == Err::<Seq<u8>, HttpProblem>(error@),
        },
{
    let count = body.len();
    let mut out: Vec<u8> = Vec::new();
    let mut offset: usize = 0;
    assert(body@.skip(0) =~= body@);
    assert(out@ =~= Seq::<u8>::empty());
    loop
        invariant
            offset <= count,
            count == body@.len(),
            out@.len() <= MAX_RESPONSE_BODY_BYTES,
            dechunked(body@.skip(offset as int), out@) == dechunked(body@, Seq::empty()),
        decreases count - offset,
    {
        let ghost rest = body@.skip(offset as int);
        let tail = vstd::slice::slice_subrange(body, offset, count);
        assert(tail@ =~= rest);
        let end = match find_crlf(tail) {
            Some(end) => end,
            None => {
                return Err(HttpError::MissingChunkSize);
            },
        };
        let line = cut(tail, 0, end);
        assert(line@ =~= rest.take(end as int));
        let text = match decode_exact(line) {
            Ok(text) => text,
            Err(message) => {
                return Err(HttpError::ChunkSizeNotText(message));
            },
        };
        let digits = trimmed(&text);
        let size = match read_hexadecimal(&digits) {
            Ok(size) => size,
            Err(message) => {
                return Err(HttpError::ChunkSizeInvalid(message));
            },
        };
        if size == 0 {
            return Ok(out);
        }
        if size > MAX_RESPONSE_BODY_BYTES - out.len() {
            return Err(HttpError::TooLarge);
        }
        let start = offset + end + 2;
        assert(rest.skip(end + 2) =~= body@.skip(start as int));
        if count - start < 2 || size > count - start - 2 {
            return Err(HttpError::ShortChunk);
        }
        let ghost before = out@;
        let piece = vstd::slice::slice_subrange(body, start, start + size);
        assert(piece@ =~= rest.skip(end + 2).take(size as int));
        push_all(&mut out, piece);
        assert(rest.skip(end + 2).skip(size + 2) =~= body@.skip(start + size + 2));
        offset = start + size + 2;
    }
}

fn says_chunked(headers: &str) -> (out: bool)
    ensures
        out == is_chunked(headers@),
{
    let all = lines(headers);
    let mut i: usize = 0;
    while i < all.len()
        invariant
            i <= all@.len(),
            texts(all@) == lines_of(headers@),
            forall|j: int|
                0 <= j < i ==> !starts_with(
                    ascii_lowercase(#[trigger] lines_of(headers@)[j]),
                    "transfer-encoding: chunked"@,
                ),
        decreases all@.len() - i,
    {
        assert(texts(all@)[i as int] == all@[i as int]@);
        let low = to_lower(&all[i]);
        if has_prefix(&low, "transfer-encoding: chunked") {
            return true;
        }
        i = i + 1;
    }
    assert(texts(all@).len() == all@.len());
    false
}

/// The body of a response, as text.
pub fn response_body(response: &[u8]) -> (out: Result<String, HttpError>)
    ensures
        match out {
            Ok(text) => body_of(response@) == Ok::<Seq<char>, HttpProblem>(text@),
            Err(error) => body_of(response@) == Err::<Seq<char>, HttpProblem>(error@),
        },
{
    let count = response.len();
    let part: Vec<u8> = vec![13u8, 10u8, 13u8, 10u8];
    assert(part@ =~= headers_end());
    let end = match find_part(response, &part) {
        Some(end) => end,
        None => {
            return Err(HttpError::MissingHeaders);
        },
    };
    let head = cut(response, 0, end);
    assert(head@ =~= response@.take(end as int));
    let headers = match decode_exact(head) {
        Ok(headers) => headers,
        Err(message) => {
            return Err(HttpError::HeadersNotText(message));
        },
    };
    let body = vstd::slice::slice_subrange(response, end + 4, count);
    assert(body@ =~= response@.skip(end + 4));
    let bytes = if says_chunked(&headers) {
        match decode_chunked_body(body) {
            Ok(bytes) => bytes,
            Err(error) => {
                return Err(error);
            },
        }
    } else {
        if body.len() > MAX_RESPONSE_BODY_BYTES {
            return Err(HttpError::TooLarge);
        }
        copy_bytes(body)
    };
    match decode_exact(bytes) {
        Ok(text) => Ok(text),
        Err(message) => Err(HttpError::BodyNotText(message)),
    }
}

/// A body that comes in chunks is never longer than the limit.
pub proof fn chunked_body_is_capped(body: Seq<u8>, before: Seq<u8>)
    requires
        before.len() <= MAX_RESPONSE_BODY_BYTES,
    ensures
        dechunked(body, before) matches Ok(bytes) ==> bytes.len() <= MAX_RESPONSE_BODY_BYTES,
    decreases body.len(),
{
    find_from_bounds(body, crlf(), 0);
    match find(body, crlf()) {
        None => {},
        Some(end) => {
            let line = body.take(end);
            let rest = body.skip(end + 2);
            match hex_number(trim(decode_utf8(line)), usize::MAX as nat) {
                None => {},
                Some(size) => {
                    if size > 0 && before.len() + size <= MAX_RESPONSE_BODY_BYTES && size + 2
                        <= rest.len() {
                        chunked_body_is_capped(rest.skip(size as int + 2), before + rest.take(size as int));
                    }
                },
            }
        },
    }
}

/// Whether a line gives the size of a chunk.
pub open spec fn is_size_line(line: Seq<u8>, size: nat) -> bool {
    &&& !line.contains(13)
    &&& valid_utf8(line)
    &&& hex_number(trim(decode_utf8(line)), usize::MAX as nat) == Some(size)
}

/// A size in hexadecimal, in so many digits.
pub open spec fn size_line(size: nat, width: nat) -> Seq<u8> {
    encode_utf8(hexadecimal(size, width))
}

/// A body in chunks: before each chunk a line with its size, and at the end a line with the size
/// zero. Whatever comes after that is no part of the body.
pub open spec fn chunked(
    sizes: Seq<Seq<u8>>,
    chunks: Seq<Seq<u8>>,
    end: Seq<u8>,
    after: Seq<u8>,
) -> Seq<u8>
    decreases chunks.len(),
{
    if chunks.len() == 0 {
        end + crlf() + after
    } else {
        sizes[0] + crlf() + chunks[0] + crlf() + chunked(
            sizes.drop_first(),
            chunks.drop_first(),
            end,
            after,
        )
    }
}

/// The chunks in a row.
pub open spec fn in_a_row(chunks: Seq<Seq<u8>>) -> Seq<u8>
    decreases chunks.len(),
{
    if chunks.len() == 0 {
        Seq::empty()
    } else {
        chunks[0] + in_a_row(chunks.drop_first())
    }
}

proof fn no_end_within(line: Seq<u8>, rest: Seq<u8>, j: int)
    requires
        !line.contains(13),
        0 <= j < line.len(),
    ensures
        !stands_at(line + crlf() + rest, crlf(), j),
{
    let all = line + crlf() + rest;
    if stands_at(all, crlf(), j) {
        let window = all.subrange(j, j + 2);
        assert(window == crlf());
        assert(window[0] == 13);
        assert(window[0] == all[j]);
        assert(line[j] == 13);
    }
}

proof fn line_ends(line: Seq<u8>, rest: Seq<u8>)
    requires
        !line.contains(13),
    ensures
        find(line + crlf() + rest, crlf()) == Some(line.len() as int),
        (line + crlf() + rest).take(line.len() as int) == line,
        (line + crlf() + rest).skip(line.len() as int + 2) == rest,
{
    let all = line + crlf() + rest;
    let n = line.len() as int;
    assert(stands_at(all, crlf(), n)) by {
        assert(all.subrange(n, n + 2) =~= crlf());
    }
    assert(find(all, crlf()) == Some(n)) by {
        find_from_bounds(all, crlf(), 0);
        let found = find_from(all, crlf(), 0);
        assert(found is Some);
        let i = found.unwrap();
        if i < n {
            no_end_within(line, rest, i);
        }
    }
    assert(all.take(n) =~= line);
    assert(all.skip(n + 2) =~= rest);
}

/// A body that was cut into chunks is put together again. Where it would be longer than the limit, it
/// is refused.
pub proof fn chunks_are_put_together(
    sizes: Seq<Seq<u8>>,
    chunks: Seq<Seq<u8>>,
    end: Seq<u8>,
    after: Seq<u8>,
    before: Seq<u8>,
)
    requires
        sizes.len() == chunks.len(),
        forall|i: int|
            0 <= i < chunks.len() ==> (#[trigger] chunks[i]).len() > 0 && is_size_line(
                sizes[i],
                chunks[i].len(),
            ),
        is_size_line(end, 0),
    ensures
        dechunked(chunked(sizes, chunks, end, after), before) == (if chunks.len() == 0
            || before.len() + in_a_row(chunks).len() <= MAX_RESPONSE_BODY_BYTES {
            Ok::<Seq<u8>, HttpProblem>(before + in_a_row(chunks))
        } else {
            Err(HttpProblem::TooLarge)
        }),
    decreases chunks.len(),
{
    let body = chunked(sizes, chunks, end, after);
    if chunks.len() == 0 {
        line_ends(end, after);
        assert(before + in_a_row(chunks) =~= before);
    } else {
        let fewer = chunks.drop_first();
        let left = sizes.drop_first();
        let tail = chunked(left, fewer, end, after);
        let chunk = chunks[0];
        let n = chunk.len() as int;
        let rest = chunk + crlf() + tail;
        assert(body =~= sizes[0] + crlf() + rest);
        line_ends(sizes[0], rest);
        assert(rest.take(n) =~= chunk);
        assert(rest.skip(n + 2) =~= tail);
        assert forall|i: int| 0 <= i < fewer.len() implies (#[trigger] fewer[i]).len() > 0
            && is_size_line(left[i], fewer[i].len()) by {
            assert(fewer[i] == chunks[i + 1]);
            assert(left[i] == sizes[i + 1]);
        }
        chunks_are_put_together(left, fewer, end, after, before + chunk);
        assert(before + chunk + in_a_row(fewer) =~= before + in_a_row(chunks));
    }
}

proof fn trimming_nothing(s: Seq<char>)
    requires
        forall|i: int| 0 <= i < s.len() ==> !is_space(#[trigger] s[i]),
    ensures
        trim(s) == s,
{
    if s.len() > 0 {
        assert(!is_space(s[0]));
        assert(!is_space(s[s.len() - 1]));
    }
}

/// A size in hexadecimal gives the size of a chunk.
pub proof fn hexadecimal_gives_the_size(size: nat, width: nat)
    requires
        width > 0,
        size < vstd::arithmetic::power::pow(16, width),
        size <= usize::MAX,
    ensures
        is_size_line(size_line(size, width), size),
{
    let digits = hexadecimal(size, width);
    let line = size_line(size, width);
    hexadecimal_is_digits(size, width);
    hexadecimal_length(size, width);
    hexadecimal_reads_back(size, width, usize::MAX as nat);
    assert forall|i: int| 0 <= i < digits.len() implies !is_space(#[trigger] digits[i]) by {
        assert(hex_value(digits[i]) is Some);
    }
    trimming_nothing(digits);
    vstd::utf8::encode_utf8_valid_utf8(digits);
    vstd::utf8::encode_utf8_decode_utf8(digits);
    assert(is_ascii_chars(digits)) by {
        assert forall|i: int| 0 <= i < digits.len() implies '\0' <= #[trigger] digits[i]
            && digits[i] <= '\u{7f}' by {
            assert(hex_value(digits[i]) is Some);
        }
    }
    vstd::utf8::is_ascii_chars_encode_utf8(digits);
    if line.contains(13) {
        let i = choose|i: int| 0 <= i < line.len() && line[i] == 13;
        assert(hex_value(digits[i]) is Some);
    }
}

/// A body without the line that ends it is refused: where it is taken, there is a line in it that
/// gives the size zero.
pub proof fn chunks_need_their_end(body: Seq<u8>, before: Seq<u8>)
    requires
        dechunked(body, before) is Ok,
    ensures
        exists|from: int, to: int|
            0 <= from <= to && to + 2 <= body.len() && #[trigger] ends_chunks(body, from, to),
    decreases body.len(),
{
    find_from_bounds(body, crlf(), 0);
    let end = find(body, crlf()).unwrap();
    let line = body.take(end);
    let rest = body.skip(end + 2);
    let size = hex_number(trim(decode_utf8(line)), usize::MAX as nat).unwrap() as int;
    if size == 0 {
        assert(body.subrange(0, end) =~= line);
        assert(ends_chunks(body, 0, end));
    } else {
        let tail = rest.skip(size + 2);
        let gone = end + 2 + size + 2;
        chunks_need_their_end(tail, before + rest.take(size));
        let (from, to) = choose|from: int, to: int|
            0 <= from <= to && to + 2 <= tail.len() && #[trigger] ends_chunks(tail, from, to);
        assert(tail =~= body.skip(gone));
        assert(tail.subrange(from, to) =~= body.subrange(gone + from, gone + to));
        assert(tail.subrange(to, to + 2) =~= body.subrange(gone + to, gone + to + 2));
        assert(ends_chunks(body, gone + from, gone + to));
    }
}

/// Whether a line that gives the size zero stands from one position up to another.
pub open spec fn ends_chunks(body: Seq<u8>, from: int, to: int) -> bool {
    let line = body.subrange(from, to);
    &&& valid_utf8(line)
    &&& hex_number(trim(decode_utf8(line)), usize::MAX as nat) == Some(0nat)
    &&& body.subrange(to, to + 2) == crlf()
}

/// What a request waits for.
#[derive(Debug)]
pub enum HttpPhase {
    /// A look whether to go on, before the server is connected to.
    BeforeConnect,
    /// The server is to be connected to.
    Connect,
    /// The connection's timeouts are to be set.
    Configure,
    /// The request is to be sent.
    Send,
    /// A look whether to go on, before the connection is read.
    BeforeRead,
    /// The connection is to be read.
    Read,
    /// A pause; then the request begins again.
    Pause,
    /// The response is complete.
    Complete,
    Failed(HttpError),
}

/// What came of an action of a request. `retry` tells whether a new connection may help.
#[derive(Debug)]
pub enum HttpEvent {
    Looked,
    Connected,
    ConnectTimedOut,
    Configured,
    Sent,
    Received(Vec<u8>),
    Closed,
    NothingYet,
    Paused,
    Failed { message: String, retry: bool },
}

/// A request on its way. Each step is told whether the host was stopped and whether the time ran out.
#[derive(Debug)]
pub struct HttpRequest {
    pub phase: HttpPhase,
    pub response: Vec<u8>,
}

impl HttpRequest {
    /// The failure of a step: the host's end comes before everything else.
    pub open spec fn failure(stopped: bool, error: HttpError) -> HttpPhase {
        if stopped {
            HttpPhase::Failed(HttpError::Stopped)
        } else {
            HttpPhase::Failed(error)
        }
    }

    /// The phase after an event.
    pub open spec fn next_phase(self, event: HttpEvent, stopped: bool, expired: bool) -> HttpPhase {
        match (self.phase, event) {
            (HttpPhase::BeforeConnect, HttpEvent::Looked) => if stopped {
                HttpPhase::Failed(HttpError::Stopped)
            } else if expired {
                HttpPhase::Failed(HttpError::TimedOut)
            } else {
                HttpPhase::Connect
            },
            (HttpPhase::Connect, HttpEvent::Connected) => HttpPhase::Configure,
            (HttpPhase::Connect, HttpEvent::ConnectTimedOut) => HttpPhase::BeforeConnect,
            (HttpPhase::Connect, HttpEvent::Failed { message, retry }) => Self::failure(
                stopped,
                HttpError::Failed(message),
            ),
            (HttpPhase::Configure, HttpEvent::Configured) => HttpPhase::Send,
            (HttpPhase::Configure, HttpEvent::Failed { message, retry }) => Self::failure(
                stopped,
                HttpError::Failed(message),
            ),
            (HttpPhase::Send, HttpEvent::Sent) => HttpPhase::BeforeRead,
            (HttpPhase::Send, HttpEvent::Failed { message, retry }) => if retry && !stopped
                && !expired {
                HttpPhase::Pause
            } else {
                Self::failure(stopped, HttpError::Failed(message))
            },
            (HttpPhase::BeforeRead, HttpEvent::Looked) => if stopped {
                HttpPhase::Failed(HttpError::Stopped)
            } else {
                HttpPhase::Read
            },
            (HttpPhase::Read, HttpEvent::Closed) => if stopped {
                HttpPhase::Failed(HttpError::Stopped)
            } else {
                HttpPhase::Complete
            },
            (HttpPhase::Read, HttpEvent::Received(bytes)) => if stopped {
                HttpPhase::Failed(HttpError::Stopped)
            } else if self.response@.len() + bytes@.len() > MAX_RESPONSE_BODY_BYTES
                + MAX_RESPONSE_HEADER_BYTES {
                HttpPhase::Failed(HttpError::TooLarge)
            } else {
                HttpPhase::BeforeRead
            },
            (HttpPhase::Read, HttpEvent::NothingYet) => if expired {
                Self::failure(stopped, HttpError::TimedOut)
            } else {
                HttpPhase::BeforeRead
            },
            (HttpPhase::Read, HttpEvent::Failed { message, retry }) => if stopped {
                HttpPhase::Failed(HttpError::Stopped)
            } else if retry && !expired {
                HttpPhase::Pause
            } else {
                HttpPhase::Failed(HttpError::Failed(message))
            },
            (HttpPhase::Pause, HttpEvent::Paused) => HttpPhase::BeforeConnect,
            _ => self.phase,
        }
    }

    /// What was received after an event: nothing, where the request begins again.
    pub open spec fn next_response(self, event: HttpEvent, stopped: bool, expired: bool) -> Seq<u8> {
        match (self.phase, event, self.next_phase(event, stopped, expired)) {
            (HttpPhase::Read, HttpEvent::Received(bytes), HttpPhase::BeforeRead) => self.response@
                + bytes@,
            (_, _, HttpPhase::Pause) => Seq::empty(),
            _ => self.response@,
        }
    }

    /// Begins a request.
    pub fn get_local_cancellable() -> (out: Self)
        ensures
            out.phase is BeforeConnect,
            out.response@.len() == 0,
    {
        HttpRequest { phase: HttpPhase::BeforeConnect, response: Vec::new() }
    }

    fn fail(stopped: bool, error: HttpError) -> (out: HttpPhase)
        ensures
            out == Self::failure(stopped, error),
    {
        if stopped {
            HttpPhase::Failed(HttpError::Stopped)
        } else {
            HttpPhase::Failed(error)
        }
    }

    /// Takes what came of the awaited action.
    pub fn step(self, event: HttpEvent, stopped: bool, expired: bool) -> (out: Self)
        ensures
            out.phase == self.next_phase(event, stopped, expired),
            out.response@ == self.next_response(event, stopped, expired),
    {
        let HttpRequest { phase, response } = self;
        match phase {
            HttpPhase::BeforeConnect => match event {
                HttpEvent::Looked => {
                    let phase = if stopped {
                        HttpPhase::Failed(HttpError::Stopped)
                    } else if expired {
                        HttpPhase::Failed(HttpError::TimedOut)
                    } else {
                        HttpPhase::Connect
                    };
                    HttpRequest { phase, response }
                },
                _ => HttpRequest { phase: HttpPhase::BeforeConnect, response },
            },
            HttpPhase::Connect => {
                let phase = match event {
                    HttpEvent::Connected => HttpPhase::Configure,
                    HttpEvent::ConnectTimedOut => HttpPhase::BeforeConnect,
                    HttpEvent::Failed { message, retry } => Self::fail(
                        stopped,
                        HttpError::Failed(message),
                    ),
                    _ => HttpPhase::Connect,
                };
                HttpRequest { phase, response }
            },
            HttpPhase::Configure => {
                let phase = match event {
                    HttpEvent::Configured => HttpPhase::Send,
                    HttpEvent::Failed { message, retry } => Self::fail(
                        stopped,
                        HttpError::Failed(message),
                    ),
                    _ => HttpPhase::Configure,
                };
                HttpRequest { phase, response }
            },
            HttpPhase::Send => match event {
                HttpEvent::Sent => HttpRequest { phase: HttpPhase::BeforeRead, response },
                HttpEvent::Failed { message, retry } => if retry && !stopped && !expired {
                    let empty: Vec<u8> = Vec::new();
                    assert(empty@ =~= Seq::<u8>::empty());
                    HttpRequest { phase: HttpPhase::Pause, response: empty }
                } else {
                    HttpRequest {
                        phase: Self::fail(stopped, HttpError::Failed(message)),
                        response,
                    }
                },
                _ => HttpRequest { phase: HttpPhase::Send, response },
            },
            HttpPhase::BeforeRead => match event {
                HttpEvent::Looked => {
                    let phase = if stopped {
                        HttpPhase::Failed(HttpError::Stopped)
                    } else {
                        HttpPhase::Read
                    };
                    HttpRequest { phase, response }
                },
                _ => HttpRequest { phase: HttpPhase::BeforeRead, response },
            },
            HttpPhase::Read => match event {
                HttpEvent::Closed => {
                    let phase = if stopped {
                        HttpPhase::Failed(HttpError::Stopped)
                    } else {
                        HttpPhase::Complete
                    };
                    HttpRequest { phase, response }
                },
                HttpEvent::Received(bytes) => {
                    if stopped {
                        return HttpRequest {
                            phase: HttpPhase::Failed(HttpError::Stopped),
                            response,
                        };
                    }
                    let limit = MAX_RESPONSE_BODY_BYTES + MAX_RESPONSE_HEADER_BYTES;
                    if response.len() > limit || bytes.len() > limit - response.len() {
                        return HttpRequest {
                            phase: HttpPhase::Failed(HttpError::TooLarge),
                            response,
                        };
                    }
                    let mut response = response;
                    push_all(&mut response, &bytes);
                    HttpRequest { phase: HttpPhase::BeforeRead, response }
                },
                HttpEvent::NothingYet => {
                    let phase = if expired {
                        Self::fail(stopped, HttpError::TimedOut)
                    } else {
                        HttpPhase::BeforeRead
                    };
                    HttpRequest { phase, response }
                },
                HttpEvent::Failed { message, retry } => {
                    if stopped {
                        HttpRequest { phase: HttpPhase::Failed(HttpError::Stopped), response }
                    } else if retry && !expired {
                        let empty: Vec<u8> = Vec::new();
                        assert(empty@ =~= Seq::<u8>::empty());
                        HttpRequest { phase: HttpPhase::Pause, response: empty }
                    } else {
                        HttpRequest {
                            phase: HttpPhase::Failed(HttpError::Failed(message)),
                            response,
                        }
                    }
                },
                _ => HttpRequest { phase: HttpPhase::Read, response },
            },
            HttpPhase::Pause => match event {
                HttpEvent::Paused => HttpRequest { phase: HttpPhase::BeforeConnect, response },
                _ => {
                    let empty: Vec<u8> = Vec::new();
                    assert(empty@ =~= Seq::<u8>::empty());
                    HttpRequest { phase: HttpPhase::Pause, response: empty }
                },
            },
            HttpPhase::Complete => HttpRequest { phase: HttpPhase::Complete, response },
            HttpPhase::Failed(error) => HttpRequest { phase: HttpPhase::Failed(error), response },
        }
    }

    /// What a request came to; `None` while it goes on.
    pub fn finish(self) -> (out: Option<Result<String, HttpError>>)
        ensures
            match self.phase {
                HttpPhase::Complete => match body_of(self.response@) {
                    Ok(body) => out matches Some(Ok(text)) && text@ == body,
                    Err(problem) => out matches Some(Err(error)) && error@ == problem,
                },
                HttpPhase::Failed(error) => out == Some(Err::<String, HttpError>(error)),
                _ => out is None,
            },
    {
        match self.phase {
            HttpPhase::Complete => Some(response_body(&self.response)),
            HttpPhase::Failed(error) => Some(Err(error)),
            _ => None,
        }
    }
}

/// Once the host was stopped, a request ends with that error at its next look, read or failure.
pub proof fn stopped_request_ends(request: HttpRequest, event: HttpEvent, expired: bool)
    requires
        request.phase is BeforeConnect || request.phase is BeforeRead || request.phase is Read,
        request.phase is Read ==> event is Closed || event is Received || event is Failed,
        !(request.phase is Read) ==> event is Looked,
    ensures
        request.next_phase(event, true, expired) == HttpPhase::Failed(HttpError::Stopped),
{
}

/// What a request holds of a response stays within the limits of headers and body.
pub proof fn request_is_bounded(request: HttpRequest, event: HttpEvent, stopped: bool, expired: bool)
    requires
        request.response@.len() <= MAX_RESPONSE_BODY_BYTES + MAX_RESPONSE_HEADER_BYTES,
    ensures
        request.next_response(event, stopped, expired).len() <= MAX_RESPONSE_BODY_BYTES
            + MAX_RESPONSE_HEADER_BYTES,
{
}

/// A request names the path that it asks for and the server on this machine that it asks.
pub proof fn request_names_its_path(port: u16, path: Seq<char>)
    ensures
        request(port, path) == "GET "@ + path + " HTTP/1.1\r\n"@ + "Host: 127.0.0.1:"@ + decimal(
            port as nat,
        ) + "\r\n"@ + "Connection: close\r\n"@ + "\r\n"@,
{
    reveal_strlit(" HTTP/1.1\r\n");
    reveal_strlit("Host: 127.0.0.1:");
    reveal_strlit(" HTTP/1.1\r\nHost: 127.0.0.1:");
    reveal_strlit("\r\n");
    reveal_strlit("Connection: close\r\n");
    reveal_strlit("\r\nConnection: close\r\n\r\n");
    assert(" HTTP/1.1\r\nHost: 127.0.0.1:"@ =~= " HTTP/1.1\r\n"@ + "Host: 127.0.0.1:"@);
    assert("\r\nConnection: close\r\n\r\n"@ =~= "\r\n"@ + "Connection: close\r\n"@ + "\r\n"@);
    assert(request(port, path) =~= "GET "@ + path + " HTTP/1.1\r\n"@ + "Host: 127.0.0.1:"@
        + decimal(port as nat) + "\r\n"@ + "Connection: close\r\n"@ + "\r\n"@);
}

/// The body of a response is what follows its headers: as it stands, or put together where it comes in
/// chunks. It is refused where it is too large or is no text.
pub proof fn body_follows_the_headers(headers: Seq<u8>, body: Seq<u8>)
    requires
        valid_utf8(headers),
        find(headers + seq![13u8, 10u8, 13u8, 10u8] + body, seq![13u8, 10u8, 13u8, 10u8]) == Some(
            headers.len() as int,
        ),
    ensures
        ({
            let response = headers + seq![13u8, 10u8, 13u8, 10u8] + body;
            if !is_chunked(decode_utf8(headers)) {
                &&& body.len() <= 1048576 && valid_utf8(body) ==> body_of(response) == Ok::<
                    Seq<char>,
                    HttpProblem,
                >(decode_utf8(body))
                &&& body.len() > 1048576 ==> body_of(response) == Err::<Seq<char>, HttpProblem>(
                    HttpProblem::TooLarge,
                )
                &&& !valid_utf8(body) ==> body_of(response) is Err
            } else {
                match dechunked(body, Seq::empty()) {
                    Ok(bytes) => if valid_utf8(bytes) {
                        body_of(response) == Ok::<Seq<char>, HttpProblem>(decode_utf8(bytes))
                    } else {
                        body_of(response) is Err
                    },
                    Err(problem) => body_of(response) == Err::<Seq<char>, HttpProblem>(problem),
                }
            }
        }),
{
    let response = headers + seq![13u8, 10u8, 13u8, 10u8] + body;
    let n = headers.len() as int;
    assert(response.take(n) =~= headers);
    assert(response.skip(n + 4) =~= body);
}

/// A body comes in chunks exactly where one of the lines of the headers says so, in whatever case it is
/// written.
pub proof fn chunks_are_announced(headers: Seq<char>, i: int, rest: Seq<char>)
    requires
        0 <= i < lines_of(headers).len(),
    ensures
        ascii_lowercase(lines_of(headers)[i]) == "transfer-encoding: chunked"@ + rest ==> is_chunked(
            headers,
        ),
        (forall|k: int|
            0 <= k < lines_of(headers).len() ==> !starts_with(
                ascii_lowercase(#[trigger] lines_of(headers)[k]),
                "transfer-encoding: chunked"@,
            )) ==> !is_chunked(headers),
{
    let mark = "transfer-encoding: chunked"@;
    assert((mark + rest).take(mark.len() as int) =~= mark);
}

/// A request that is stopped ends as stopped as soon as that is looked at, and one whose time is over gives
/// up; a connection that waits is looked at again.
pub proof fn requests_are_given_up(http: HttpRequest, event: HttpEvent, stopped: bool, expired: bool)
    ensures
        ({
            let then = http.next_phase(event, stopped, expired);
            &&& event is Looked && (http.phase is BeforeConnect || http.phase is BeforeRead) && stopped
                ==> then == HttpPhase::Failed(HttpError::Stopped)
            &&& event is Looked && http.phase is BeforeConnect && !stopped && expired ==> then
                == HttpPhase::Failed(HttpError::TimedOut)
            &&& event is Looked && http.phase is BeforeConnect && !stopped && !expired ==> then
                is Connect
            &&& event is Looked && http.phase is BeforeRead && !stopped ==> then is Read
            &&& event is NothingYet && http.phase is Read && !stopped && expired ==> then
                == HttpPhase::Failed(HttpError::TimedOut)
            &&& event is NothingYet && http.phase is Read && !expired ==> then is BeforeRead
            &&& event is Closed && http.phase is Read && !stopped ==> then is Complete
            &&& then is Complete && !(http.phase is Complete) ==> http.phase is Read && event is Closed
            &&& event is Connected && http.phase is Connect ==> then is Configure
            &&& event is ConnectTimedOut && http.phase is Connect ==> then is BeforeConnect
            &&& event is Configured && http.phase is Configure ==> then is Send
            &&& event is Sent && http.phase is Send ==> then is BeforeRead
            &&& event is Paused && http.phase is Pause ==> then is BeforeConnect
        }),
{
}

/// What is received is added to what came before, up to the limits; a request that begins again has
/// nothing.
pub proof fn responses_add_up(http: HttpRequest, bytes: Vec<u8>, expired: bool)
    requires
        http.phase is Read,
    ensures
        ({
            let event = HttpEvent::Received(bytes);
            let fits = http.response@.len() + bytes@.len() <= 1056768;
            &&& fits ==> http.next_response(event, false, expired) == http.response@ + bytes@
            &&& fits ==> http.next_phase(event, false, expired) is BeforeRead
            &&& !fits ==> http.next_phase(event, false, expired) == HttpPhase::Failed(
                HttpError::TooLarge,
            )
            &&& http.next_phase(event, true, expired) == HttpPhase::Failed(HttpError::Stopped)
        }),
{
}

/// A request whose connection failed is tried again only where the failure allows it and there is time;
/// otherwise the failure is what is told, unless the host stopped.
pub proof fn failures_are_tried_again(
    http: HttpRequest,
    message: String,
    retry: bool,
    stopped: bool,
    expired: bool,
)
    requires
        http.phase is Send || http.phase is Read || http.phase is Connect || http.phase is Configure,
    ensures
        ({
            let event = HttpEvent::Failed { message, retry };
            let again = retry && !stopped && !expired && (http.phase is Send || http.phase is Read);
            let then = http.next_phase(event, stopped, expired);
            &&& then is Pause <==> again
            &&& again ==> http.next_response(event, stopped, expired).len() == 0
            &&& stopped ==> then == HttpPhase::Failed(HttpError::Stopped)
            &&& !again && !stopped ==> then == HttpPhase::Failed(HttpError::Failed(message))
        }),
{
}

/// What is wrong with a response is told apart: it has no end of its headers, or they are no text; a chunk
/// has no size, or one that is no number, is too large, or is not all there.
pub proof fn wrong_responses_are_told_apart(
    response: Seq<u8>,
    line: Seq<u8>,
    rest: Seq<u8>,
    before: Seq<u8>,
)
    requires
        !line.contains(13),
    ensures
        find(response, seq![13u8, 10u8, 13u8, 10u8]) is None ==> body_of(response) == Err::<
            Seq<char>,
            HttpProblem,
        >(HttpProblem::MissingHeaders),
        find(response, seq![13u8, 10u8, 13u8, 10u8]) matches Some(end) ==> (!valid_utf8(
            response.take(end),
        ) ==> body_of(response) == Err::<Seq<char>, HttpProblem>(
            HttpProblem::HeadersNotText(utf8_refusal(response.take(end))),
        )),
        dechunked(line, before) == Err::<Seq<u8>, HttpProblem>(HttpProblem::MissingChunkSize),
        !valid_utf8(line) ==> dechunked(line + seq![13u8, 10u8] + rest, before) == Err::<
            Seq<u8>,
            HttpProblem,
        >(HttpProblem::ChunkSizeNotText(utf8_refusal(line))),
        valid_utf8(line) ==> {
            let text = trim(decode_utf8(line));
            let out = dechunked(line + seq![13u8, 10u8] + rest, before);
            match hex_number(text, usize::MAX as nat) {
                None => out == Err::<Seq<u8>, HttpProblem>(
                    HttpProblem::ChunkSizeInvalid(hexadecimal_refusal(text)),
                ),
                Some(size) => {
                    &&& size == 0 ==> out == Ok::<Seq<u8>, HttpProblem>(before)
                    &&& size > 0 && before.len() + size > 1048576 ==> out == Err::<
                        Seq<u8>,
                        HttpProblem,
                    >(HttpProblem::TooLarge)
                    &&& size > 0 && before.len() + size <= 1048576 && rest.len() < size + 2 ==> out
                        == Err::<Seq<u8>, HttpProblem>(HttpProblem::ShortChunk)
                },
            }
        },
{
    let mark = seq![13u8, 10u8];
    let body = line + mark + rest;
    let n = line.len() as int;
    assert(crlf() =~= mark);
    assert(headers_end() =~= seq![13u8, 10u8, 13u8, 10u8]);
    find_from_bounds(body, crlf(), 0);
    find_from_bounds(line, crlf(), 0);
    assert(body.subrange(n, n + 2) =~= crlf());
    assert(stands_at(body, crlf(), n));
    match find(body, crlf()) {
        Some(at) => {
            if at < n {
                assert(body.subrange(at, at + 2)[0] == body[at]);
                assert(body[at] == line[at]);
                assert(line.contains(line[at]));
            } else if at > n {
                assert(!stands_at(body, crlf(), n));
            }
        },
        None => {
            assert(!stands_at(body, crlf(), n));
        },
    }
    match find(line, crlf()) {
        Some(at) => {
            assert(line.subrange(at, at + 2)[0] == line[at]);
            assert(line.contains(line[at]));
        },
        None => {},
    }
    assert(body.take(n) =~= line);
    assert(body.skip(n + 2) =~= rest);
}

/// Each problem is told in its own words.
pub proof fn problems_have_their_words(message: Seq<char>)
    ensures
        HttpProblem::MissingHeaders.text() == "missing headers"@,
        HttpProblem::MissingChunkSize.text() == "missing chunk size"@,
        HttpProblem::TooLarge.text() == "HTTP response body too large"@,
        HttpProblem::ShortChunk.text() == "short chunk body"@,
        HttpProblem::Stopped.text() == "extension host stopped"@,
        HttpProblem::TimedOut.text() == "local HTTP request timed out"@,
        HttpProblem::HeadersNotText(message).text() == message,
        HttpProblem::ChunkSizeNotText(message).text() == message,
        HttpProblem::ChunkSizeInvalid(message).text() == message,
        HttpProblem::BodyNotText(message).text() == message,
        HttpProblem::Failed(message).text() == message,
{
}

}
