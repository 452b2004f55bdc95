//! The driver's JSON-RPC connection: frames, messages and calls.

use crate::decimal;
use crate::json;
use crate::json::{Json, JsonEntry, JsonNumber, Tree};
use crate::text;
use crate::time;
use crate::time::{Duration, Instant};
use vstd::prelude::*;
use vstd::utf8;

verus! {

/// The longest that a call waits before it looks again whether it is to stop, in milliseconds.
pub const CALL_POLL_MILLIS: u64 = 200;

/// The longest that a closed connection waits for its reader, in milliseconds.
pub const READER_SHUTDOWN_MILLIS: u64 = 2_000;

/// The longest body of a message.
pub const MAX_MESSAGE_LEN: usize = 67_108_864;

/// The longest headers of a message.
pub const MAX_HEADER_LEN: usize = 8_192;

// ---- what comes from outside ----

/// `serde_json` reads these bytes as a JSON document.
pub uninterp spec fn is_json(bytes: Seq<u8>) -> bool;

/// `serde_json::from_slice`: whether the bytes are one JSON document. What is claimed is only
/// that the same bytes always get the same answer. The digits of a number are counted in an
/// `i32` there, so that no more bytes are read than a message may have.
#[verifier::external_body]
fn reads_as_json(bytes: &Vec<u8>) -> (ok: bool)
    requires
        bytes@.len() <= MAX_MESSAGE_LEN,
    ensures
        ok == is_json(bytes@),
{
    serde_json::from_slice::<serde_json::Value>(bytes).is_ok()
}

// ---- frames ----

/// The headers before a body of some length.
pub open spec fn header_text(length: nat) -> Seq<char> {
    "Content-Length: "@ + decimal::decimal(length) + "\r\n\r\n"@
}

/// A body with its headers.
pub open spec fn framed(body: Seq<u8>) -> Seq<u8> {
    utf8::encode_utf8(header_text(body.len())) + body
}

/// The headers before a body of some length, and the body.
pub fn frame(body: &Vec<u8>) -> (bytes: Vec<u8>)
    ensures
        bytes@ == framed(body@),
{
    let mut header = String::new();
    header.append("Content-Length: ");
    decimal::push_decimal(&mut header, body.len() as u128);
    header.append("\r\n\r\n");
    assert(header@ =~= header_text(body@.len()));
    let mut bytes: Vec<u8> = Vec::new();
    let head = header.as_str().as_bytes();
    let mut i: usize = 0;
    while i < head.len()
        invariant
            i <= head@.len(),
            bytes@ == head@.take(i as int),
        decreases head@.len() - i,
    {
        bytes.push(head[i]);
        i = i + 1;
    }
    assert(bytes@ =~= head@);
    let mut j: usize = 0;
    while j < body.len()
        invariant
            j <= body@.len(),
            bytes@ == head@ + body@.take(j as int),
        decreases body@.len() - j,
    {
        bytes.push(body[j]);
        j = j + 1;
    }
    assert(body@.take(j as int) =~= body@);
    bytes
}

/// The headers are complete: an empty line ends them.
pub open spec fn ends_headers(bytes: Seq<u8>) -> bool {
    let n = bytes.len() as int;
    ||| n >= 4 && bytes[n - 4] == 13 && bytes[n - 3] == 10 && bytes[n - 2] == 13 && bytes[n - 1]
        == 10
    ||| n >= 2 && bytes[n - 2] == 10 && bytes[n - 1] == 10
}

/// Why a message was not read.
#[derive(Debug)]
pub enum ReadError {
    /// The stream ended.
    EndOfStream,
    /// There is no end of the headers where there must be one.
    HeadersTooLarge,
    /// The headers do not say how long the body is.
    LengthMissing,
    /// The body is longer than a body may be.
    TooLong(usize),
    /// The body is no JSON document.
    NotJson,
}

impl ReadError {
    /// What to write to the log, where the reading itself does not say more.
    pub open spec fn says(self) -> Seq<char> {
        match self {
            ReadError::EndOfStream => "failed to fill whole buffer"@,
            ReadError::HeadersTooLarge => "RPC headers are too large"@,
            ReadError::LengthMissing => "RPC content length missing"@,
            ReadError::TooLong(length) => "RPC content length "@ + decimal::decimal(
                length as nat,
            ) + " exceeds the 67108864-byte limit"@,
            ReadError::NotJson => "RPC body is not JSON"@,
        }
    }

    /// What to write to the log.
    pub fn message(&self) -> (text: String)
        ensures
            text@ == self.says(),
    {
        match self {
            ReadError::EndOfStream => "failed to fill whole buffer".to_owned(),
            ReadError::HeadersTooLarge => "RPC headers are too large".to_owned(),
            ReadError::LengthMissing => "RPC content length missing".to_owned(),
            ReadError::TooLong(length) => {
                let mut text = "RPC content length ".to_owned();
                decimal::push_decimal(&mut text, *length as u128);
                text.append(" exceeds the 67108864-byte limit");
                text
            },
            ReadError::NotJson => "RPC body is not JSON".to_owned(),
        }
    }
}

/// What follows one byte of the headers.
#[derive(Clone, Copy, Debug, PartialEq, Eq, Structural)]
pub enum HeaderStep {
    /// Read another byte.
    More,
    /// The headers are complete.
    Complete,
    /// The headers are too large.
    TooLarge,
}

/// The headers of a message, as far as they are read.
#[derive(Debug)]
pub struct HeaderReader {
    pub bytes: Vec<u8>,
}

/// What follows headers that are read this far.
pub open spec fn header_step(bytes: Seq<u8>) -> HeaderStep {
    if ends_headers(bytes) {
        HeaderStep::Complete
    } else if bytes.len() > MAX_HEADER_LEN {
        HeaderStep::TooLarge
    } else {
        HeaderStep::More
    }
}

impl HeaderReader {
    /// Before the first byte.
    pub fn new() -> (reader: HeaderReader)
        ensures
            reader.bytes@ == Seq::<u8>::empty(),
    {
        HeaderReader { bytes: Vec::new() }
    }

    /// Takes one byte.
    pub fn push(&mut self, byte: u8) -> (step: HeaderStep)
        ensures
            final(self).bytes@ == old(self).bytes@.push(byte),
            step == header_step(final(self).bytes@),
    {
        self.bytes.push(byte);
        let n: usize = self.bytes.len();
        if n >= 2 && self.bytes[n - 2] == 10 && self.bytes[n - 1] == 10 {
            return HeaderStep::Complete;
        }
        if n >= 4 && self.bytes[n - 4] == 13 && self.bytes[n - 3] == 10 && self.bytes[n - 2] == 13
            && self.bytes[n - 1] == 10 {
            return HeaderStep::Complete;
        }
        if n > MAX_HEADER_LEN {
            HeaderStep::TooLarge
        } else {
            HeaderStep::More
        }
    }
}

/// The length that one line of the headers gives.
pub open spec fn line_length(line: Seq<char>) -> Option<usize> {
    match text::split_at_first(line, ':') {
        Some((name, value)) => if text::same_but_case(name, "content-length"@) {
            text::unsigned_value(text::trim_end(text::trim_start(value)))
        } else {
            None
        },
        None => None,
    }
}

/// The first length among some lines from `from` on.
pub open spec fn first_length(lines: Seq<Seq<char>>, from: int) -> Option<usize>
    decreases lines.len() - from,
{
    if from < 0 || from >= lines.len() {
        None
    } else if line_length(lines[from]) is Some {
        line_length(lines[from])
    } else {
        first_length(lines, from + 1)
    }
}

/// The length of the body, by the text of the headers.
pub fn content_length(headers: &str) -> (length: Option<usize>)
    ensures
        length == first_length(text::lines(headers@), 0),
{
    let lines = text::lines_of(headers);
    let ghost all = text::lines(headers@);
    let mut i: usize = 0;
    while i < lines.len()
        invariant
            i <= lines@.len(),
            all == text::texts(lines@),
            all == text::lines(headers@),
            first_length(all, 0) == first_length(all, i as int),
        decreases lines@.len() - i,
    {
        assert(all[i as int] == lines@[i as int]@);
        let length = match text::split_once(lines[i].as_str(), ':') {
            Some((name, value)) => if text::equal_but_case(name.as_str(), "content-length") {
                text::parse_unsigned(text::trim(value.as_str()).as_str())
            } else {
                None
            },
            None => None,
        };
        if length.is_some() {
            return length;
        }
        i = i + 1;
    }
    None
}

/// The length of the body, by the headers; or why no body can be read.
pub open spec fn length_by(headers: Seq<char>) -> Result<usize, ReadError> {
    match first_length(text::lines(headers), 0) {
        None => Err(ReadError::LengthMissing),
        Some(length) => if length > MAX_MESSAGE_LEN {
            Err(ReadError::TooLong(length))
        } else {
            Ok(length)
        },
    }
}

/// The length of the body, by the text of the headers; or why no body can be read.
pub fn checked_length(headers: &str) -> (length: Result<usize, ReadError>)
    ensures
        length == length_by(headers@),
{
    match content_length(headers) {
        None => Err(ReadError::LengthMissing),
        Some(length) => if length > MAX_MESSAGE_LEN {
            Err(ReadError::TooLong(length))
        } else {
            Ok(length)
        },
    }
}

/// The length of the body, by the bytes of the headers; or why no body can be read.
pub fn body_length(headers: &Vec<u8>) -> (length: Result<usize, ReadError>)
    ensures
        length == length_by(text::lossy(headers@)),
        utf8::valid_utf8(headers@) ==> length == length_by(utf8::decode_utf8(headers@)),
{
    let decoded = text::lossy_text(headers);
    checked_length(decoded.as_str())
}

/// A body that was read: it must not be too long, and be a JSON document.
pub fn checked_body(body: Vec<u8>) -> (message: Result<Vec<u8>, ReadError>)
    ensures
        message == if body@.len() > MAX_MESSAGE_LEN {
            Err::<Vec<u8>, ReadError>(ReadError::TooLong(body@.len() as usize))
        } else if is_json(body@) {
            Ok::<Vec<u8>, ReadError>(body)
        } else {
            Err(ReadError::NotJson)
        },
{
    let length: usize = body.len();
    if length > MAX_MESSAGE_LEN {
        return Err(ReadError::TooLong(length));
    }
    if reads_as_json(&body) {
        Ok(body)
    } else {
        Err(ReadError::NotJson)
    }
}

/// The number of bytes of the headers at the start of a stream, from `n` on; or why there
/// are none.
pub open spec fn header_size(stream: Seq<u8>, n: int) -> Result<int, ReadError>
    decreases stream.len() - n,
{
    if n < 0 || n >= stream.len() {
        Err(ReadError::EndOfStream)
    } else {
        match header_step(stream.take(n + 1)) {
            HeaderStep::Complete => Ok(n + 1),
            HeaderStep::TooLarge => Err(ReadError::HeadersTooLarge),
            HeaderStep::More => header_size(stream, n + 1),
        }
    }
}

/// The first message of a stream.
pub open spec fn first_message(stream: Seq<u8>) -> Result<Seq<u8>, ReadError> {
    match header_size(stream, 0) {
        Err(error) => Err(error),
        Ok(n) => match length_by(text::lossy(stream.take(n))) {
            Err(error) => Err(error),
            Ok(length) => if n + length > stream.len() {
                Err(ReadError::EndOfStream)
            } else if is_json(stream.subrange(n, n + length)) {
                Ok(stream.subrange(n, n + length))
            } else {
                Err(ReadError::NotJson)
            },
        },
    }
}

/// The number of bytes of a stream that the reading of its first message takes.
pub open spec fn used(stream: Seq<u8>) -> int {
    match header_size(stream, 0) {
        Err(ReadError::HeadersTooLarge) => MAX_HEADER_LEN + 1,
        Err(_) => stream.len() as int,
        Ok(n) => match length_by(text::lossy(stream.take(n))) {
            Err(_) => n,
            Ok(length) => if n + length > stream.len() {
                stream.len() as int
            } else {
                n + length
            },
        },
    }
}

/// A block of headers: it ends with its first empty line, and is not too large.
pub open spec fn is_headers(block: Seq<u8>) -> bool {
    &&& 0 < block.len() <= MAX_HEADER_LEN + 1
    &&& ends_headers(block)
    &&& forall|k: int| 0 < k < block.len() ==> !ends_headers(#[trigger] block.take(k))
}

/// A line is named like the one that gives the length of the body, in any case.
pub open spec fn names_length(line: Seq<char>) -> bool {
    match text::split_at_first(line, ':') {
        Some((name, _)) => text::same_but_case(name, "content-length"@),
        None => false,
    }
}

/// A line such as `Content-Length: 12`, with its name in any case.
pub open spec fn says_length(line: Seq<char>, length: nat) -> bool {
    &&& line.len() >= 16
    &&& text::same_but_case(line.take(14), "content-length"@)
    &&& line[14] == ':'
    &&& line[15] == ' '
    &&& line.skip(16) == decimal::decimal(length)
}

/// Exactly one of the lines gives the length of the body, among any other ones.
pub open spec fn one_length(lines: Seq<Seq<char>>, length: nat) -> bool {
    exists|i: int|
        0 <= i < lines.len() && #[trigger] says_length(lines[i], length) && forall|j: int|
            0 <= j < lines.len() && j != i ==> !names_length(#[trigger] lines[j])
}

/// None of the lines gives the length of the body.
pub open spec fn no_length(lines: Seq<Seq<char>>) -> bool {
    forall|j: int| 0 <= j < lines.len() ==> !names_length(#[trigger] lines[j])
}

/// A block of headers and the body that it announces. `decoded` is the text of the headers.
pub open spec fn is_message(block: Seq<u8>, decoded: Seq<char>, body: Seq<u8>) -> bool {
    &&& is_headers(block)
    &&& one_length(text::lines(decoded), body.len())
    &&& body.len() <= MAX_MESSAGE_LEN
    &&& is_json(body)
}

/// Bytes stand at the start of a stream.
pub open spec fn stands_first(stream: Seq<u8>, part: Seq<u8>) -> bool {
    part.len() <= stream.len() && stream.take(part.len() as int) == part
}

/// A stream starts with a message whose headers are text.
pub open spec fn starts_with_message(stream: Seq<u8>, block: Seq<u8>, body: Seq<u8>) -> bool {
    &&& utf8::valid_utf8(block)
    &&& is_message(block, utf8::decode_utf8(block), body)
    &&& stands_first(stream, block + body)
}

/// A stream starts with headers that are text and give no length.
pub open spec fn starts_without_length(stream: Seq<u8>, block: Seq<u8>) -> bool {
    &&& utf8::valid_utf8(block)
    &&& is_headers(block)
    &&& no_length(text::lines(utf8::decode_utf8(block)))
    &&& stands_first(stream, block)
}

/// A stream starts with a frame whose body can be read.
pub open spec fn starts_with_frame(stream: Seq<u8>, body: Seq<u8>) -> bool {
    &&& body.len() <= MAX_MESSAGE_LEN
    &&& is_json(body)
    &&& stands_first(stream, framed(body))
}

/// Bytes that are read one after the other.
#[derive(Debug)]
pub struct ByteStream {
    pub bytes: Vec<u8>,
    /// How many of them were read.
    pub at: usize,
}

impl ByteStream {
    /// The bytes that were not read yet.
    pub open spec fn rest(self) -> Seq<u8> {
        if self.at <= self.bytes@.len() {
            self.bytes@.skip(self.at as int)
        } else {
            Seq::empty()
        }
    }

    /// Before anything was read.
    pub fn new(bytes: Vec<u8>) -> (stream: ByteStream)
        ensures
            stream.bytes == bytes,
            stream.at == 0,
            stream.rest() == bytes@,
    {
        let stream = ByteStream { bytes, at: 0 };
        assert(stream.rest() =~= bytes@);
        stream
    }

    /// Reads the headers of the next message.
    fn read_headers(&mut self) -> (headers: Result<Vec<u8>, ReadError>)
        ensures
            final(self).bytes == old(self).bytes,
            match headers {
                Ok(block) => header_size(old(self).rest(), 0) == Ok::<int, ReadError>(
                    block@.len() as int,
                ) && block@ == old(self).rest().take(block@.len() as int) && block@.len()
                    <= old(self).rest().len() && final(self).rest() == old(self).rest().skip(
                    block@.len() as int,
                ),
                Err(error) => header_size(old(self).rest(), 0) == Err::<int, ReadError>(error)
                    && (error is EndOfStream || error is HeadersTooLarge) && final(self).rest()
                    == old(self).rest().skip(
                    if error is HeadersTooLarge {
                        MAX_HEADER_LEN + 1
                    } else {
                        old(self).rest().len() as int
                    },
                ),
            },
    {
        let ghost rest = self.rest();
        let mut reader = HeaderReader::new();
        let size: usize = self.bytes.len();
        if self.at >= size {
            assert(rest =~= Seq::<u8>::empty());
            assert(rest.skip(0) =~= rest);
            return Err(ReadError::EndOfStream);
        }
        let ghost begin = self.at as int;
        assert(rest.take(0) =~= Seq::<u8>::empty());
        assert(rest.skip(0) =~= rest);
        while self.at < size
            invariant
                self.bytes == old(self).bytes,
                size == self.bytes@.len(),
                rest == old(self).rest(),
                begin == old(self).at,
                begin <= self.at <= size,
                rest == self.bytes@.skip(begin),
                self.rest() == rest.skip(self.at - begin),
                reader.bytes@ == rest.take(self.at - begin),
                self.at - begin <= MAX_HEADER_LEN,
                header_size(rest, 0) == header_size(rest, self.at - begin),
            decreases size - self.at,
        {
            let ghost n = self.at - begin;
            let step = reader.push(self.bytes[self.at]);
            self.at = self.at + 1;
            proof {
                assert(rest.take(n).push(rest[n]) =~= rest.take(n + 1));
                assert(self.rest() =~= rest.skip(n + 1));
            }
            match step {
                HeaderStep::Complete => {
                    return Ok(reader.bytes);
                },
                HeaderStep::TooLarge => {
                    return Err(ReadError::HeadersTooLarge);
                },
                HeaderStep::More => {},
            }
        }
        Err(ReadError::EndOfStream)
    }

    /// Reads a body of some length.
    fn read_body(&mut self, length: usize) -> (body: Result<Vec<u8>, ReadError>)
        ensures
            final(self).bytes == old(self).bytes,
            match body {
                Ok(bytes) => length <= old(self).rest().len() && bytes@ == old(self).rest().take(
                    length as int,
                ) && final(self).rest() == old(self).rest().skip(length as int),
                Err(error) => error is EndOfStream && length > old(self).rest().len()
                    && final(self).rest() == Seq::<u8>::empty(),
            },
    {
        let ghost rest = self.rest();
        let size: usize = self.bytes.len();
        if self.at > size {
            self.at = size;
            assert(self.rest() =~= rest);
        }
        if length > size - self.at {
            self.at = size;
            assert(self.rest() =~= Seq::<u8>::empty());
            return Err(ReadError::EndOfStream);
        }
        let begin: usize = self.at;
        let mut body: Vec<u8> = Vec::new();
        let mut i: usize = 0;
        while i < length
            invariant
                i <= length,
                begin + length <= size == self.bytes@.len(),
                rest == self.bytes@.skip(begin as int),
                body@ == rest.take(i as int),
            decreases length - i,
        {
            body.push(self.bytes[begin + i]);
            i = i + 1;
            assert(body@ =~= rest.take(i as int));
        }
        self.at = begin + length;
        assert(self.rest() =~= rest.skip(length as int));
        Ok(body)
    }
}

/// Reads the next message of a stream. A body is read whatever other headers there are and
/// whatever follows it, and nothing that follows it is taken.
pub fn read_message(stream: &mut ByteStream) -> (message: Result<Vec<u8>, ReadError>)
    ensures
        final(stream).bytes == old(stream).bytes,
        final(stream).rest() == old(stream).rest().skip(used(old(stream).rest())),
        match message {
            Ok(body) => first_message(old(stream).rest()) == Ok::<Seq<u8>, ReadError>(body@),
            Err(error) => first_message(old(stream).rest()) == Err::<Seq<u8>, ReadError>(error),
        },
        forall|block: Seq<u8>, body: Seq<u8>| #[trigger]
            starts_with_message(old(stream).rest(), block, body) ==> message is Ok
                && message->Ok_0@ == body && used(old(stream).rest()) == block.len() + body.len(),
        forall|block: Seq<u8>| #[trigger]
            starts_without_length(old(stream).rest(), block) ==> message == Err::<
                Vec<u8>,
                ReadError,
            >(ReadError::LengthMissing) && used(old(stream).rest()) == block.len(),
        forall|body: Seq<u8>| #[trigger]
            starts_with_frame(old(stream).rest(), body) ==> message is Ok && message->Ok_0@ == body
                && used(old(stream).rest()) == framed(body).len(),
{
    let ghost rest = stream.rest();
    proof {
        assert forall|body: Seq<u8>| #[trigger] starts_with_frame(rest, body) implies ({
            let block = utf8::encode_utf8(header_text(body.len()));
            starts_with_message(rest, block, body) && block.len() + body.len() == framed(body).len()
        }) by {
            frames_are_messages(rest, body);
        }
        assert forall|block: Seq<u8>, body: Seq<u8>| #[trigger]
            starts_with_message(rest, block, body) implies {
            &&& header_size(rest, 0) == Ok::<int, ReadError>(block.len() as int)
            &&& rest.take(block.len() as int) == block
            &&& length_by(utf8::decode_utf8(block)) == Ok::<usize, ReadError>(body.len() as usize)
            &&& block.len() + body.len() <= rest.len()
            &&& rest.subrange(block.len() as int, (block.len() + body.len()) as int) == body
        } by {
            message_parts(rest, block, body);
            one_length_is_found(text::lines(utf8::decode_utf8(block)), body.len());
        }
        assert forall|block: Seq<u8>| #[trigger] starts_without_length(rest, block) implies {
            &&& header_size(rest, 0) == Ok::<int, ReadError>(block.len() as int)
            &&& rest.take(block.len() as int) == block
            &&& length_by(utf8::decode_utf8(block)) == Err::<usize, ReadError>(
                ReadError::LengthMissing,
            )
        } by {
            headers_end(rest, block, 0);
            no_length_is_found(text::lines(utf8::decode_utf8(block)), 0);
        }
    }
    let headers = match stream.read_headers() {
        Ok(headers) => headers,
        Err(error) => return Err(error),
    };
    let ghost n = headers@.len() as int;
    let length = match body_length(&headers) {
        Ok(length) => length,
        Err(error) => return Err(error),
    };
    match stream.read_body(length) {
        Ok(body) => {
            proof {
                assert(rest.skip(n).take(length as int) =~= rest.subrange(n, n + length));
                assert(rest.skip(n).skip(length as int) =~= rest.skip(n + length));
            }
            checked_body(body)
        },
        Err(error) => {
            assert(rest.skip(rest.len() as int) =~= Seq::<u8>::empty());
            Err(error)
        },
    }
}

// ---- messages ----

/// What a message of the driver is.
#[derive(Clone, Copy, Debug, PartialEq, Eq, Structural)]
pub enum Incoming {
    /// The response to a call.
    Response,
    /// The tablets changed.
    TabletsChanged,
    /// Nothing of interest.
    Other,
}

/// The method of a message, where it has one.
pub open spec fn method_of(message: Tree) -> Seq<char> {
    match message.get("method"@) {
        Some(Tree::Text(name)) => name,
        _ => Seq::empty(),
    }
}

/// What a message is. On some platforms a resynchronization means that the tablets changed.
pub open spec fn meaning(message: Tree, resynchronize_is_change: bool) -> Incoming {
    if message.get("id"@) is Some {
        Incoming::Response
    } else if text::contains(method_of(message), "TabletsChanged"@) || (resynchronize_is_change
        && text::contains(method_of(message), "Resynchronize"@)) {
        Incoming::TabletsChanged
    } else {
        Incoming::Other
    }
}

/// What a message is.
pub fn classify(message: &Json, resynchronize_is_change: bool) -> (kind: Incoming)
    ensures
        kind == meaning(message@, resynchronize_is_change),
{
    if message.get("id").is_some() {
        return Incoming::Response;
    }
    let method = match message.get("method") {
        Some(Json::Text(name)) => name.clone(),
        _ => String::new(),
    };
    if text::has_part(method.as_str(), "TabletsChanged") || (resynchronize_is_change
        && text::has_part(method.as_str(), "Resynchronize")) {
        Incoming::TabletsChanged
    } else {
        Incoming::Other
    }
}

// ---- calls ----

/// A request, with its members in the order of their names.
pub open spec fn request_tree(id: u64, method: Seq<char>, params: Tree) -> Tree {
    Tree::Object(
        seq![
            ("id"@, Tree::Number(JsonNumber::Integer(id as i128))),
            ("jsonrpc"@, Tree::Text("2.0"@)),
            ("method"@, Tree::Text(method)),
            ("params"@, params),
        ],
    )
}

/// Why a call gave no result.
#[derive(Debug)]
pub enum CallError {
    /// The program is to stop.
    Interrupted,
    /// The driver did not respond in time.
    TimedOut,
    /// The connection is closed.
    Closed,
    /// The driver responded with this error.
    Refused(Json),
    /// The response has neither a result nor an error.
    NoResult,
}

impl CallError {
    /// What to write to the log, where the driver does not say it itself.
    pub open spec fn says(self) -> Seq<char> {
        match self {
            CallError::Interrupted => "shutdown requested"@,
            CallError::TimedOut => "OpenTabletDriver did not respond"@,
            CallError::Closed => "OpenTabletDriver connection closed"@,
            CallError::Refused(_) => "RPC error"@,
            CallError::NoResult => "RPC response has no result"@,
        }
    }

    /// What to write to the log, where the driver does not say it itself.
    pub fn message(&self) -> (text: String)
        ensures
            text@ == self.says(),
    {
        match self {
            CallError::Interrupted => "shutdown requested".to_owned(),
            CallError::TimedOut => "OpenTabletDriver did not respond".to_owned(),
            CallError::Closed => "OpenTabletDriver connection closed".to_owned(),
            CallError::Refused(_) => "RPC error".to_owned(),
            CallError::NoResult => "RPC response has no result".to_owned(),
        }
    }
}

/// The calls of one connection.
#[derive(Debug)]
pub struct RpcClient {
    pub next_id: u64,
}

/// A call that waits for its response.
#[derive(Clone, Copy, Debug, PartialEq, Eq, Structural)]
pub struct PendingCall {
    pub id: u64,
    pub deadline: Instant,
}

/// What a call that waits is to do.
#[derive(Clone, Copy, Debug, PartialEq, Eq, Structural)]
pub enum CallPoll {
    /// Stop: the program is to end.
    Interrupted,
    /// Stop: there was no response in time.
    TimedOut,
    /// Wait for a response, no longer than this.
    Wait(Duration),
}

impl RpcClient {
    /// A new connection.
    pub fn connect() -> (client: RpcClient)
        ensures
            client.next_id == 1,
    {
        RpcClient { next_id: 1 }
    }

    /// The next request, with an identifier that no earlier one had.
    pub fn request(&mut self, method: &str, params: Json) -> (call: (u64, Json))
        requires
            old(self).next_id < u64::MAX,
        ensures
            call.0 == old(self).next_id,
            final(self).next_id == old(self).next_id + 1,
            call.1@ == request_tree(call.0, method@, params@),
            call.1@.get("id"@) == Some(Tree::Number(JsonNumber::Integer(call.0 as i128))),
            call.1@.get("method"@) == Some(Tree::Text(method@)),
            call.1@.get("params"@) == Some(params@),
    {
        proof {
            requests_say_what_is_called(self.next_id, method@, params@);
        }
        let id: u64 = self.next_id;
        self.next_id = self.next_id + 1;
        let ghost wanted = request_tree(id, method@, params@);
        let mut entries: Vec<JsonEntry> = Vec::new();
        entries.push(
            JsonEntry {
                key: "id".to_owned(),
                value: Json::Number(JsonNumber::Integer(id as i128)),
            },
        );
        entries.push(
            JsonEntry { key: "jsonrpc".to_owned(), value: Json::Text("2.0".to_owned()) },
        );
        entries.push(
            JsonEntry { key: "method".to_owned(), value: Json::Text(method.to_owned()) },
        );
        entries.push(JsonEntry { key: "params".to_owned(), value: params });
        assert(entries@[0].value.tree() == Tree::Number(JsonNumber::Integer(id as i128)));
        assert(entries@[1].value.tree() == Tree::Text("2.0"@));
        assert(entries@[2].value.tree() == Tree::Text(method@));
        assert(entries@[3].value.tree() == params@);
        let request = Json::Object(entries);
        assert(request@->Object_0 =~= wanted->Object_0);
        (id, request)
    }
}

/// The response belongs to the call with this identifier.
pub open spec fn answers(response: Tree, id: u64) -> bool {
    match response.get("id"@) {
        Some(given) => json::same_tree(given, Tree::Number(JsonNumber::Integer(id as i128))),
        None => false,
    }
}

impl PendingCall {
    /// A call that was sent just now.
    pub fn new(id: u64, now: Instant, timeout: Duration) -> (call: PendingCall)
        requires
            now.nanos + timeout.nanos <= u128::MAX,
        ensures
            call.id == id,
            call.deadline.nanos == now.nanos + timeout.nanos,
    {
        PendingCall { id, deadline: Instant { nanos: now.nanos + timeout.nanos } }
    }

    /// What the call is to do at some time.
    pub open spec fn poll_at(self, now: Instant, shutdown: bool) -> CallPoll {
        let left = time::elapsed(now.nanos as int, self.deadline.nanos as int);
        let slice = Duration::of_millis(CALL_POLL_MILLIS as int);
        if shutdown {
            CallPoll::Interrupted
        } else if left == 0 {
            CallPoll::TimedOut
        } else {
            CallPoll::Wait(
                Duration {
                    nanos: if left <= slice {
                        left as u128
                    } else {
                        slice as u128
                    },
                },
            )
        }
    }

    /// What the call is to do now.
    pub fn poll(&self, now: Instant, shutdown: bool) -> (next: CallPoll)
        ensures
            next == self.poll_at(now, shutdown),
    {
        if shutdown {
            return CallPoll::Interrupted;
        }
        let remaining = self.deadline.saturating_duration_since(now);
        if remaining.is_zero() {
            return CallPoll::TimedOut;
        }
        CallPoll::Wait(remaining.min(Duration::from_millis(CALL_POLL_MILLIS)))
    }

    /// The outcome of the call, where the response belongs to it.
    pub fn on_response(&self, response: &Json) -> (outcome: Option<Result<Json, CallError>>)
        ensures
            match outcome {
                None => !answers(response@, self.id),
                Some(Ok(result)) => answers(response@, self.id) && response@.get(
                    "error"@,
                ) is None && response@.get("result"@) == Some(result@),
                Some(Err(CallError::Refused(error))) => answers(response@, self.id)
                    && response@.get("error"@) == Some(error@),
                Some(Err(CallError::NoResult)) => answers(response@, self.id) && response@.get(
                    "error"@,
                ) is None && response@.get("result"@) is None,
                Some(Err(_)) => false,
            },
    {
        let wanted = Json::Number(JsonNumber::Integer(self.id as i128));
        let matches = match response.get("id") {
            Some(given) => given.same(&wanted),
            None => false,
        };
        if !matches {
            return None;
        }
        match response.get("error") {
            Some(error) => return Some(Err(CallError::Refused(error.copy()))),
            None => {},
        }
        match response.get("result") {
            Some(result) => Some(Ok(result.copy())),
            None => Some(Err(CallError::NoResult)),
        }
    }
}

// ---- laws ----

/// Text with no white space at its ends is its own trimmed form.
proof fn one_space_is_trimmed(digits: Seq<char>)
    requires
        digits.len() > 0,
        !text::is_space(digits[0]),
        !text::is_space(digits.last()),
    ensures
        text::trim_end(text::trim_start(seq![' '] + digits)) == digits,
{
    let s = seq![' '] + digits;
    assert(s.drop_first() =~= digits);
    assert(text::trim_start(digits) == digits);
}

/// A line that says the length of the body gives it.
proof fn said_length_is_given(line: Seq<char>, length: nat)
    requires
        says_length(line, length),
        length <= MAX_MESSAGE_LEN,
    ensures
        line_length(line) == Some(length as usize),
        names_length(line),
{
    reveal_strlit("content-length");
    let d = decimal::decimal(length);
    decimal::decimal_is_digits(length);
    let name = line.take(14);
    assert forall|k: int| 0 <= k < 14 implies line[k] != ':' by {
        assert(line[k] == name[k]);
        assert(text::ascii_lower(name[k]) == text::ascii_lower("content-length"@[k]));
    }
    text::first_is_index_of(line, ':', 14);
    let value = line.skip(15);
    assert(value =~= seq![' '] + d) by {
        assert(line.skip(16) =~= value.skip(1));
    }
    one_space_is_trimmed(d);
    assert(d[0] != '+');
}

/// The one length among some lines is found.
proof fn one_length_is_found(lines: Seq<Seq<char>>, length: nat)
    requires
        one_length(lines, length),
        length <= MAX_MESSAGE_LEN,
    ensures
        first_length(lines, 0) == Some(length as usize),
{
    let i = choose|i: int|
        0 <= i < lines.len() && #[trigger] says_length(lines[i], length) && forall|j: int|
            0 <= j < lines.len() && j != i ==> !names_length(#[trigger] lines[j]);
    said_length_is_given(lines[i], length);
    length_is_reached(lines, i, 0);
}

/// Lines that are not named like the length are passed over.
proof fn length_is_reached(lines: Seq<Seq<char>>, i: int, from: int)
    requires
        0 <= from <= i < lines.len(),
        line_length(lines[i]) is Some,
        forall|j: int| 0 <= j < lines.len() && j != i ==> !names_length(#[trigger] lines[j]),
    ensures
        first_length(lines, from) == line_length(lines[i]),
    decreases i - from,
{
    if from < i {
        assert(!names_length(lines[from]));
        length_is_reached(lines, i, from + 1);
    }
}

/// Where no line is named like the length, none is found.
proof fn no_length_is_found(lines: Seq<Seq<char>>, from: int)
    requires
        no_length(lines),
        0 <= from,
    ensures
        first_length(lines, from) is None,
    decreases lines.len() - from,
{
    if from < lines.len() {
        assert(!names_length(lines[from]));
        no_length_is_found(lines, from + 1);
    }
}

/// A block of headers at the start of a stream ends where it ends.
proof fn headers_end(stream: Seq<u8>, block: Seq<u8>, n: int)
    requires
        is_headers(block),
        stands_first(stream, block),
        0 <= n < block.len(),
    ensures
        header_size(stream, n) == Ok::<int, ReadError>(block.len() as int),
        stream.take(block.len() as int) == block,
    decreases block.len() - n,
{
    assert(stream.take(n + 1) =~= block.take(n + 1));
    if n + 1 == block.len() {
        assert(block.take(n + 1) =~= block);
    } else {
        assert(!ends_headers(block.take(n + 1)));
        headers_end(stream, block, n + 1);
    }
}

/// The parts of a message at the start of a stream.
proof fn message_parts(stream: Seq<u8>, block: Seq<u8>, body: Seq<u8>)
    requires
        is_headers(block),
        stands_first(stream, block + body),
    ensures
        header_size(stream, 0) == Ok::<int, ReadError>(block.len() as int),
        stream.take(block.len() as int) == block,
        block.len() + body.len() <= stream.len(),
        stream.subrange(block.len() as int, (block.len() + body.len()) as int) == body,
{
    let whole = block + body;
    assert(stream.take(block.len() as int) =~= whole.take(block.len() as int));
    assert(whole.take(block.len() as int) =~= block);
    headers_end(stream, block, 0);
    let part = stream.subrange(block.len() as int, (block.len() + body.len()) as int);
    assert forall|k: int| 0 <= k < body.len() implies part[k] == body[k] by {
        assert(stream.take(whole.len() as int)[block.len() + k] == whole[block.len() + k]);
    }
    assert(part =~= body);
}

/// A message at the start of a stream is read, whatever other headers it has and whatever
/// follows it, and nothing more than the message is taken. This is so also where the headers
/// are not all text: `lossy` decodes them.
pub proof fn messages_are_read(stream: Seq<u8>, block: Seq<u8>, body: Seq<u8>)
    requires
        is_message(block, text::lossy(block), body),
        stands_first(stream, block + body),
    ensures
        first_message(stream) == Ok::<Seq<u8>, ReadError>(body),
        used(stream) == block.len() + body.len(),
{
    message_parts(stream, block, body);
    one_length_is_found(text::lines(text::lossy(block)), body.len());
}

/// Of two messages that follow each other, both are read, in order.
pub proof fn messages_are_read_in_order(
    stream: Seq<u8>,
    block: Seq<u8>,
    body: Seq<u8>,
    next_block: Seq<u8>,
    next_body: Seq<u8>,
)
    requires
        is_message(block, text::lossy(block), body),
        is_message(next_block, text::lossy(next_block), next_body),
        stands_first(stream, block + body + next_block + next_body),
    ensures
        first_message(stream) == Ok::<Seq<u8>, ReadError>(body),
        first_message(stream.skip(used(stream))) == Ok::<Seq<u8>, ReadError>(next_body),
        stream.skip(used(stream)).skip(used(stream.skip(used(stream)))) == stream.skip(
            (block + body + next_block + next_body).len() as int,
        ),
{
    let first = block + body;
    let second = next_block + next_body;
    let whole = block + body + next_block + next_body;
    assert(stream.take(first.len() as int) =~= whole.take(first.len() as int));
    assert(whole.take(first.len() as int) =~= first);
    messages_are_read(stream, block, body);
    let rest = stream.skip(first.len() as int);
    assert forall|k: int| 0 <= k < second.len() implies rest.take(second.len() as int)[k]
        == second[k] by {
        assert(stream.take(whole.len() as int)[first.len() + k] == whole[first.len() + k]);
    }
    assert(rest.take(second.len() as int) =~= second);
    messages_are_read(rest, next_block, next_body);
    assert(rest.skip(second.len() as int) =~= stream.skip(whole.len() as int));
}

/// Headers that give no length are refused, and no more than they is taken.
pub proof fn headers_without_length_are_refused(stream: Seq<u8>, block: Seq<u8>)
    requires
        is_headers(block),
        no_length(text::lines(text::lossy(block))),
        stands_first(stream, block),
    ensures
        first_message(stream) == Err::<Seq<u8>, ReadError>(ReadError::LengthMissing),
        used(stream) == block.len(),
{
    headers_end(stream, block, 0);
    no_length_is_found(text::lines(text::lossy(block)), 0);
}

/// The headers of a frame have one line, and an empty one after it.
proof fn header_lines(length: nat)
    requires
        length <= MAX_MESSAGE_LEN,
    ensures
        one_length(text::lines(header_text(length)), length),
{
    reveal_strlit("Content-Length: ");
    reveal_strlit("\r\n\r\n");
    reveal_strlit("content-length");
    let h = header_text(length);
    let d = decimal::decimal(length);
    let n = d.len();
    decimal::decimal_is_digits(length);
    assert forall|k: int| 0 <= k < 17 + n implies h[k] != '\n' by {
        if 16 <= k < 16 + n {
            assert(h[k] == d[k - 16]);
        }
    }
    assert(h[17 + n as int] == '\n');
    text::first_is_index_of(h, '\n', 17 + n as int);
    let line = text::without_return(h.take(17 + n as int));
    assert(h.take(17 + n as int).last() == '\r');
    assert(line =~= h.take(16 + n as int));
    let tail = h.skip(18 + n as int);
    assert(tail =~= seq!['\r', '\n']);
    text::first_is_index_of(tail, '\n', 1);
    let none = Seq::<char>::empty();
    assert(tail.skip(2) =~= none);
    assert(text::lines(none) =~= Seq::<Seq<char>>::empty());
    assert(text::without_return(tail.take(1)) =~= none);
    assert(text::lines(tail) =~= seq![none]);
    let all = text::lines(h);
    assert(all =~= seq![line, none]);
    assert(line.skip(16) =~= d);
    assert(says_length(all[0], length));
    assert(!names_length(all[1]));
}

/// The headers of a frame are a block of headers.
proof fn header_is_a_block(length: nat)
    requires
        length <= MAX_MESSAGE_LEN,
    ensures
        is_headers(utf8::encode_utf8(header_text(length))),
{
    reveal_strlit("Content-Length: ");
    reveal_strlit("\r\n\r\n");
    let c = header_text(length);
    let d = decimal::decimal(length);
    let h = utf8::encode_utf8(c);
    decimal::decimal_is_digits(length);
    short_decimal(length);
    header_is_ascii(length);
    let size = h.len() as int;
    assert(c[size - 4] == '\r' && c[size - 3] == '\n' && c[size - 2] == '\r' && c[size - 1]
        == '\n');
    assert forall|m: int| 0 < m < size implies !ends_headers(#[trigger] h.take(m)) by {
        let part = h.take(m);
        let n = m - 1;
        assert forall|k: int| 0 <= k <= n implies part[k] == c[k] as u8 by {}
        assert(16 <= n < size - 4 ==> c[n] == d[n - 16]);
        if n == size - 3 {
            assert(c[n - 2] == d[d.len() - 1]);
            assert(part[n - 2] == d[d.len() - 1] as u8);
        }
    }
}

/// The headers of a frame are ASCII.
proof fn header_is_ascii(length: nat)
    ensures
        ({
            let c = header_text(length);
            let h = utf8::encode_utf8(c);
            &&& utf8::valid_utf8(h)
            &&& utf8::decode_utf8(h) == c
            &&& h.len() == c.len() == 20 + decimal::decimal(length).len()
            &&& forall|i: int| 0 <= i < c.len() ==> #[trigger] h[i] == c[i] as u8
        }),
{
    reveal_strlit("Content-Length: ");
    reveal_strlit("\r\n\r\n");
    decimal::decimal_is_digits(length);
    let c = header_text(length);
    let d = decimal::decimal(length);
    assert forall|i: int| 0 <= i < c.len() implies '\0' <= #[trigger] c[i] <= '\u{7f}' by {
        if 16 <= i < 16 + d.len() {
            assert(c[i] == d[i - 16]);
        }
    }
    utf8::is_ascii_chars_encode_utf8(c);
    utf8::encode_utf8_valid_utf8(c);
    utf8::encode_utf8_decode_utf8(c);
}

/// A length that is allowed has few digits.
proof fn short_decimal(n: nat)
    requires
        n < 100_000_000,
    ensures
        decimal::decimal(n).len() <= 8,
{
    reveal_with_fuel(decimal::decimal, 9);
}

/// A frame is a message: its headers are a block of headers, and give the length of its body.
pub proof fn frames_are_messages(stream: Seq<u8>, body: Seq<u8>)
    requires
        starts_with_frame(stream, body),
    ensures
        starts_with_message(stream, utf8::encode_utf8(header_text(body.len())), body),
{
    header_is_ascii(body.len());
    header_is_a_block(body.len());
    header_lines(body.len());
}

/// A call never waits past its deadline, whatever responses to other calls come in between:
/// its deadline was fixed when it was sent, and each wait ends by then.
pub proof fn stale_responses_do_not_extend_a_call(call: PendingCall, now: Instant)
    ensures
        call.poll_at(now, false) matches CallPoll::Wait(span) ==> now.nanos + span.nanos
            <= call.deadline.nanos,
        now.nanos >= call.deadline.nanos ==> call.poll_at(now, false) is TimedOut,
{
}

/// A call looks at least every 200 milliseconds whether the program is to stop, and stops
/// then.
pub proof fn shutdown_is_noticed_promptly(call: PendingCall, now: Instant)
    ensures
        call.poll_at(now, true) is Interrupted,
        call.poll_at(now, false) matches CallPoll::Wait(span) ==> 0 < span.nanos
            <= Duration::of_millis(200),
{
}

/// A response answers at most one of the calls of a connection.
pub proof fn a_response_answers_one_call(response: Tree, a: u64, b: u64)
    requires
        answers(response, a),
        answers(response, b),
    ensures
        a == b,
{
}

/// The identifier of a request belongs to its own call, and to no other one.
pub proof fn requests_are_told_apart(id: u64, other: u64, method: Seq<char>, params: Tree)
    ensures
        answers(request_tree(id, method, params), other) <==> id == other,
{
    let entries = request_tree(id, method, params)->Object_0;
    assert(entries[0].0 == "id"@);
    assert(json::find_key(entries, "id"@, 0) == Some(0int));
}

/// A request has four members and says what is called: its identifier, the version of the
/// protocol, the name of the method, and the parameters as they were given.
pub proof fn requests_say_what_is_called(id: u64, method: Seq<char>, params: Tree)
    ensures
        ({
            let request = request_tree(id, method, params);
            &&& request is Object
            &&& request->Object_0.len() == 4
            &&& request.get("id"@) == Some(Tree::Number(JsonNumber::Integer(id as i128)))
            &&& request.get("jsonrpc"@) == Some(Tree::Text("2.0"@))
            &&& request.get("method"@) == Some(Tree::Text(method))
            &&& request.get("params"@) == Some(params)
        }),
{
    reveal_strlit("id");
    reveal_strlit("jsonrpc");
    reveal_strlit("method");
    reveal_strlit("params");
    let entries = request_tree(id, method, params)->Object_0;
    assert("id"@.len() == 2 && "jsonrpc"@.len() == 7 && "method"@.len() == 6 && "params"@.len()
        == 6);
    assert("method"@[0] != "params"@[0]);
    json::value_is_that_of_its_key(entries, "id"@, 0);
    json::value_is_that_of_its_key(entries, "jsonrpc"@, 1);
    json::value_is_that_of_its_key(entries, "method"@, 2);
    json::value_is_that_of_its_key(entries, "params"@, 3);
}

/// Requests that differ in what is called differ.
pub proof fn requests_tell_what_differs(
    id: u64,
    method: Seq<char>,
    params: Tree,
    other_id: u64,
    other_method: Seq<char>,
    other_params: Tree,
)
    requires
        request_tree(id, method, params) == request_tree(other_id, other_method, other_params),
    ensures
        id == other_id,
        method == other_method,
        params == other_params,
{
    requests_say_what_is_called(id, method, params);
    requests_say_what_is_called(other_id, other_method, other_params);
}

/// A response answers the call whose identifier it has, as the number that was sent.
pub proof fn responses_are_matched_by_their_number(response: Tree, id: u64)
    ensures
        answers(response, id) <==> response.get("id"@) == Some(
            Tree::Number(JsonNumber::Integer(id as i128)),
        ),
{
}

/// A message with an identifier is a response. Of the others, those whose method has
/// `TabletsChanged` in its name tell that the tablets changed, those with `Resynchronize` where
/// the platform takes them so, and no other.
pub proof fn notices_are_told_by_their_method(message: Tree, resynchronize_is_change: bool)
    ensures
        meaning(message, resynchronize_is_change) is Response <==> message.get("id"@) is Some,
        meaning(message, resynchronize_is_change) is TabletsChanged <==> message.get("id"@) is None
            && message.get("method"@) is Some && message.get("method"@)->0 is Text && exists|
            i: int,
            n: int,
        |
            #![trigger message.get("method"@)->0->Text_0.subrange(i, n)]
            0 <= i <= n <= message.get("method"@)->0->Text_0.len() && ({
                let part = message.get("method"@)->0->Text_0.subrange(i, n);
                part == "TabletsChanged"@ || (resynchronize_is_change && part
                    == "Resynchronize"@)
            }),
{
    reveal_strlit("TabletsChanged");
    reveal_strlit("Resynchronize");
    let name = method_of(message);
    if message.get("id"@) is None {
        if text::contains(name, "TabletsChanged"@) {
            let i = choose|i: int| #[trigger] text::stands_at(name, "TabletsChanged"@, i);
            assert(name.subrange(i, i + 14) == "TabletsChanged"@);
        }
        if resynchronize_is_change && text::contains(name, "Resynchronize"@) {
            let i = choose|i: int| #[trigger] text::stands_at(name, "Resynchronize"@, i);
            assert(name.subrange(i, i + 13) == "Resynchronize"@);
        }
        if message.get("method"@) is Some && message.get("method"@)->0 is Text {
            assert forall|i: int, n: int|
                #![trigger name.subrange(i, n)]
                0 <= i <= n <= name.len() && name.subrange(i, n)
                    == "TabletsChanged"@ implies text::contains(name, "TabletsChanged"@) by {
                assert(text::stands_at(name, "TabletsChanged"@, i));
            }
            assert forall|i: int, n: int|
                #![trigger name.subrange(i, n)]
                0 <= i <= n <= name.len() && name.subrange(i, n)
                    == "Resynchronize"@ implies text::contains(name, "Resynchronize"@) by {
                assert(text::stands_at(name, "Resynchronize"@, i));
            }
        }
    }
}

/// A call that waits is over at its deadline and not before, is interrupted exactly when the
/// program is to stop, and sleeps until its deadline or for a fifth of a second, whichever
/// comes first.
pub proof fn calls_wait_until_their_deadline(call: PendingCall, now: Instant, shutdown: bool)
    ensures
        call.poll_at(now, shutdown) is Interrupted <==> shutdown,
        call.poll_at(now, shutdown) is TimedOut <==> !shutdown && now.nanos >= call.deadline.nanos,
        call.poll_at(now, shutdown) matches CallPoll::Wait(span) ==> (span.nanos == 200_000_000
            && now.nanos + span.nanos <= call.deadline.nanos) || (span.nanos < 200_000_000
            && now.nanos + span.nanos == call.deadline.nanos),
{
}

// ---- headers ----

/// A line gives the length of the body where its name is `Content-Length`, in any case, and its
/// value is the decimal form of a number, with white space around it or not. A line with another
/// name or without a colon gives none.
pub proof fn lengths_are_given_by_name(
    name: Seq<char>,
    a: Seq<char>,
    length: usize,
    b: Seq<char>,
    value: Seq<char>,
    line: Seq<char>,
)
    requires
        forall|k: int| 0 <= k < name.len() ==> #[trigger] name[k] != ':',
        forall|k: int| 0 <= k < a.len() ==> text::is_space(#[trigger] a[k]),
        forall|k: int| 0 <= k < b.len() ==> text::is_space(#[trigger] b[k]),
    ensures
        text::same_but_case(name, "Content-Length"@) ==> line_length(
            name + seq![':'] + (a + decimal::decimal(length as nat) + b),
        ) == Some(length),
        !text::same_but_case(name, "Content-Length"@) ==> line_length(name + seq![':'] + value)
            is None,
        (forall|k: int| 0 <= k < line.len() ==> #[trigger] line[k] != ':') ==> line_length(line)
            is None,
{
    reveal_strlit("content-length");
    reveal_strlit("Content-Length");
    let small = "content-length"@;
    let capital = "Content-Length"@;
    assert(text::ascii_lower('C') == 'c' && text::ascii_lower('L') == 'l');
    assert forall|k: int| 0 <= k < 14 implies #[trigger] text::ascii_lower(small[k])
        == text::ascii_lower(capital[k]) by {}
    assert(text::same_but_case(name, capital) == text::same_but_case(name, small)) by {
        if text::same_but_case(name, capital) {
            assert forall|k: int| 0 <= k < name.len() implies text::ascii_lower(#[trigger] name[k])
                == text::ascii_lower(small[k]) by {}
        }
        if text::same_but_case(name, small) {
            assert forall|k: int| 0 <= k < name.len() implies text::ascii_lower(#[trigger] name[k])
                == text::ascii_lower(capital[k]) by {}
        }
    }
    let d = decimal::decimal(length as nat);
    decimal::decimal_is_digits(length as nat);
    assert('0' <= d[0] <= '9' && '0' <= d[d.len() - 1] <= '9');
    text::trimming_takes_white_space(a, d, b);
    text::decimal_forms_are_read(length, d, 0);
    text::texts_are_parted_at_the_first(name, ':', a + d + b, line);
    text::texts_are_parted_at_the_first(name, ':', value, line);
}

/// The first line that gives a length counts, and the others do not.
pub proof fn the_first_length_counts(lines: Seq<Seq<char>>, i: int)
    ensures
        0 <= i < lines.len() && line_length(lines[i]) is Some && (forall|k: int|
            0 <= k < i ==> line_length(#[trigger] lines[k]) is None) ==> first_length(lines, 0)
            == line_length(lines[i]),
        (forall|k: int| 0 <= k < lines.len() ==> line_length(#[trigger] lines[k]) is None)
            ==> first_length(lines, 0) is None,
{
    first_length_is_first(lines, 0);
    if 0 <= i < lines.len() && line_length(lines[i]) is Some && (forall|k: int|
        0 <= k < i ==> line_length(#[trigger] lines[k]) is None) {
        let m = choose|m: int|
            0 <= m < lines.len() && line_length(#[trigger] lines[m]) is Some && first_length(
                lines,
                0,
            ) == line_length(lines[m]) && forall|k: int|
                0 <= k < m ==> line_length(#[trigger] lines[k]) is None;
        assert(line_length(lines[m]) is Some);
        if i < m {
            assert(line_length(lines[i]) is None);
        }
    }
}

proof fn first_length_is_first(lines: Seq<Seq<char>>, from: int)
    requires
        0 <= from,
    ensures
        first_length(lines, from) is None ==> forall|k: int|
            from <= k < lines.len() ==> line_length(#[trigger] lines[k]) is None,
        first_length(lines, from) is Some ==> exists|m: int|
            from <= m < lines.len() && line_length(#[trigger] lines[m]) is Some && first_length(
                lines,
                from,
            ) == line_length(lines[m]) && forall|k: int|
                from <= k < m ==> line_length(#[trigger] lines[k]) is None,
    decreases lines.len() - from,
{
    if from < lines.len() {
        if line_length(lines[from]) is None {
            first_length_is_first(lines, from + 1);
            if first_length(lines, from) is Some {
                let m = choose|m: int|
                    from + 1 <= m < lines.len() && line_length(#[trigger] lines[m]) is Some
                        && first_length(lines, from + 1) == line_length(lines[m]) && forall|k: int|
                        from + 1 <= k < m ==> line_length(#[trigger] lines[k]) is None;
                assert(line_length(lines[m]) is Some);
            }
        } else {
            assert(line_length(lines[from]) is Some);
        }
    }
}

/// A body of up to 64 mebibytes is read, and a longer one is refused with its length.
pub proof fn long_bodies_are_refused(headers: Seq<char>)
    ensures
        match first_length(text::lines(headers), 0) {
            None => length_by(headers) == Err::<usize, ReadError>(ReadError::LengthMissing),
            Some(length) => if length <= 67_108_864 {
                length_by(headers) == Ok::<usize, ReadError>(length)
            } else {
                length_by(headers) == Err::<usize, ReadError>(ReadError::TooLong(length))
            },
        },
{
}

/// Headers end with an empty line, after a carriage return and a line feed or after a line feed
/// alone, and with nothing else.
pub proof fn headers_end_with_an_empty_line(before: Seq<u8>, bytes: Seq<u8>)
    ensures
        ends_headers(before + seq![13u8, 10u8, 13u8, 10u8]),
        ends_headers(before + seq![10u8, 10u8]),
        ends_headers(bytes) ==> bytes.len() >= 2 && bytes[bytes.len() - 1] == 10 && (bytes[bytes.len()
            - 2] == 10 || (bytes.len() >= 4 && bytes.skip(bytes.len() - 4) == seq![
            13u8,
            10u8,
            13u8,
            10u8,
        ])),
{
    if ends_headers(bytes) && bytes[bytes.len() - 2] != 10 {
        assert(bytes.skip(bytes.len() - 4) =~= seq![13u8, 10u8, 13u8, 10u8]);
    }
}

/// Headers that have not ended after 8193 bytes are too large.
pub proof fn headers_are_bounded(bytes: Seq<u8>)
    ensures
        ends_headers(bytes) ==> header_step(bytes) is Complete,
        !ends_headers(bytes) && bytes.len() <= 8_192 ==> header_step(bytes) is More,
        !ends_headers(bytes) && bytes.len() > 8_192 ==> header_step(bytes) is TooLarge,
{
}

/// A message whose headers are there is not read where its body is cut off, and not taken where it
/// is no document. Its length is refused before its body is looked at.
pub proof fn faulty_messages_are_refused(stream: Seq<u8>, block: Seq<u8>)
    requires
        is_headers(block),
        stands_first(stream, block),
    ensures
        match length_by(text::lossy(block)) {
            Err(error) => first_message(stream) == Err::<Seq<u8>, ReadError>(error) && used(stream)
                == block.len(),
            Ok(length) => {
                let end = block.len() + length;
                &&& end > stream.len() ==> first_message(stream) == Err::<Seq<u8>, ReadError>(
                    ReadError::EndOfStream,
                ) && used(stream) == stream.len()
                &&& end <= stream.len() ==> used(stream) == end
                &&& end <= stream.len() && !is_json(stream.subrange(block.len() as int, end as int))
                    ==> first_message(stream) == Err::<Seq<u8>, ReadError>(ReadError::NotJson)
                &&& end <= stream.len() && is_json(stream.subrange(block.len() as int, end as int))
                    ==> first_message(stream) == Ok::<Seq<u8>, ReadError>(
                    stream.subrange(block.len() as int, end as int),
                )
            },
        },
{
    headers_end(stream, block, 0);
}

/// A frame begins with the length of its body in decimal, and ends with the body.
pub proof fn frames_say_the_length(body: Seq<u8>)
    ensures
        framed(body) == utf8::encode_utf8(
            "Content-Length: "@ + decimal::decimal(body.len()) + "\r\n\r\n"@,
        ) + body,
        framed(body).skip(framed(body).len() - body.len()) == body,
{
    assert(framed(body).skip(framed(body).len() - body.len()) =~= body);
}

/// Each fault is told in its own words.
pub proof fn faults_are_told(length: usize, error: Json)
    ensures
        ReadError::EndOfStream.says() == "failed to fill whole buffer"@,
        ReadError::HeadersTooLarge.says() == "RPC headers are too large"@,
        ReadError::LengthMissing.says() == "RPC content length missing"@,
        ReadError::NotJson.says() == "RPC body is not JSON"@,
        ReadError::TooLong(length).says() == "RPC content length "@ + decimal::decimal(
            length as nat,
        ) + " exceeds the 67108864-byte limit"@,
        CallError::Interrupted.says() == "shutdown requested"@,
        CallError::TimedOut.says() == "OpenTabletDriver did not respond"@,
        CallError::Closed.says() == "OpenTabletDriver connection closed"@,
        CallError::Refused(error).says() == "RPC error"@,
        CallError::NoResult.says() == "RPC response has no result"@,
{
}

proof fn headers_do_not_end(stream: Seq<u8>, n: int)
    requires
        0 <= n <= stream.len(),
        n <= 8_192,
        forall|k: int|
            0 < k <= stream.len() && k <= 8_193 ==> !ends_headers(#[trigger] stream.take(k)),
    ensures
        stream.len() <= 8_192 ==> header_size(stream, n) == Err::<int, ReadError>(
            ReadError::EndOfStream,
        ),
        stream.len() > 8_192 ==> header_size(stream, n) == Err::<int, ReadError>(
            ReadError::HeadersTooLarge,
        ),
    decreases stream.len() - n,
{
    if n < stream.len() {
        assert(!ends_headers(stream.take(n + 1)));
        if n + 1 <= 8_192 {
            headers_do_not_end(stream, n + 1);
        }
    }
}

/// A stream whose headers do not end gives no message: it has ended itself, or its headers are too
/// large, and then no more than 8193 bytes of it are taken.
pub proof fn endless_headers_are_refused(stream: Seq<u8>)
    requires
        forall|k: int|
            0 < k <= stream.len() && k <= 8_193 ==> !ends_headers(#[trigger] stream.take(k)),
    ensures
        stream.len() <= 8_192 ==> first_message(stream) == Err::<Seq<u8>, ReadError>(
            ReadError::EndOfStream,
        ) && used(stream) == stream.len(),
        stream.len() > 8_192 ==> first_message(stream) == Err::<Seq<u8>, ReadError>(
            ReadError::HeadersTooLarge,
        ) && used(stream) == 8_193,
{
    headers_do_not_end(stream, 0);
}

} // verus!
