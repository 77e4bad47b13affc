//! The JSONL protocol: requests, responses, and the framing of lines.
use vstd::prelude::*;
use vstd::utf8::{decode_utf8, encode_scalar, encode_utf8, valid_utf8};

use crate::error::{error_message, ErrorView, IoKind, SpindleError};
use crate::json::Json;
use crate::text::{is_blank, text_is_blank};

verus! {

/// How many bytes a message may have unless told otherwise.
pub const DEFAULT_JSONL_MESSAGE_LIMIT: usize = 1_048_576;

/// JSONL request accepted by the spindle socket server.
#[allow(inconsistent_fields)]
#[derive(Debug, PartialEq, Eq)]
pub enum HubRequest {
    /// Append an event.
    Emit {
        /// Event type.
        kind: String,
        /// Event source.
        source: String,
        /// Optional event subject.
        subject: Option<String>,
        /// Event payload.
        data: Json,
    },
    /// Query events from the append-only log.
    QueryEvents {
        /// Optional event type filter.
        kind: Option<String>,
        /// Optional source filter.
        source: Option<String>,
        /// Optional tail limit.
        limit: Option<usize>,
    },
    /// Record and dispatch an installed action request.
    Invoke {
        /// Action name.
        action: String,
        /// Logical requester.
        source: String,
        /// Action arguments.
        args: Json,
    },
    /// Invoke an action through a core-validated continuation handle.
    ContinuationInvoke {
        /// Opaque continuation identifier.
        continuation: String,
        /// Action name.
        action: String,
        /// Action arguments.
        args: Json,
    },
    /// Emit an extension-produced event through a core-validated continuation
    /// handle.
    ContinuationEmit {
        /// Opaque continuation identifier.
        continuation: String,
        /// Event type.
        kind: String,
        /// Optional event subject.
        subject: Option<String>,
        /// Event payload.
        data: Json,
    },
    /// Validate an extension manifest.
    ValidateExtension {
        /// Manifest path.
        manifest: String,
    },
    /// Install an extension package.
    InstallExtension {
        /// Extension package directory.
        package: String,
        /// Execute the package entrypoint to collect dynamic surface.
        trust_runtime: bool,
    },
    /// List registered extensions.
    ListExtensions,
}

/// JSONL response emitted by the spindle socket server.
#[derive(Debug, PartialEq, Eq)]
pub enum HubResponse {
    /// Successful request.
    Success {
        /// Response data.
        data: Json,
    },
    /// Failed request.
    Error {
        /// Error message.
        error: String,
    },
}

impl HubResponse {
    /// The response to a request: its data, or the message of its error.
    pub fn from_result(result: Result<Json, SpindleError>) -> (response: Self)
        ensures
            match result {
                Ok(data) => response == (HubResponse::Success { data }),
                Err(error) => response is Error && response->error@ == error_message(error@),
            },
    {
        match result {
            Ok(data) => HubResponse::Success { data },
            Err(error) => HubResponse::Error { error: error.message() },
        }
    }
}

/// Where a byte first occurs, or the number of bytes.
pub open spec fn first_byte(bytes: Seq<u8>, byte: u8) -> int
    decreases bytes.len(),
{
    if bytes.len() == 0 || bytes[0] == byte {
        0
    } else {
        1 + first_byte(bytes.drop_first(), byte)
    }
}

/// The most bytes that are read for a line: one more than the limit.
pub open spec fn read_cap(limit: usize) -> nat {
    if limit == usize::MAX {
        usize::MAX as nat
    } else {
        (limit + 1) as nat
    }
}

/// The bytes of the next line: up to and with the first line feed, but no more
/// than the limit and one.
pub open spec fn line_bytes(input: Seq<u8>, limit: usize) -> Seq<u8> {
    let capped = if input.len() <= read_cap(limit) {
        input
    } else {
        input.take(read_cap(limit) as int)
    };
    let end = first_byte(capped, 10);
    if end < capped.len() {
        capped.take(end + 1)
    } else {
        capped
    }
}

/// The message of the error with which `String::from_utf8` rejects some bytes.
pub uninterp spec fn utf8_error_text(bytes: Seq<u8>) -> Seq<char>;

/// What becomes of the bytes read for a line: nothing at the end of the input;
/// an error where they are over the limit, end without a line feed or are not
/// UTF-8; else the text.
pub open spec fn line_outcome(bytes: Seq<u8>, limit: usize) -> Result<
    Option<Seq<char>>,
    ErrorView,
> {
    if bytes.len() == 0 {
        Ok(None)
    } else if bytes.len() > limit {
        Err(ErrorView::MessageTooLarge { limit: limit as nat })
    } else if bytes.last() != 10 {
        Err(ErrorView::Io { class: IoKind::UnexpectedEof, message: "unexpected end of file"@ })
    } else if !valid_utf8(bytes) {
        Err(ErrorView::Io { class: IoKind::InvalidData, message: utf8_error_text(bytes) })
    } else {
        Ok(Some(decode_utf8(bytes)))
    }
}

/// The view of a line that was read.
pub open spec fn line_view(result: Result<Option<String>, SpindleError>) -> Result<
    Option<Seq<char>>,
    ErrorView,
> {
    match result {
        Ok(Some(line)) => Ok(Some(line@)),
        Ok(None) => Ok(None),
        Err(error) => Err(error@),
    }
}

/// `String::from_utf8`: the text whose UTF-8 encoding the bytes are, or an error
/// where they are no valid UTF-8. Its message depends on the bytes alone;
/// `utf8_error_text` names it.
#[verifier::external_body]
fn text_of_utf8(bytes: Vec<u8>) -> (result: Result<String, String>)
    ensures
        match result {
            Ok(text) => valid_utf8(bytes@) && text@ == decode_utf8(bytes@),
            Err(message) => !valid_utf8(bytes@) && message@ == utf8_error_text(bytes@),
        },
{
    String::from_utf8(bytes).map_err(|error| error.to_string())
}

/// The text of the bytes that were read for a line.
pub fn decode_jsonl_line(bytes: Vec<u8>, limit: usize) -> (result: Result<
    Option<String>,
    SpindleError,
>)
    ensures
        line_view(result) == line_outcome(bytes@, limit),
{
    if bytes.len() == 0 {
        return Ok(None);
    }
    if bytes.len() > limit {
        return Err(SpindleError::MessageTooLarge { limit });
    }
    if bytes[bytes.len() - 1] != 10 {
        return Err(
            SpindleError::Io {
                class: IoKind::UnexpectedEof,
                message: "unexpected end of file".to_owned(),
            },
        );
    }
    match text_of_utf8(bytes) {
        Ok(text) => Ok(Some(text)),
        Err(message) => Err(SpindleError::Io { class: IoKind::InvalidData, message }),
    }
}

proof fn lemma_first_byte(bytes: Seq<u8>, byte: u8, at: int)
    requires
        0 <= at <= bytes.len(),
        forall|j: int| 0 <= j < at ==> bytes[j] != byte,
        at < bytes.len() ==> bytes[at] == byte,
    ensures
        first_byte(bytes, byte) == at,
    decreases at,
{
    if at > 0 {
        assert(bytes[0] != byte);
        assert forall|j: int| 0 <= j < at - 1 implies bytes.drop_first()[j] != byte by {
            assert(bytes.drop_first()[j] == bytes[j + 1]);
        }
        lemma_first_byte(bytes.drop_first(), byte, at - 1);
    }
}

/// The most bytes that are read for a line.
pub fn line_read_cap(limit: usize) -> (most: usize)
    ensures
        most == read_cap(limit),
{
    limit.saturating_add(1)
}

/// Read the next line of an input whose bytes are at hand: the line, and how many
/// bytes were read for it, whether or not they make a line.
pub fn read_limited_jsonl_line(input: &[u8], limit: usize) -> (read: (
    Result<Option<String>, SpindleError>,
    usize,
))
    ensures
        line_view(read.0) == line_outcome(line_bytes(input@, limit), limit),
        read.1 == line_bytes(input@, limit).len(),
{
    let most: usize = line_read_cap(limit);
    let cap: usize = if input.len() <= most {
        input.len()
    } else {
        most
    };
    let ghost capped = input@.take(cap as int);
    assert(input@.len() <= read_cap(limit) ==> capped =~= input@);
    let mut bytes: Vec<u8> = Vec::new();
    let mut i: usize = 0;
    while i < cap && input[i] != 10
        invariant
            i <= cap <= input@.len(),
            capped == input@.take(cap as int),
            bytes@ =~= capped.take(i as int),
            forall|j: int| 0 <= j < i ==> capped[j] != 10,
        decreases cap - i,
    {
        bytes.push(input[i]);
        i = i + 1;
    }
    proof {
        lemma_first_byte(capped, 10, i as int);
    }
    if i < cap {
        bytes.push(input[i]);
        assert(bytes@ =~= capped.take(i + 1));
    } else {
        assert(bytes@ =~= capped);
    }
    let count: usize = bytes.len();
    (decode_jsonl_line(bytes, limit), count)
}

proof fn lemma_first_byte_range(bytes: Seq<u8>, byte: u8)
    ensures
        0 <= first_byte(bytes, byte) <= bytes.len(),
    decreases bytes.len(),
{
    if bytes.len() > 0 && bytes[0] != byte {
        lemma_first_byte_range(bytes.drop_first(), byte);
    }
}

/// What is read for a line is the front of the input, and never more than the
/// limit and one byte. Something is read unless the input is at its end, so that
/// reading on comes to the end of every input.
pub proof fn law_line_is_front(input: Seq<u8>, limit: usize)
    ensures
        line_bytes(input, limit).len() <= input.len(),
        line_bytes(input, limit).len() <= limit + 1,
        line_bytes(input, limit) == input.take(line_bytes(input, limit).len() as int),
        input.len() > 0 ==> line_bytes(input, limit).len() > 0,
{
    let capped = if input.len() <= read_cap(limit) {
        input
    } else {
        input.take(read_cap(limit) as int)
    };
    lemma_first_byte_range(capped, 10);
    let line = line_bytes(input, limit);
    assert(line =~= input.take(line.len() as int));
}

/// The bytes of a message on a line of its own.
pub open spec fn framed(text: Seq<char>) -> Seq<u8> {
    encode_utf8(text).push(10)
}

proof fn lemma_encode_push(text: Seq<char>, c: char)
    ensures
        encode_utf8(text.push(c)) == encode_utf8(text) + encode_scalar(c as u32),
    decreases text.len(),
{
    if text.len() == 0 {
        assert(text.push(c).drop_first() =~= Seq::<char>::empty());
        assert(encode_utf8(Seq::<char>::empty()) =~= Seq::<u8>::empty());
        assert(encode_utf8(text.push(c)) =~= encode_utf8(text) + encode_scalar(c as u32));
    } else {
        assert(text.push(c).drop_first() =~= text.drop_first().push(c));
        lemma_encode_push(text.drop_first(), c);
        assert(encode_utf8(text.push(c)) =~= encode_utf8(text) + encode_scalar(c as u32));
    }
}

proof fn lemma_scalar_bytes(c: char)
    requires
        c != '\n',
    ensures
        !encode_scalar(c as u32).contains(10),
{
    let scalar = c as u32;
    assert(scalar != 10);
    assert(scalar <= 0x7f && scalar != 10 ==> (scalar & 0x7F) as u8 != 10) by (bit_vector);
    assert((0xC0u8 | ((scalar >> 6) & 0x1F) as u8) != 10) by (bit_vector);
    assert((0xE0u8 | ((scalar >> 12) & 0x0F) as u8) != 10) by (bit_vector);
    assert((0xF0u8 | ((scalar >> 18) & 0x7) as u8) != 10) by (bit_vector);
    assert((0x80u8 | (scalar & 0x3F) as u8) != 10) by (bit_vector);
    assert((0x80u8 | ((scalar >> 6) & 0x3F) as u8) != 10) by (bit_vector);
    assert((0x80u8 | ((scalar >> 12) & 0x3F) as u8) != 10) by (bit_vector);
}

proof fn lemma_no_line_feed(text: Seq<char>)
    requires
        !text.contains('\n'),
    ensures
        forall|i: int| 0 <= i < encode_utf8(text).len() ==> encode_utf8(text)[i] != 10,
    decreases text.len(),
{
    if text.len() > 0 {
        let rest = text.drop_first();
        assert(!rest.contains('\n')) by {
            if rest.contains('\n') {
                let k = choose|k: int| 0 <= k < rest.len() && rest[k] == '\n';
                assert(text[k + 1] == '\n');
            }
        }
        lemma_no_line_feed(rest);
        assert(text.contains(text[0]));
        lemma_scalar_bytes(text[0]);
        let head = encode_scalar(text[0] as u32);
        assert forall|i: int| 0 <= i < encode_utf8(text).len() implies encode_utf8(text)[i]
            != 10 by {
            if i >= head.len() {
                assert(encode_utf8(text)[i] == encode_utf8(rest)[i - head.len()]);
            } else {
                assert(head.contains(head[i]));
            }
        }
    }
}

/// A message without a line feed that fits the limit is read back as it was
/// written, followed by its line feed, whatever comes behind it; what comes behind
/// it is left for the next read.
pub proof fn law_read_gives_written(text: Seq<char>, behind: Seq<u8>, limit: usize)
    requires
        !text.contains('\n'),
        framed(text).len() <= limit,
    ensures
        line_outcome(line_bytes(framed(text) + behind, limit), limit) == Ok::<
            Option<Seq<char>>,
            ErrorView,
        >(Some(text.push('\n'))),
        (framed(text) + behind).skip(
            line_bytes(framed(text) + behind, limit).len() as int,
        ) == behind,
{
    let line = framed(text);
    let input = line + behind;
    let capped = if input.len() <= read_cap(limit) {
        input
    } else {
        input.take(read_cap(limit) as int)
    };
    lemma_no_line_feed(text);
    let end = encode_utf8(text).len() as int;
    assert forall|j: int| 0 <= j < end implies capped[j] != 10 by {
        assert(capped[j] == encode_utf8(text)[j]);
    }
    assert(capped[end] == 10);
    lemma_first_byte(capped, 10, end);
    assert(capped.take(end + 1) =~= line);
    assert(input.skip(line.len() as int) =~= behind);
    lemma_encode_push(text, '\n');
    assert(encode_scalar('\n' as u32) =~= seq![10u8]) by {
        assert((10u32 & 0x7F) as u8 == 10) by (bit_vector);
    }
    assert(line =~= encode_utf8(text.push('\n')));
    vstd::utf8::encode_utf8_valid_utf8(text.push('\n'));
    vstd::utf8::encode_utf8_decode_utf8(text.push('\n'));
}

/// A message over the limit is refused, whatever it holds.
pub proof fn law_oversized_refused(input: Seq<u8>, limit: usize)
    requires
        limit < usize::MAX,
        input.len() > limit,
        forall|i: int| 0 <= i < limit ==> input[i] != 10,
    ensures
        line_outcome(line_bytes(input, limit), limit) == Err::<Option<Seq<char>>, ErrorView>(
            ErrorView::MessageTooLarge { limit: limit as nat },
        ),
{
    let capped = if input.len() <= read_cap(limit) {
        input
    } else {
        input.take(read_cap(limit) as int)
    };
    assert forall|j: int| 0 <= j < limit implies capped[j] != 10 by {
        assert(capped[j] == input[j]);
    }
    let at = if capped[limit as int] == 10 {
        limit as int
    } else {
        limit + 1
    };
    lemma_first_byte(capped, 10, at);
}

/// What a server does about the next line of a connection.
#[derive(Debug, PartialEq, Eq)]
pub enum StreamStep {
    /// The client is done: close the connection.
    Close,
    /// Read the next line.
    Skip,
    /// Send one response, and close the connection.
    RefuseAndClose {
        /// The response.
        response: HubResponse,
    },
    /// Execute the request on the line, send the response, and read on.
    Execute {
        /// The line.
        line: String,
    },
}

/// Decide what to do about the next line of a connection.
pub fn stream_step(read: Result<Option<String>, SpindleError>) -> (step: StreamStep)
    ensures
        match read {
            Ok(None) => step is Close,
            Ok(Some(line)) => if is_blank(line@) {
                step is Skip
            } else {
                step == (StreamStep::Execute { line })
            },
            Err(error) => {
                &&& step is RefuseAndClose
                &&& step->response is Error
                &&& step->response->error@ == error_message(error@)
            },
        },
{
    match read {
        Ok(None) => StreamStep::Close,
        Ok(Some(line)) => if text_is_blank(line.as_str()) {
            StreamStep::Skip
        } else {
            StreamStep::Execute { line }
        },
        Err(error) => StreamStep::RefuseAndClose {
            response: HubResponse::from_result(Err(error)),
        },
    }
}

/// A line ends at the first line feed. What is read for it ends earlier only where
/// the input ends, or where it is a byte over the limit.
pub proof fn law_line_ends_at_the_first_line_feed(input: Seq<u8>, limit: usize)
    requires
        limit < usize::MAX,
    ensures
        forall|i: int|
            0 <= i < line_bytes(input, limit).len() - 1 ==> #[trigger] line_bytes(input, limit)[i]
                != 10,
        input.len() > 0 ==> {
            ||| line_bytes(input, limit).last() == 10
            ||| line_bytes(input, limit) == input
            ||| line_bytes(input, limit).len() == limit + 1
        },
{
    let capped = if input.len() <= read_cap(limit) {
        input
    } else {
        input.take(read_cap(limit) as int)
    };
    lemma_before_first_byte(capped, 10);
}

proof fn lemma_before_first_byte(bytes: Seq<u8>, byte: u8)
    ensures
        0 <= first_byte(bytes, byte) <= bytes.len(),
        forall|i: int| 0 <= i < first_byte(bytes, byte) ==> #[trigger] bytes[i] != byte,
        first_byte(bytes, byte) < bytes.len() ==> bytes[first_byte(bytes, byte)] == byte,
    decreases bytes.len(),
{
    if bytes.len() > 0 && bytes[0] != byte {
        let rest = bytes.drop_first();
        lemma_before_first_byte(rest, byte);
        assert forall|i: int| 0 <= i < first_byte(bytes, byte) implies #[trigger] bytes[i]
            != byte by {
            if i > 0 {
                assert(rest[i - 1] == bytes[i]);
            }
        }
    }
}

/// Bytes are accepted as a line exactly where they are UTF-8 within the limit and end
/// with a line feed; the text is the one that they encode. No bytes at all mean the
/// end of the input.
pub proof fn law_line_is_the_text_of_its_bytes(bytes: Seq<u8>, limit: usize)
    ensures
        line_outcome(bytes, limit) == Ok::<Option<Seq<char>>, ErrorView>(None) <==> bytes.len()
            == 0,
        bytes.len() > 0 ==> (line_outcome(bytes, limit) is Ok <==> bytes.len() <= limit
            && bytes.last() == 10 && valid_utf8(bytes)),
        line_outcome(bytes, limit) matches Ok(Some(text)) ==> encode_utf8(text) == bytes,
        bytes.len() > limit ==> line_outcome(bytes, limit) == Err::<Option<Seq<char>>, ErrorView>(
            ErrorView::MessageTooLarge { limit: limit as nat },
        ),
        0 < bytes.len() <= limit && bytes.last() != 10 ==> line_outcome(bytes, limit) is Err
            && line_outcome(bytes, limit)->Err_0 is Io && line_outcome(bytes, limit)->Err_0->class
            == IoKind::UnexpectedEof,
{
    if valid_utf8(bytes) {
        vstd::utf8::decode_utf8_encode_utf8(bytes);
    }
}

} // verus!
