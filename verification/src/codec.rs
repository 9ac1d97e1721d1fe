//! The frame codec: a self-describing binary payload for each message
//! (variant tag, then length-prefixed fields), carried on the wire inside a
//! 4-byte big-endian length envelope.
//!
//! Encoding is deterministic and total for every message whose encoded size
//! fits the 32-bit length field; decoding validates the payload completely
//! and never yields a partially-constructed message.

use vstd::prelude::*;
use vstd::utf8::{encode_utf8, decode_utf8, valid_utf8};
use crate::message::{MessageType, MsgView};
use crate::report::ChatError;
use crate::wire::{
    spec_u32_be, spec_u32_from_be, lemma_u32_be_round_trip, push_u32_be, read_u32_be, copy_range,
    append_bytes,
};

verus! {

/// Wire tag of a `Text` payload.
pub const TAG_TEXT: u8 = 0;

/// Wire tag of an `Image` payload.
pub const TAG_IMAGE: u8 = 1;

/// Wire tag of a `File` payload.
pub const TAG_FILE: u8 = 2;

/// Wire tag of a `Quit` payload.
pub const TAG_QUIT: u8 = 3;

/// Wire tag of an `Error` payload.
pub const TAG_ERROR: u8 = 4;

/// Wire tag of a `Login` payload.
pub const TAG_LOGIN: u8 = 5;

/// Wire tag of a `Register` payload.
pub const TAG_REGISTER: u8 = 6;

/// A byte blob as it appears inside a payload: its 32-bit big-endian length,
/// then the bytes themselves.
pub open spec fn spec_blob_field(b: Seq<u8>) -> Seq<u8> {
    spec_u32_be(b.len() as u32) + b
}

/// A string as it appears inside a payload: the length-prefixed UTF-8
/// encoding of its characters.
pub open spec fn spec_string_field(s: Seq<char>) -> Seq<u8> {
    spec_blob_field(encode_utf8(s))
}

/// The encoded payload of a message: the variant tag followed by the
/// variant's fields, each field carrying its own length.
pub open spec fn spec_payload(m: MsgView) -> Seq<u8> {
    match m {
        MsgView::Text(t) => seq![TAG_TEXT] + spec_string_field(t),
        MsgView::Image(b) => seq![TAG_IMAGE] + spec_blob_field(b),
        MsgView::File(n, b) => seq![TAG_FILE] + spec_string_field(n) + spec_blob_field(b),
        MsgView::Quit => seq![TAG_QUIT],
        MsgView::Error(e) => seq![TAG_ERROR] + spec_string_field(e),
        MsgView::Login(u) => seq![TAG_LOGIN] + spec_string_field(u),
        MsgView::Register(u) => seq![TAG_REGISTER] + spec_string_field(u),
    }
}

/// A message is encodable when its payload fits the 32-bit frame length,
/// which also bounds every field's own length prefix.
pub open spec fn spec_encodable(m: MsgView) -> bool {
    match m {
        MsgView::Text(t) => 5 + encode_utf8(t).len() <= u32::MAX,
        MsgView::Image(b) => 5 + b.len() <= u32::MAX,
        MsgView::File(n, b) => 9 + encode_utf8(n).len() + b.len() <= u32::MAX,
        MsgView::Quit => true,
        MsgView::Error(e) => 5 + encode_utf8(e).len() <= u32::MAX,
        MsgView::Login(u) => 5 + encode_utf8(u).len() <= u32::MAX,
        MsgView::Register(u) => 5 + encode_utf8(u).len() <= u32::MAX,
    }
}

/// An encodable payload fits the 32-bit length field.
pub proof fn lemma_encodable_payload_len(m: MsgView)
    requires
        spec_encodable(m),
    ensures
        spec_payload(m).len() <= u32::MAX,
{
}

/// Why a message could not be serialized.
#[derive(Debug, Clone, Copy, PartialEq, Eq, Structural)]
pub enum SerializationError {
    /// A field or the whole payload exceeds the 32-bit length field.
    MessageTooLarge,
}

/// Why a payload could not be deserialized.
#[derive(Debug, Clone, Copy, PartialEq, Eq, Structural)]
pub enum DeserializationError {
    /// Unknown tag, a field length past the end of the payload, trailing
    /// bytes, or a string field that is not UTF-8.
    MalformedPayload,
}

/// Appends one length-prefixed string field to `out`.
fn push_string_field(out: &mut Vec<u8>, s: &String) -> (r: Result<(), SerializationError>)
    ensures
        match r {
            Ok(()) => encode_utf8(s@).len() <= u32::MAX - 5 && final(out)@ == old(out)@
                + spec_string_field(s@),
            Err(e) => encode_utf8(s@).len() > u32::MAX - 5 && final(out)@ == old(out)@ && e
                == SerializationError::MessageTooLarge,
        },
{
    let bytes = s.as_str().as_bytes_vec();
    let limit: usize = (u32::MAX - 5) as usize;
    if bytes.len() > limit {
        return Err(SerializationError::MessageTooLarge);
    }
    push_u32_be(out, bytes.len() as u32);
    append_bytes(out, &bytes);
    assert(out@ =~= old(out)@ + spec_string_field(s@));
    Ok(())
}

/// Serializes a message into its self-describing binary payload (without
/// the outer frame length). Succeeds exactly when the message is encodable;
/// the only failure is a payload too large for the 32-bit length field.
pub fn serialize_message(message: &MessageType) -> (r: Result<Vec<u8>, SerializationError>)
    ensures
        match r {
            Ok(bytes) => spec_encodable(message@) && bytes@ == spec_payload(message@),
            Err(e) => !spec_encodable(message@) && e == SerializationError::MessageTooLarge,
        },
{
    let mut out: Vec<u8> = Vec::new();
    match message {
        MessageType::Text(t) => {
            out.push(TAG_TEXT);
            push_string_field(&mut out, t)?;
        },
        MessageType::Image(b) => {
            let limit: usize = (u32::MAX - 5) as usize;
            if b.len() > limit {
                return Err(SerializationError::MessageTooLarge);
            }
            out.push(TAG_IMAGE);
            push_u32_be(&mut out, b.len() as u32);
            append_bytes(&mut out, b);
        },
        MessageType::File(n, b) => {
            let name_bytes = n.as_str().as_bytes_vec();
            let limit: usize = (u32::MAX - 9) as usize;
            if name_bytes.len() > limit || b.len() > limit - name_bytes.len() {
                return Err(SerializationError::MessageTooLarge);
            }
            out.push(TAG_FILE);
            push_u32_be(&mut out, name_bytes.len() as u32);
            append_bytes(&mut out, &name_bytes);
            push_u32_be(&mut out, b.len() as u32);
            append_bytes(&mut out, b);
        },
        MessageType::Quit => {
            out.push(TAG_QUIT);
        },
        MessageType::Error(e) => {
            out.push(TAG_ERROR);
            push_string_field(&mut out, e)?;
        },
        MessageType::Login(u) => {
            out.push(TAG_LOGIN);
            push_string_field(&mut out, u)?;
        },
        MessageType::Register(u) => {
            out.push(TAG_REGISTER);
            push_string_field(&mut out, u)?;
        },
    }
    assert(out@ =~= spec_payload(message@));
    Ok(out)
}

/// Reads the length-prefixed blob starting at position `i` of `b`: the blob
/// bytes and the position just past them, or nothing when the data runs out
/// before the prefix or before the blob ends.
pub open spec fn spec_parse_blob(b: Seq<u8>, i: int) -> Option<(Seq<u8>, int)> {
    if i + 4 <= b.len() {
        let n = spec_u32_from_be(b.subrange(i, i + 4)) as int;
        if i + 4 + n <= b.len() {
            Some((b.subrange(i + 4, i + 4 + n), i + 4 + n))
        } else {
            None
        }
    } else {
        None
    }
}

/// Reads the length-prefixed string field starting at position `i` of `b`:
/// the decoded characters and the position just past the field, or nothing
/// when the blob cannot be read or is not valid UTF-8.
pub open spec fn spec_parse_string(b: Seq<u8>, i: int) -> Option<(Seq<char>, int)> {
    match spec_parse_blob(b, i) {
        Some((bytes, j)) => if valid_utf8(bytes) {
            Some((decode_utf8(bytes), j))
        } else {
            None
        },
        None => None,
    }
}

/// Parses a whole payload: the tag, then the variant's fields, which must
/// consume the payload exactly. Any unknown tag, any field running past the
/// end, any trailing byte and any non-UTF-8 string field yield nothing.
pub open spec fn spec_parse_payload(b: Seq<u8>) -> Option<MsgView> {
    if b.len() < 1 {
        None
    } else {
        let tag = b[0];
        if tag == TAG_TEXT {
            match spec_parse_string(b, 1) {
                Some((t, j)) => if j == b.len() {
                    Some(MsgView::Text(t))
                } else {
                    None
                },
                None => None,
            }
        } else if tag == TAG_IMAGE {
            match spec_parse_blob(b, 1) {
                Some((bytes, j)) => if j == b.len() {
                    Some(MsgView::Image(bytes))
                } else {
                    None
                },
                None => None,
            }
        } else if tag == TAG_FILE {
            match spec_parse_string(b, 1) {
                Some((name, j)) => match spec_parse_blob(b, j) {
                    Some((bytes, k)) => if k == b.len() {
                        Some(MsgView::File(name, bytes))
                    } else {
                        None
                    },
                    None => None,
                },
                None => None,
            }
        } else if tag == TAG_QUIT {
            if b.len() == 1 {
                Some(MsgView::Quit)
            } else {
                None
            }
        } else if tag == TAG_ERROR {
            match spec_parse_string(b, 1) {
                Some((e, j)) => if j == b.len() {
                    Some(MsgView::Error(e))
                } else {
                    None
                },
                None => None,
            }
        } else if tag == TAG_LOGIN {
            match spec_parse_string(b, 1) {
                Some((u, j)) => if j == b.len() {
                    Some(MsgView::Login(u))
                } else {
                    None
                },
                None => None,
            }
        } else if tag == TAG_REGISTER {
            match spec_parse_string(b, 1) {
                Some((u, j)) => if j == b.len() {
                    Some(MsgView::Register(u))
                } else {
                    None
                },
                None => None,
            }
        } else {
            None
        }
    }
}

/// Relies on `String::from_utf8`: it succeeds exactly on valid UTF-8 and
/// returns the string those bytes encode, as stated by its documentation.
#[verifier::external_body]
fn string_from_utf8(bytes: Vec<u8>) -> (r: Option<String>)
    ensures
        match r {
            Some(s) => valid_utf8(bytes@) && encode_utf8(s@) == bytes@,
            None => !valid_utf8(bytes@),
        },
{
    String::from_utf8(bytes).ok()
}

/// Reads the length-prefixed blob at position `i` of `data`, returning the
/// blob and the position just past it exactly as [`spec_parse_blob`] does.
fn read_blob_field(data: &Vec<u8>, i: usize) -> (r: Option<(Vec<u8>, usize)>)
    requires
        i <= data@.len(),
    ensures
        match r {
            Some((bytes, j)) => spec_parse_blob(data@, i as int) == Some((bytes@, j as int)) && i
                <= j <= data@.len(),
            None => spec_parse_blob(data@, i as int) is None,
        },
{
    let total = data.len();
    if total - i < 4 {
        return None;
    }
    let n32 = read_u32_be(data, i);
    let n = n32 as usize;
    if total - i - 4 < n {
        return None;
    }
    let bytes = copy_range(data, i + 4, i + 4 + n);
    Some((bytes, i + 4 + n))
}

/// Reads the length-prefixed string field at position `i` of `data`,
/// returning the string and the position just past the field exactly as
/// [`spec_parse_string`] does.
fn read_string_field(data: &Vec<u8>, i: usize) -> (r: Option<(String, usize)>)
    requires
        i <= data@.len(),
    ensures
        match r {
            Some((s, j)) => spec_parse_string(data@, i as int) == Some((s@, j as int)) && i <= j
                <= data@.len(),
            None => spec_parse_string(data@, i as int) is None,
        },
{
    match read_blob_field(data, i) {
        Some((bytes, j)) => {
            match string_from_utf8(bytes) {
                Some(s) => {
                    proof {
                        vstd::utf8::encode_utf8_decode_utf8(s@);
                    }
                    Some((s, j))
                },
                None => None,
            }
        },
        None => None,
    }
}

/// Deserializes a payload into a message. Succeeds exactly on the payloads
/// that [`spec_parse_payload`] accepts, and never yields a partially
/// constructed message.
pub fn deserialize_message(data: &Vec<u8>) -> (r: Result<MessageType, DeserializationError>)
    ensures
        match r {
            Ok(m) => spec_parse_payload(data@) == Some(m@),
            Err(e) => spec_parse_payload(data@) is None && e
                == DeserializationError::MalformedPayload,
        },
{
    let total = data.len();
    if total < 1 {
        return Err(DeserializationError::MalformedPayload);
    }
    let tag = data[0];
    if tag == TAG_TEXT {
        match read_string_field(data, 1) {
            Some((t, j)) => if j == total {
                Ok(MessageType::Text(t))
            } else {
                Err(DeserializationError::MalformedPayload)
            },
            None => Err(DeserializationError::MalformedPayload),
        }
    } else if tag == TAG_IMAGE {
        match read_blob_field(data, 1) {
            Some((bytes, j)) => if j == total {
                Ok(MessageType::Image(bytes))
            } else {
                Err(DeserializationError::MalformedPayload)
            },
            None => Err(DeserializationError::MalformedPayload),
        }
    } else if tag == TAG_FILE {
        match read_string_field(data, 1) {
            Some((name, j)) => match read_blob_field(data, j) {
                Some((bytes, k)) => if k == total {
                    Ok(MessageType::File(name, bytes))
                } else {
                    Err(DeserializationError::MalformedPayload)
                },
                None => Err(DeserializationError::MalformedPayload),
            },
            None => Err(DeserializationError::MalformedPayload),
        }
    } else if tag == TAG_QUIT {
        if total == 1 {
            Ok(MessageType::Quit)
        } else {
            Err(DeserializationError::MalformedPayload)
        }
    } else if tag == TAG_ERROR {
        match read_string_field(data, 1) {
            Some((e, j)) => if j == total {
                Ok(MessageType::Error(e))
            } else {
                Err(DeserializationError::MalformedPayload)
            },
            None => Err(DeserializationError::MalformedPayload),
        }
    } else if tag == TAG_LOGIN {
        match read_string_field(data, 1) {
            Some((u, j)) => if j == total {
                Ok(MessageType::Login(u))
            } else {
                Err(DeserializationError::MalformedPayload)
            },
            None => Err(DeserializationError::MalformedPayload),
        }
    } else if tag == TAG_REGISTER {
        match read_string_field(data, 1) {
            Some((u, j)) => if j == total {
                Ok(MessageType::Register(u))
            } else {
                Err(DeserializationError::MalformedPayload)
            },
            None => Err(DeserializationError::MalformedPayload),
        }
    } else {
        Err(DeserializationError::MalformedPayload)
    }
}

/// The full wire frame of a message: the payload behind a 4-byte big-endian
/// length, which is the same shape as a blob field.
pub open spec fn spec_frame(m: MsgView) -> Seq<u8> {
    spec_blob_field(spec_payload(m))
}

/// Encodes a message into a complete wire frame. Succeeds exactly when the
/// message is encodable.
pub fn encode_frame(message: &MessageType) -> (r: Result<Vec<u8>, SerializationError>)
    ensures
        match r {
            Ok(bytes) => spec_encodable(message@) && bytes@ == spec_frame(message@),
            Err(e) => !spec_encodable(message@) && e == SerializationError::MessageTooLarge,
        },
{
    let payload = serialize_message(message)?;
    proof {
        lemma_encodable_payload_len(message@);
    }
    let mut out: Vec<u8> = Vec::new();
    push_u32_be(&mut out, payload.len() as u32);
    append_bytes(&mut out, &payload);
    assert(out@ =~= spec_frame(message@));
    Ok(out)
}

/// Decodes the frame starting at position `start` of the received bytes.
///
/// When the data ends before the 4 length bytes or before the announced
/// payload, the result is the fatal `Framing` error, never a partial value;
/// when the payload is complete but does not parse, it is `Decode`.
pub fn decode_frame(data: &Vec<u8>, start: usize) -> (r: Result<(MessageType, usize), ChatError>)
    ensures
        match r {
            Ok((m, next)) => spec_parse_blob(data@, start as int) matches Some((payload, j))
                && next == j && spec_parse_payload(payload) == Some(m@),
            Err(e) => (e == ChatError::Framing && spec_parse_blob(data@, start as int) is None) || (
            e == ChatError::Decode && (spec_parse_blob(data@, start as int) matches Some((payload, _))
                && spec_parse_payload(payload) is None)),
        },
{
    if start > data.len() {
        return Err(ChatError::Framing);
    }
    match read_blob_field(data, start) {
        Some((payload, next)) => match deserialize_message(&payload) {
            Ok(m) => Ok((m, next)),
            Err(_) => Err(ChatError::Decode),
        },
        None => Err(ChatError::Framing),
    }
}

/// Reading the length-prefixed blob `x` back out of any byte sequence that
/// carries `spec_blob_field(x)` at position `i` yields exactly `x`.
pub proof fn lemma_parse_blob_at(b: Seq<u8>, i: int, x: Seq<u8>)
    requires
        0 <= i,
        x.len() <= u32::MAX,
        i + 4 + x.len() <= b.len(),
        b.subrange(i, i + 4 + x.len()) == spec_blob_field(x),
    ensures
        spec_parse_blob(b, i) == Some((x, i + 4 + x.len() as int)),
{
    let field = spec_blob_field(x);
    let len32 = x.len() as u32;
    lemma_u32_be_round_trip(len32);
    assert(b.subrange(i, i + 4) =~= field.subrange(0, 4));
    assert(field.subrange(0, 4) =~= spec_u32_be(len32));
    let n = spec_u32_from_be(b.subrange(i, i + 4)) as int;
    assert(n == x.len());
    assert(b.subrange(i + 4, i + 4 + n) =~= field.subrange(4, 4 + n));
    assert(field.subrange(4, 4 + n) =~= x);
}

/// Round trip of the payload encoding: parsing the encoded payload of any
/// encodable message yields exactly that message.
pub proof fn lemma_payload_round_trip(m: MsgView)
    requires
        spec_encodable(m),
    ensures
        spec_parse_payload(spec_payload(m)) == Some(m),
{
    let b = spec_payload(m);
    match m {
        MsgView::Text(t) => {
            assert(b.subrange(1, 5 + encode_utf8(t).len() as int) =~= spec_string_field(t));
            lemma_string_field_round_trip(b, 1, t);
        },
        MsgView::Image(bytes) => {
            assert(b.subrange(1, 5 + bytes.len() as int) =~= spec_blob_field(bytes));
            lemma_parse_blob_at(b, 1, bytes);
        },
        MsgView::File(name, bytes) => {
            assert(b.subrange(1, 5 + encode_utf8(name).len() as int) =~= spec_string_field(name));
            lemma_string_field_round_trip(b, 1, name);
            let j = 1 + 4 + encode_utf8(name).len() as int;
            assert(b.subrange(j, j + 4 + bytes.len()) =~= spec_blob_field(bytes));
            lemma_parse_blob_at(b, j, bytes);
        },
        MsgView::Quit => {},
        MsgView::Error(e) => {
            assert(b.subrange(1, 5 + encode_utf8(e).len() as int) =~= spec_string_field(e));
            lemma_string_field_round_trip(b, 1, e);
        },
        MsgView::Login(u) => {
            assert(b.subrange(1, 5 + encode_utf8(u).len() as int) =~= spec_string_field(u));
            lemma_string_field_round_trip(b, 1, u);
        },
        MsgView::Register(u) => {
            assert(b.subrange(1, 5 + encode_utf8(u).len() as int) =~= spec_string_field(u));
            lemma_string_field_round_trip(b, 1, u);
        },
    }
}

/// Parsing the string field that `spec_string_field(s)` wrote at position
/// `i` of `b` yields exactly `s`.
proof fn lemma_string_field_round_trip(b: Seq<u8>, i: int, s: Seq<char>)
    requires
        0 <= i,
        encode_utf8(s).len() <= u32::MAX,
        i + 4 + encode_utf8(s).len() <= b.len(),
        b.subrange(i, i + 4 + encode_utf8(s).len()) == spec_string_field(s),
    ensures
        spec_parse_string(b, i) == Some((s, i + 4 + encode_utf8(s).len() as int)),
{
    lemma_parse_blob_at(b, i, encode_utf8(s));
    vstd::utf8::encode_utf8_valid_utf8(s);
    vstd::utf8::encode_utf8_decode_utf8(s);
}

/// Round trip of the whole frame: the frame of any encodable message parses
/// back into exactly that message, consuming the frame entirely.
pub proof fn lemma_frame_round_trip(m: MsgView)
    requires
        spec_encodable(m),
    ensures
        spec_parse_blob(spec_frame(m), 0) == Some(
            (spec_payload(m), spec_frame(m).len() as int),
        ),
        spec_parse_payload(spec_payload(m)) == Some(m),
{
    lemma_encodable_payload_len(m);
    assert(spec_frame(m).subrange(0, 4 + spec_payload(m).len() as int) =~= spec_blob_field(
        spec_payload(m),
    ));
    lemma_parse_blob_at(spec_frame(m), 0, spec_payload(m));
    lemma_payload_round_trip(m);
}

/// The UTF-8 encoding of a character sequence takes at most four bytes per
/// character.
pub proof fn lemma_encode_utf8_len_bound(s: Seq<char>)
    ensures
        encode_utf8(s).len() <= 4 * s.len(),
    decreases s.len(),
{
    if s.len() > 0 {
        lemma_encode_utf8_len_bound(s.drop_first());
    }
}

/// A frame cut off anywhere before its end — mid-length or mid-payload —
/// is rejected as a framing failure: the frame read yields nothing, so no
/// partial message can ever be produced from it.
pub proof fn lemma_truncated_frame_rejected(m: MsgView, cut: int)
    requires
        spec_encodable(m),
        0 <= cut < spec_frame(m).len(),
    ensures
        spec_parse_blob(spec_frame(m).subrange(0, cut), 0) is None,
{
    let f = spec_frame(m);
    let p = f.subrange(0, cut);
    if cut >= 4 {
        lemma_encodable_payload_len(m);
        let len32 = spec_payload(m).len() as u32;
        lemma_u32_be_round_trip(len32);
        assert(p.subrange(0, 4) =~= spec_u32_be(len32));
        assert(4 + spec_u32_from_be(p.subrange(0, 4)) > p.len());
    }
}

} // verus!
