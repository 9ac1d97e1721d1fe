//! The message dispatcher: routes an authenticated message to its effect —
//! persist a chat line, re-encode and store an image, store a file, or end
//! the connection.

use vstd::prelude::*;
use crate::decimal::{dec_digits, u64_to_string};
use crate::message::{MessageType, MsgView};

verus! {

/// The effect an authenticated message asks for.
#[derive(Debug)]
pub enum Effect {
    /// Persist this chat line under the sender's name.
    PersistText(String),
    /// Re-encode these bytes as PNG and store the result.
    RecodeImage(Vec<u8>),
    /// Store these bytes verbatim under this client-supplied name.
    StoreFile(String, Vec<u8>),
    /// End the connection and deregister it.
    Terminate,
    /// Protocol misuse or a peer error report: log it, change nothing.
    LogOnly,
}

/// Routes one authenticated message to its effect, moving the payload.
/// `Error`, `Login` and `Register` after authentication are log-and-ignore.
pub fn dispatch_message(msg: MessageType) -> (e: Effect)
    ensures
        match msg@ {
            MsgView::Text(t) => e matches Effect::PersistText(t2) && t2@ == t,
            MsgView::Image(b) => e matches Effect::RecodeImage(b2) && b2@ == b,
            MsgView::File(n, b) => (e matches Effect::StoreFile(n2, b2) && n2@ == n && b2@ == b),
            MsgView::Quit => e is Terminate,
            MsgView::Error(_) => e is LogOnly,
            MsgView::Login(_) => e is LogOnly,
            MsgView::Register(_) => e is LogOnly,
        },
{
    match msg {
        MessageType::Text(t) => Effect::PersistText(t),
        MessageType::Image(b) => Effect::RecodeImage(b),
        MessageType::File(n, b) => Effect::StoreFile(n, b),
        MessageType::Quit => Effect::Terminate,
        MessageType::Error(_) => Effect::LogOnly,
        MessageType::Login(_) => Effect::LogOnly,
        MessageType::Register(_) => Effect::LogOnly,
    }
}

/// The error type of the image codec.
#[verifier::external_type_specification]
#[verifier::external_body]
pub struct ExImageError(image::ImageError);

/// The PNG re-encoding of an image held in `b`: what decoding `b` and
/// writing the result back out as PNG produces. A function of the bytes
/// alone; named here because its value takes the image codec to compute.
pub uninterp spec fn png_recoding_of(b: Seq<u8>) -> Seq<u8>;

/// Whether the image codec turns the bytes `b` into a PNG: decoding and
/// re-encoding either succeed or fail on the bytes alone, so which buffers
/// are accepted is itself a function of the bytes; named here because the
/// set of accepted buffers takes the image codec to compute.
pub uninterp spec fn png_decodable(b: Seq<u8>) -> bool;

/// Relies on `image::load_from_memory` and `image::DynamicImage::write_to`:
/// decoding a byte buffer and re-encoding the image as PNG depend on the
/// buffer alone — the call succeeds on exactly the buffers named by
/// [`png_decodable`] and then returns the bytes named by
/// [`png_recoding_of`].
#[verifier::external_body]
pub(crate) fn recode_image_to_png(data: &Vec<u8>) -> (r: Result<Vec<u8>, image::ImageError>)
    ensures
        match r {
            Ok(png) => png_decodable(data@) && png@ == png_recoding_of(data@),
            Err(_) => !png_decodable(data@),
        },
{
    match image::load_from_memory(data.as_slice()) {
        Ok(img) => {
            let mut cursor = std::io::Cursor::new(Vec::new());
            match img.write_to(&mut cursor, image::ImageFormat::Png) {
                Ok(()) => Ok(cursor.into_inner()),
                Err(e) => Err(e),
            }
        },
        Err(e) => Err(e),
    }
}

/// The path an image stored at time `ts` is recorded under.
pub open spec fn spec_image_path(ts: u64) -> Seq<char> {
    "images/"@ + dec_digits(ts as nat) + ".png"@
}

/// The path a client-named file is recorded under. The name is taken
/// verbatim, as the protocol has always done: nothing rejects separators or
/// parent references in it. [`is_plain_file_name`] is the sanitization
/// point — a storing layer that wants path safety checks the name with it
/// before writing.
pub open spec fn spec_file_path(name: Seq<char>) -> Seq<char> {
    "files/"@ + name
}

/// Builds the image path for time `ts`.
pub fn image_path(ts: u64) -> (r: String)
    ensures
        r@ == spec_image_path(ts),
{
    let mut s = String::from_str("images/");
    let digits = u64_to_string(ts);
    s.append(digits.as_str());
    s.append(".png");
    s
}

/// Builds the storage path for a client-supplied file name.
pub fn file_path(name: &String) -> (r: String)
    ensures
        r@ == spec_file_path(name@),
{
    let mut s = String::from_str("files/");
    s.append(name.as_str());
    s
}

/// A file name with no path structure: non-empty, no separator, no NUL,
/// and not a dot-only name. The dispatcher does not enforce this — the
/// protocol stores client names verbatim — but this is the single place a
/// deployment tightens when it wants to refuse path traversal.
pub open spec fn spec_is_plain_file_name(name: Seq<char>) -> bool {
    &&& name.len() > 0
    &&& forall|i: int| 0 <= i < name.len() ==> name[i] != '/' && name[i] != '\\' && name[i] != '\0'
    &&& name != "."@
    &&& name != ".."@
}

/// Runtime test of [`spec_is_plain_file_name`].
pub fn is_plain_file_name(name: &String) -> (r: bool)
    ensures
        r == spec_is_plain_file_name(name@),
{
    let s = name.as_str();
    let n = s.unicode_len();
    if n == 0 {
        return false;
    }
    let mut k: usize = 0;
    let mut clean = true;
    while k < n
        invariant
            n == s@.len(),
            k <= n,
            clean == forall|i: int|
                0 <= i < k ==> s@[i] != '/' && s@[i] != '\\' && s@[i] != '\0',
        decreases n - k,
    {
        let c = s.get_char(k);
        if c == '/' || c == '\\' || c == '\0' {
            clean = false;
        }
        k = k + 1;
    }
    if !clean {
        return false;
    }
    if crate::wire::str_eq(s, ".") || crate::wire::str_eq(s, "..") {
        return false;
    }
    true
}

} // verus!
