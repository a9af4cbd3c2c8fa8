//! The assistant's Messages API: checking the configuration and turning a
//! reply into text or an error.
use vstd::prelude::*;
use crate::config::{AnthropicConfig, api_key_present};
use crate::text::{chars_of, concat_chars, string_of, trim, truncate_bytes, truncate_bytes_spec, char_boundary, utf8_len};

verus! {

/// Why a request to the assistant gave no text.
#[derive(Clone, Debug)]
pub enum AnthropicError {
    /// No API key is configured.
    MissingKey,
    /// The service answered with a non-success status; the body, cut to 500 bytes.
    Status { code: u16, body: String },
    /// The reply could not be decoded; the body, cut to 200 bytes.
    Decode { body: String },
    /// The reply reports an error of the given kind.
    Api { kind: String, message: String },
    /// The reply holds no text.
    Empty,
}

/// One content block of a reply.
#[derive(Clone, Debug)]
pub enum ContentBlock {
    Text(String),
    Other,
}

/// The error object of a reply.
#[derive(Clone, Debug)]
pub struct ApiError {
    pub message: String,
    pub kind: String,
}

/// Checks that the configuration can be used to make requests: the API key
/// must hold something besides whitespace.
pub fn check_config(cfg: &AnthropicConfig) -> (r: Result<(), AnthropicError>)
    ensures
        r is Ok <==> trim(cfg.api_key@).len() > 0,
        r is Err ==> r->Err_0 is MissingKey,
{
    if api_key_present(cfg.api_key.as_str()) {
        Ok(())
    } else {
        Err(AnthropicError::MissingKey)
    }
}

/// The concatenated text of the text blocks.
pub open spec fn reply_text(blocks: Seq<ContentBlock>) -> Seq<char>
    decreases blocks.len(),
{
    if blocks.len() == 0 {
        Seq::empty()
    } else {
        reply_text(blocks.drop_last()) + match blocks.last() {
            ContentBlock::Text(t) => t@,
            ContentBlock::Other => Seq::empty(),
        }
    }
}

/// The outcome of a decoded reply: its error when it reports one, else the
/// concatenated text of its text blocks, which must not be empty.
pub fn assemble_reply(blocks: &Vec<ContentBlock>, error: &Option<ApiError>) -> (r: Result<String, AnthropicError>)
    ensures
        match error {
            Some(e) => r matches Err(AnthropicError::Api { kind, message }) && kind@ == e.kind@
                && message@ == e.message@,
            None => if reply_text(blocks@).len() == 0 {
                r matches Err(AnthropicError::Empty)
            } else {
                r matches Ok(t) && t@ == reply_text(blocks@)
            },
        },
{
    if let Some(e) = error {
        return Err(
            AnthropicError::Api {
                kind: string_of(&chars_of(e.kind.as_str())),
                message: string_of(&chars_of(e.message.as_str())),
            },
        );
    }
    let mut out: Vec<char> = Vec::new();
    let mut i: usize = 0;
    while i < blocks.len()
        invariant
            i <= blocks.len(),
            out@ == reply_text(blocks@.take(i as int)),
        decreases blocks.len() - i,
    {
        assert(blocks@.take(i + 1).drop_last() =~= blocks@.take(i as int));
        match &blocks[i] {
            ContentBlock::Text(t) => {
                out = concat_chars(&out, &chars_of(t.as_str()));
            },
            ContentBlock::Other => {
                assert(out@ =~= out@ + Seq::<char>::empty());
            },
        }
        i = i + 1;
    }
    assert(blocks@.take(blocks.len() as int) =~= blocks@);
    if out.len() == 0 {
        Err(AnthropicError::Empty)
    } else {
        Ok(string_of(&out))
    }
}

/// `s` cut to its first `max` bytes followed by an ellipsis, or unchanged
/// when it is no longer than `max` bytes. A cut that would fall inside a
/// character is excluded: slicing the text there fails.
pub fn truncate(s: &str, max: usize) -> (r: String)
    requires
        utf8_len(s@) <= max || char_boundary(s@, max as nat) is Some,
    ensures
        r@ == truncate_bytes_spec(s@, max as nat),
{
    truncate_bytes(s, max)
}

/// The error for a non-success status: the code, and the body cut to 500
/// bytes. A body in which byte 500 falls inside a character is excluded (the
/// cut would fail there).
pub fn status_error(code: u16, body: &str) -> (r: AnthropicError)
    requires
        utf8_len(body@) <= 500 || char_boundary(body@, 500) is Some,
    ensures
        r matches AnthropicError::Status { code: c, body: b } && c == code && b@
            == truncate_bytes_spec(body@, 500),
{
    AnthropicError::Status { code, body: truncate(body, 500) }
}

/// The error for an undecodable reply: the body cut to 200 bytes. A body in
/// which byte 200 falls inside a character is excluded.
pub fn decode_error(body: &str) -> (r: AnthropicError)
    requires
        utf8_len(body@) <= 200 || char_boundary(body@, 200) is Some,
    ensures
        r matches AnthropicError::Decode { body: b } && b@ == truncate_bytes_spec(body@, 200),
{
    AnthropicError::Decode { body: truncate(body, 200) }
}

} // verus!
