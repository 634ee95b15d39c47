//! What the audit keeps of a call's input and output: its size and SHA-256
//! always; its text whole, cut at a UTF-8 boundary, or not at all.
use vstd::prelude::*;
use crate::audit::config::{AuditError, validate_detail_limit};
use crate::monitor::model::opt_view;
use crate::text::{decimal, owned, push_decimal, push_text};
use vstd::string::StringSliceAdditionalSpecFns;
use vstd::utf8::{
    decode_utf8, encode_utf8, encode_utf8_decode_utf8, encode_utf8_valid_utf8,
    is_char_boundary_iff_not_is_continuation_byte,
};

verus! {

/// A UTF-8 continuation byte, `10xxxxxx`.
pub open spec fn is_continuation(b: u8) -> bool {
    0x80 <= b < 0xC0
}

/// Where a preview of at most `k` bytes ends: back from `k` to the first
/// byte that is not a continuation byte, or to 0.
pub open spec fn utf8_cut(bytes: Seq<u8>, k: int) -> int
    decreases k,
{
    if k <= 0 {
        0
    } else if !is_continuation(bytes[k]) {
        k
    } else {
        utf8_cut(bytes, k - 1)
    }
}

/// The longest prefix of at most `limit` bytes that does not cut a UTF-8
/// sequence: it ends at a byte that is not a continuation byte, or is empty.
pub fn utf8_prefix_len(bytes: &[u8], limit: usize) -> (r: usize)
    requires
        bytes@.len() == 0 || limit < bytes@.len(),
    ensures
        r == utf8_cut(bytes@, if limit < bytes@.len() { limit as int } else { 0 }),
        r <= limit,
        r == 0 || !is_continuation(bytes@[r as int]),
        forall|j: int| r < j <= limit && j < bytes@.len() ==> is_continuation(#[trigger] bytes@[j]),
{
    let mut end = if limit < bytes.len() {
        limit
    } else {
        0
    };
    while end > 0 && (bytes[end] & 0b1100_0000) == 0b1000_0000
        invariant
            end <= limit,
            end == 0 || end < bytes@.len(),
            bytes@.len() == 0 || limit < bytes@.len(),
            utf8_cut(bytes@, end as int) == utf8_cut(
                bytes@,
                if limit < bytes@.len() { limit as int } else { 0 },
            ),
            forall|j: int| end < j <= limit && j < bytes@.len() ==> is_continuation(#[trigger] bytes@[j]),
        decreases end,
    {
        let b = bytes[end];
        assert((b & 0xC0) == 0x80 ==> 0x80 <= b < 0xC0) by (bit_vector);
        end = end - 1;
    }
    if end > 0 {
        let b = bytes[end];
        assert((b & 0xC0) != 0x80 ==> !(0x80 <= b < 0xC0)) by (bit_vector);
    }
    end
}

/// The SHA-256 digest of a byte string, as the `sha2` crate computes it.
pub uninterp spec fn sha256_digest(data: Seq<u8>) -> Seq<u8>;

/// `sha2::Sha256::digest`: the 32-byte digest of `data`, named by
/// [`sha256_digest`].
#[verifier::external_body]
fn sha256(data: &[u8]) -> (r: Vec<u8>)
    ensures
        r@ == sha256_digest(data@),
        r@.len() == 32,
{
    sha2::Digest::finalize(sha2::Digest::chain_update(<sha2::Sha256 as sha2::Digest>::new(), data)).to_vec()
}

/// A lowercase hexadecimal digit.
pub open spec fn hex_lower(d: nat) -> char {
    if d < 10 {
        (48 + d) as char
    } else {
        (87 + d) as char
    }
}

/// Bytes written as two lowercase hexadecimal digits each.
pub open spec fn hex_of(b: Seq<u8>) -> Seq<char>
    decreases b.len(),
{
    if b.len() == 0 {
        Seq::empty()
    } else {
        hex_of(b.drop_last()) + seq![hex_lower((b.last() / 16) as nat), hex_lower((b.last() % 16) as nat)]
    }
}

fn hex_digit(d: u8) -> (c: char)
    requires
        d < 16,
    ensures
        c == hex_lower(d as nat),
{
    if d < 10 {
        (48 + d) as char
    } else {
        (87 + d) as char
    }
}

/// Writes bytes in lowercase hexadecimal.
pub fn hex_string(b: &[u8]) -> (r: String)
    ensures
        r@ == hex_of(b@),
{
    let mut out = String::new();
    let mut i: usize = 0;
    while i < b.len()
        invariant
            i <= b@.len(),
            out@ == hex_of(b@.subrange(0, i as int)),
        decreases b.len() - i,
    {
        let x = b[i];
        crate::text::push_char(&mut out, hex_digit(x / 16));
        crate::text::push_char(&mut out, hex_digit(x % 16));
        assert(b@.subrange(0, i + 1).drop_last() =~= b@.subrange(0, i as int));
        assert(out@ =~= hex_of(b@.subrange(0, i + 1)));
        i = i + 1;
    }
    assert(b@.subrange(0, i as int) =~= b@);
    out
}

/// The SHA-256 of `data` in lowercase hexadecimal.
pub fn sha256_hex(data: &[u8]) -> (r: String)
    ensures
        r@ == hex_of(sha256_digest(data@)),
{
    let d = sha256(data);
    hex_string(d.as_slice())
}

/// How `serde_json` writes one character inside a string: a quote and a
/// backslash get a backslash; backspace, tab, line feed, form feed and
/// carriage return their short escapes; any other control character below
/// U+0020 `\u00` and two lowercase hexadecimal digits; all else itself.
pub open spec fn json_char(c: char) -> Seq<char> {
    let v = c as u32;
    if c == '"' {
        seq!['\\', '"']
    } else if c == '\\' {
        seq!['\\', '\\']
    } else if v == 0x08 {
        seq!['\\', 'b']
    } else if v == 0x09 {
        seq!['\\', 't']
    } else if v == 0x0A {
        seq!['\\', 'n']
    } else if v == 0x0C {
        seq!['\\', 'f']
    } else if v == 0x0D {
        seq!['\\', 'r']
    } else if v < 0x20 {
        seq!['\\', 'u', '0', '0', hex_lower((v / 16) as nat), hex_lower((v % 16) as nat)]
    } else {
        seq![c]
    }
}

/// The escaped characters of a string, one after another.
pub open spec fn json_chars(s: Seq<char>) -> Seq<char>
    decreases s.len(),
{
    if s.len() == 0 {
        Seq::empty()
    } else {
        json_chars(s.drop_last()) + json_char(s.last())
    }
}

/// The JSON text `serde_json` writes for a string: the escaped characters
/// between double quotes.
pub open spec fn json_string(s: Seq<char>) -> Seq<char> {
    seq!['"'] + json_chars(s) + seq!['"']
}

/// `serde_json::to_string` on a string slice: its JSON text. Serializing a
/// string fails only on a write error, and writing into the `Vec` behind
/// `to_string` never fails, so the result is always `Ok`.
#[verifier::external_body]
fn json_quote(s: &str) -> (r: Result<String, String>)
    ensures
        r is Ok,
        r matches Ok(t) ==> t@ == json_string(s@),
{
    match serde_json::to_string(s) {
        Ok(t) => Ok(t),
        Err(e) => Err(e.to_string()),
    }
}

/// The JSON object a truncated body is kept as, its keys in the sorted order
/// `serde_json` writes them in: a marker, the whole body's size, a preview
/// and the whole body's hash.
pub open spec fn truncated_envelope(original_bytes: nat, preview: Seq<char>, sha256: Seq<char>) -> Seq<char> {
    "{\"_audit_truncated\":true,\"original_bytes\":"@ + decimal(original_bytes) + ",\"preview\":"@
        + json_string(preview) + ",\"sha256\":\""@ + sha256 + "\"}"@
}

/// What the audit keeps of one serialized input or output.
pub struct CapturedDetail {
    /// The text kept: none, the body whole, or the truncation envelope.
    pub text: Option<String>,
    /// The whole body's size in bytes.
    pub bytes: i64,
    pub truncated: bool,
    /// The whole body's SHA-256, in lowercase hexadecimal.
    pub sha256: String,
}

/// What `capture_value` keeps of the JSON text `serialized` under `limit`
/// (one of -1, 0 or a positive size): size and hash of the whole body
/// always; no text for -1; the body whole for 0 or when it fits; else the
/// envelope with a preview cut at a character boundary at most `limit`
/// bytes in. It never fails for such a limit.
pub open spec fn captured_as(serialized: Seq<char>, limit: int, r: Result<CapturedDetail, AuditError>) -> bool {
    let bytes = encode_utf8(serialized);
    let size = bytes.len();
    match r {
        Ok(c) => c.bytes == size && c.sha256@ == hex_of(sha256_digest(bytes)) && if limit == -1 {
            c.text is None && !c.truncated
        } else if limit == 0 || size <= limit {
            opt_view(c.text) == Some(serialized) && !c.truncated
        } else {
            c.truncated && opt_view(c.text) == Some(
                truncated_envelope(
                    size,
                    decode_utf8(bytes.subrange(0, utf8_cut(bytes, limit))),
                    c.sha256@,
                ),
            )
        },
        Err(_) => false,
    }
}

/// Captures a serialized body under a detail limit. Size and hash always
/// describe the whole body; a truncated body is kept as a JSON envelope
/// whose preview stops at a UTF-8 boundary.
pub fn capture_value(serialized: &str, limit: i64) -> (r: Result<CapturedDetail, AuditError>)
    requires
        serialized.spec_bytes().len() <= i64::MAX,
    ensures
        limit < -1 ==> (r matches Err(e) && e is InvalidDetailLimit),
        limit >= -1 ==> captured_as(serialized@, limit as int, r),
{
    match validate_detail_limit(limit) {
        Ok(()) => {},
        Err(e) => {
            return Err(e);
        },
    }
    let bytes = serialized.as_bytes();
    let size = bytes.len() as i64;
    let sha = sha256_hex(bytes);
    if limit == -1 {
        return Ok(CapturedDetail { text: None, bytes: size, truncated: false, sha256: sha });
    }
    if limit == 0 || size <= limit {
        return Ok(CapturedDetail { text: Some(owned(serialized)), bytes: size, truncated: false, sha256: sha });
    }
    let cut = utf8_prefix_len(bytes, limit as usize);
    proof {
        encode_utf8_valid_utf8(serialized@);
        if cut > 0 {
            is_char_boundary_iff_not_is_continuation_byte(bytes@, cut as int);
        }
    }
    let (preview, _) = serialized.split_at(cut);
    proof {
        encode_utf8_decode_utf8(preview@);
    }
    let quoted = match json_quote(preview) {
        Ok(q) => q,
        Err(m) => {
            return Err(AuditError::Json(m));
        },
    };
    let mut text = owned("{\"_audit_truncated\":true,\"original_bytes\":");
    push_decimal(&mut text, size as u64);
    push_text(&mut text, ",\"preview\":");
    push_text(&mut text, quoted.as_str());
    push_text(&mut text, ",\"sha256\":\"");
    push_text(&mut text, sha.as_str());
    push_text(&mut text, "\"}");
    Ok(CapturedDetail { text: Some(text), bytes: size, truncated: true, sha256: sha })
}

/// The command shown with a record is derived from its input: it is kept
/// only where the input text itself was kept whole.
pub fn command_to_keep(input_kept: bool, input_truncated: bool, cmd: Option<String>) -> (r: Option<
    String,
>)
    ensures
        opt_view(r) == (if input_kept && !input_truncated {
            opt_view(cmd)
        } else {
            None
        }),
{
    if input_kept && !input_truncated {
        cmd
    } else {
        None
    }
}

/// A reading of the system clock, `std::time::SystemTime`.
#[verifier::external_type_specification]
#[verifier::external_body]
pub struct ExSystemTime(std::time::SystemTime);

/// `SystemTime::now`: the wall clock now. Nothing is claimed of the value.
#[verifier::external_body]
fn clock_now() -> (r: std::time::SystemTime) {
    std::time::SystemTime::now()
}

/// `SystemTime::duration_since` the Unix epoch: the time elapsed since it,
/// `None` for a reading before it.
#[verifier::external_body]
fn since_epoch(t: &std::time::SystemTime) -> (r: Option<std::time::Duration>) {
    t.duration_since(std::time::UNIX_EPOCH).ok()
}

/// `Duration::as_millis`: the whole milliseconds of a duration.
#[verifier::external_body]
fn whole_millis(d: &std::time::Duration) -> (r: u128) {
    d.as_millis()
}

/// The current time in milliseconds since the Unix epoch: 0 for a clock set
/// before the epoch, and `i64::MAX` for one beyond what an `i64` holds.
pub fn current_time_ms() -> (r: i64)
    ensures
        r >= 0,
{
    let now = clock_now();
    let ms: u128 = match since_epoch(&now) {
        Some(d) => whole_millis(&d),
        None => 0,
    };
    if ms > i64::MAX as u128 {
        i64::MAX
    } else {
        ms as i64
    }
}

} // verus!
