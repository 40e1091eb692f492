//! The INIT packet: what a sender says of the file before the first chunk.
//!
//! Payload: version(u8) | size(u64) | chunk_sz(u32) | hash(32) | name(NUL)
use vstd::prelude::*;
use vstd::utf8::{decode_utf8, encode_utf8, valid_utf8};

use crate::bytes::{be32, be64, from_be32, from_be64, get_u32, get_u64, put_bytes, put_u32, put_u64};
use crate::path::{file_name, file_name_of};
use crate::protocol::{
    chunk_count, chunk_size_refusal, count_chunks, validate_chunk_size, ProtocolVersion,
    MAX_TOTAL_CHUNKS,
};
use crate::text::{chars_of, decimal, has_control, is_control, put_decimal, text_of};

verus! {

pub const SIZE_OFFSET: usize = 1;

pub const CHUNK_SIZE_OFFSET: usize = 9;

pub const HASH_OFFSET: usize = 13;

pub const NAME_OFFSET: usize = 45;

/// What an INIT that is accepted says, and the path that it is stored under.
pub struct InitHeader {
    pub version: ProtocolVersion,
    pub size: u64,
    pub chunk_size: u32,
    pub total: u32,
    pub hash: [u8; 32],
    pub final_path: String,
}

/// The contents of an [`InitHeader`].
pub struct InitView {
    pub version: ProtocolVersion,
    pub size: u64,
    pub chunk_size: u32,
    pub total: u32,
    pub hash: Seq<u8>,
    pub final_path: Seq<char>,
}

impl View for InitHeader {
    type V = InitView;

    open spec fn view(&self) -> InitView {
        InitView {
            version: self.version,
            size: self.size,
            chunk_size: self.chunk_size,
            total: self.total,
            hash: self.hash@,
            final_path: self.final_path@,
        }
    }
}

impl InitView {
    /// The chunk size fits the version, and the chunks are counted and not too many.
    pub open spec fn wf(self) -> bool {
        &&& 1 <= self.chunk_size <= self.version.max_chunk_size()
        &&& self.total == chunk_count(self.size as int, self.chunk_size as int)
        &&& self.total <= MAX_TOTAL_CHUNKS
        &&& self.hash.len() == 32
    }
}

/// Why `bytes` is not UTF-8, in the words of `std::str::Utf8Error`.
pub uninterp spec fn utf8_error(bytes: Seq<u8>) -> Seq<char>;

/// Calls `std::str::from_utf8`: the text that the bytes encode, or why they are
/// not UTF-8.
#[verifier::external_body]
fn utf8_text(bytes: &[u8]) -> (text: Result<&str, String>)
    ensures
        match text {
            Ok(text) => valid_utf8(bytes@) && text@ == decode_utf8(bytes@),
            Err(reason) => !valid_utf8(bytes@) && reason@ == utf8_error(bytes@),
        },
{
    std::str::from_utf8(bytes).map_err(|e| e.to_string())
}

/// The bytes before the first NUL, or all of them.
pub open spec fn until_nul(bytes: Seq<u8>) -> Seq<u8>
    decreases bytes.len(),
{
    if bytes.len() == 0 || bytes[0] == 0 {
        Seq::empty()
    } else {
        seq![bytes[0]] + until_nul(bytes.drop_first())
    }
}

/// Whether a file may be received under this name: control characters would be
/// forwarded to the user's terminal with it.
pub open spec fn is_printable(name: Seq<char>) -> bool {
    forall|i: int| 0 <= i < name.len() ==> !is_control(#[trigger] name[i])
}

/// Where the file goes: to `out` if it is given, else to the current directory
/// under the last component of the name that the sender gave.
pub open spec fn final_path_of(name: Seq<u8>, out: Option<Seq<char>>) -> Result<
    Seq<char>,
    Seq<char>,
> {
    match out {
        Some(path) => Ok(path),
        None => if !valid_utf8(name) {
            Err("invalid filename: "@ + utf8_error(name))
        } else {
            match file_name_of(decode_utf8(name)) {
                None => Err("invalid filename in init packet"@),
                Some(file_name) => if is_printable(file_name) {
                    Ok(file_name)
                } else {
                    Err("filename contains control characters"@)
                },
            }
        },
    }
}

/// What the payload of an INIT says, or why it is refused.
pub open spec fn init_of(payload: Seq<u8>, out: Option<Seq<char>>) -> Result<InitView, Seq<char>> {
    let size = from_be64(payload.skip(SIZE_OFFSET as int));
    let chunk_size = from_be32(payload.skip(CHUNK_SIZE_OFFSET as int));
    let total = chunk_count(size as int, chunk_size as int);
    if payload.len() < NAME_OFFSET {
        Err("init payload too short: "@ + decimal(payload.len()) + " bytes"@)
    } else if ProtocolVersion::of_byte(payload[0]) is None {
        Err("protocol version mismatch: got "@ + decimal(payload[0] as nat) + ", want 1 or 2"@)
    } else {
        let version = ProtocolVersion::of_byte(payload[0])->0;
        if !(1 <= chunk_size <= version.max_chunk_size()) {
            Err(chunk_size_refusal(version))
        } else if total > MAX_TOTAL_CHUNKS {
            Err(too_many_chunks("transfer too large: "@, total as nat))
        } else {
            match final_path_of(until_nul(payload.skip(NAME_OFFSET as int)), out) {
                Err(reason) => Err(reason),
                Ok(final_path) => Ok(
                    InitView {
                        version,
                        size,
                        chunk_size,
                        total: total as u32,
                        hash: payload.subrange(HASH_OFFSET as int, NAME_OFFSET as int),
                        final_path,
                    },
                ),
            }
        }
    }
}

/// The refusal of a file that makes more chunks than a transfer may have.
pub open spec fn too_many_chunks(what: Seq<char>, total: nat) -> Seq<char> {
    what + decimal(total) + " chunks exceeds limit "@ + decimal(MAX_TOTAL_CHUNKS as nat)
}

/// The payload of an INIT.
pub open spec fn init_bytes(
    version: ProtocolVersion,
    size: u64,
    chunk_size: u32,
    hash: Seq<u8>,
    name: Seq<char>,
) -> Seq<u8> {
    seq![version.byte()] + be64(size) + be32(chunk_size) + hash + encode_utf8(name) + seq![0u8]
}

/// The words of [`too_many_chunks`].
pub(crate) fn refuse_chunks(what: &str, total: u64) -> (reason: String)
    ensures
        reason@ == too_many_chunks(what@, total as nat),
{
    let mut reason = String::from_str(what);
    put_decimal(&mut reason, total);
    reason.append(" chunks exceeds limit ");
    put_decimal(&mut reason, MAX_TOTAL_CHUNKS);
    reason
}

/// How many bytes of `bytes` from `from` on come before the first NUL.
fn nul_position(bytes: &[u8], from: usize) -> (end: usize)
    requires
        from <= bytes@.len(),
    ensures
        from <= end <= bytes@.len(),
        until_nul(bytes@.skip(from as int)) == bytes@.subrange(from as int, end as int),
{
    let mut end: usize = from;
    assert(bytes@.subrange(from as int, from as int) == Seq::<u8>::empty());
    while end < bytes.len() && bytes[end] != 0
        invariant
            from <= end <= bytes@.len(),
            until_nul(bytes@.skip(from as int)) == bytes@.subrange(from as int, end as int)
                + until_nul(bytes@.skip(end as int)),
        decreases bytes@.len() - end,
    {
        assert(bytes@.skip(end as int).drop_first() == bytes@.skip(end + 1));
        assert(bytes@.subrange(from as int, end + 1) == bytes@.subrange(from as int, end as int)
            + seq![bytes@[end as int]]);
        end += 1;
    }
    end
}

/// The path that [`final_path_of`] describes.
fn choose_path(name: &[u8], out: Option<&str>) -> (result: Result<String, String>)
    ensures
        match result {
            Ok(path) => final_path_of(name@, text_of(out)) == Ok::<Seq<char>, Seq<char>>(path@),
            Err(reason) => final_path_of(name@, text_of(out)) == Err::<Seq<char>, Seq<char>>(reason@),
        },
{
    if let Some(path) = out {
        return Ok(String::from_str(path));
    }
    let raw = match utf8_text(name) {
        Ok(raw) => raw,
        Err(why) => {
            let mut reason = String::from_str("invalid filename: ");
            reason.append(why.as_str());
            return Err(reason);
        },
    };
    let candidate = match file_name(raw) {
        Some(candidate) => candidate,
        None => return Err(String::from_str("invalid filename in init packet")),
    };
    let chars = chars_of(candidate);
    if has_control(&chars, 0, chars.len()) {
        return Err(String::from_str("filename contains control characters"));
    }
    Ok(String::from_str(candidate))
}

/// Reads the payload of an INIT; `out` is the output path that the receiver was given.
pub fn parse_init(payload: &[u8], out: Option<&str>) -> (result: Result<InitHeader, String>)
    ensures
        match result {
            Ok(header) => init_of(payload@, text_of(out)) == Ok::<InitView, Seq<char>>(header@),
            Err(reason) => init_of(payload@, text_of(out)) == Err::<InitView, Seq<char>>(reason@),
        },
        result matches Ok(header) ==> header@.wf(),
{
    if payload.len() < NAME_OFFSET {
        let mut reason = String::from_str("init payload too short: ");
        put_decimal(&mut reason, payload.len() as u64);
        reason.append(" bytes");
        return Err(reason);
    }
    let version = match ProtocolVersion::try_from(payload[0]) {
        Ok(version) => version,
        Err(_) => {
            let mut reason = String::from_str("protocol version mismatch: got ");
            put_decimal(&mut reason, payload[0] as u64);
            reason.append(", want 1 or 2");
            return Err(reason);
        },
    };
    let size: u64 = get_u64(payload, SIZE_OFFSET);
    let chunk_size: u32 = get_u32(payload, CHUNK_SIZE_OFFSET);
    if let Err(reason) = validate_chunk_size(chunk_size, version) {
        return Err(reason);
    }
    let mut hash: [u8; 32] = [0u8; 32];
    let mut i: usize = 0;
    while i < 32
        invariant
            i <= 32,
            payload@.len() >= NAME_OFFSET,
            forall|k: int| 0 <= k < i ==> hash@[k] == payload@[HASH_OFFSET + k],
        decreases 32 - i,
    {
        hash[i] = payload[HASH_OFFSET + i];
        i += 1;
    }
    assert(hash@ == payload@.subrange(HASH_OFFSET as int, NAME_OFFSET as int));
    let total: u64 = count_chunks(size, chunk_size);
    if total > MAX_TOTAL_CHUNKS {
        return Err(refuse_chunks("transfer too large: ", total));
    }
    let end: usize = nul_position(payload, NAME_OFFSET);
    let name = vstd::slice::slice_subrange(payload, NAME_OFFSET, end);
    match choose_path(name, out) {
        Ok(final_path) => Ok(
            InitHeader { version, size, chunk_size, total: total as u32, hash, final_path },
        ),
        Err(reason) => Err(reason),
    }
}

/// The payload of an INIT for a file of this name, size and digest.
pub fn encode_init(
    version: ProtocolVersion,
    size: u64,
    chunk_size: u32,
    hash: &[u8; 32],
    name: &str,
) -> (payload: Vec<u8>)
    ensures
        payload@ == init_bytes(version, size, chunk_size, hash@, name@),
{
    let mut payload: Vec<u8> = Vec::new();
    payload.push(version.to_byte());
    put_u64(&mut payload, size);
    put_u32(&mut payload, chunk_size);
    put_bytes(&mut payload, hash);
    put_bytes(&mut payload, name.as_bytes());
    payload.push(0);
    assert(payload@ == init_bytes(version, size, chunk_size, hash@, name@));
    payload
}

} // verus!
