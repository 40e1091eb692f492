//! What an INIT announces, and what it may not do.
use vstd::prelude::*;
use vstd::utf8::{
    decode_utf8, encode_scalar, encode_utf8, encode_utf8_decode_utf8, encode_utf8_valid_utf8,
    has_width_1_encoding,
};

use crate::bytes::{be32, be64, lemma_be32_round_trip, lemma_be64_round_trip};
use crate::init::{
    init_bytes, init_of, is_printable, until_nul, InitView, CHUNK_SIZE_OFFSET, HASH_OFFSET,
    NAME_OFFSET, SIZE_OFFSET,
};
use crate::path::{
    after_last_separator, file_name_of, joined, names_no_file, parent_of, tmp_path_of, trimmed,
};
use crate::protocol::{chunk_count, ProtocolVersion, MAX_TOTAL_CHUNKS};

verus! {

/// No byte of the encoding of a character is zero unless the character is.
proof fn lemma_scalar_without_nul(c: char)
    requires
        c != '\0',
    ensures
        !encode_scalar(c as u32).contains(0),
{
    let v = c as u32;
    assert(v != 0);
    if has_width_1_encoding(v) {
        assert((v & 0x7F) as u8 != 0) by (bit_vector)
            requires
                v != 0,
                v <= 0x7F,
        ;
    }
    assert((0xC0u8 | ((v >> 6) & 0x1F) as u8) != 0) by (bit_vector);
    assert((0xE0u8 | ((v >> 12) & 0x0F) as u8) != 0) by (bit_vector);
    assert((0xF0u8 | ((v >> 18) & 0x7) as u8) != 0) by (bit_vector);
    assert((0x80u8 | (v & 0x3F) as u8) != 0) by (bit_vector);
    assert((0x80u8 | ((v >> 6) & 0x3F) as u8) != 0) by (bit_vector);
    assert((0x80u8 | ((v >> 12) & 0x3F) as u8) != 0) by (bit_vector);
}

/// No byte of the encoding of a text is zero unless one of its characters is.
proof fn lemma_text_without_nul(text: Seq<char>)
    requires
        !text.contains('\0'),
    ensures
        forall|i: int| 0 <= i < encode_utf8(text).len() ==> encode_utf8(text)[i] != 0,
    decreases text.len(),
{
    if text.len() > 0 {
        assert(text.contains(text[0]));
        lemma_scalar_without_nul(text[0]);
        assert forall|i: int| 0 <= i < text.drop_first().len() implies text.drop_first()[i]
            != '\0' by {
            assert(text.contains(text[i + 1]));
        }
        lemma_text_without_nul(text.drop_first());
        let head = encode_scalar(text[0] as u32);
        assert forall|i: int| 0 <= i < head.len() implies head[i] != 0 by {
            assert(head.contains(head[i]));
        }
        let tail = encode_utf8(text.drop_first());
        assert forall|i: int| 0 <= i < encode_utf8(text).len() implies encode_utf8(text)[i] != 0 by {
            if i >= head.len() {
                assert(encode_utf8(text)[i] == tail[i - head.len()]);
            }
        }
    }
}

/// A NUL ends the bytes before it.
proof fn lemma_until_nul(bytes: Seq<u8>, rest: Seq<u8>)
    requires
        forall|i: int| 0 <= i < bytes.len() ==> bytes[i] != 0,
        rest.len() > 0,
        rest[0] == 0,
    ensures
        until_nul(bytes + rest) == bytes,
    decreases bytes.len(),
{
    if bytes.len() > 0 {
        assert((bytes + rest).drop_first() == bytes.drop_first() + rest);
        lemma_until_nul(bytes.drop_first(), rest);
        assert(bytes == seq![bytes[0]] + bytes.drop_first());
    }
}

/// The receiver reads from an INIT what the sender announced: the version, the
/// size, the chunk size and the digest; and it stores the file where it was told
/// to, or under the last component of the name that was announced. The name may
/// hold no NUL, since a NUL ends it.
pub proof fn law_init_round_trip(
    version: ProtocolVersion,
    size: u64,
    chunk_size: u32,
    hash: Seq<u8>,
    name: Seq<char>,
    out: Option<Seq<char>>,
)
    requires
        1 <= chunk_size <= version.max_chunk_size(),
        chunk_count(size as int, chunk_size as int) <= MAX_TOTAL_CHUNKS,
        hash.len() == 32,
        !name.contains('\0'),
    ensures
        init_of(init_bytes(version, size, chunk_size, hash, name), out) == match out {
            Some(path) => Ok(
                InitView {
                    version,
                    size,
                    chunk_size,
                    total: chunk_count(size as int, chunk_size as int) as u32,
                    hash,
                    final_path: path,
                },
            ),
            None => match file_name_of(name) {
                None => Err("invalid filename in init packet"@),
                Some(file_name) => if is_printable(file_name) {
                    Ok(
                        InitView {
                            version,
                            size,
                            chunk_size,
                            total: chunk_count(size as int, chunk_size as int) as u32,
                            hash,
                            final_path: file_name,
                        },
                    )
                } else {
                    Err("filename contains control characters"@)
                },
            },
        },
{
    let payload = init_bytes(version, size, chunk_size, hash, name);
    let text = encode_utf8(name);
    let tail = text + seq![0u8];
    assert(payload.skip(SIZE_OFFSET as int) == be64(size) + (be32(chunk_size) + hash + tail));
    lemma_be64_round_trip(size, be32(chunk_size) + hash + tail);
    assert(payload.skip(CHUNK_SIZE_OFFSET as int) == be32(chunk_size) + (hash + tail));
    lemma_be32_round_trip(chunk_size, hash + tail);
    assert(payload.subrange(HASH_OFFSET as int, NAME_OFFSET as int) == hash);
    assert(payload.skip(NAME_OFFSET as int) == tail);
    lemma_text_without_nul(name);
    lemma_until_nul(text, seq![0u8]);
    encode_utf8_valid_utf8(name);
    encode_utf8_decode_utf8(name);
}

/// What follows the last separator holds none.
proof fn lemma_no_separator(path: Seq<char>)
    ensures
        !after_last_separator(path).contains('/'),
    decreases path.len(),
{
    if path.len() > 0 && path.last() != '/' {
        lemma_no_separator(path.drop_last());
        let front = after_last_separator(path.drop_last());
        assert forall|i: int| 0 <= i < front.push(path.last()).len() implies front.push(
            path.last(),
        )[i] != '/' by {
            if i < front.len() {
                assert(front.contains(front[i]));
            }
        }
    }
}

/// A name without separators is its own last component.
proof fn lemma_plain_name(name: Seq<char>)
    requires
        !name.contains('/'),
    ensures
        trimmed(name) == name,
        after_last_separator(name) == name,
    decreases name.len(),
{
    if name.len() > 0 {
        let n = name.len() as int;
        assert(name.contains(name[n - 1]));
        if n >= 2 {
            assert(name.contains(name[n - 2]));
        }
        assert forall|i: int| 0 <= i < name.drop_last().len() implies name.drop_last()[i] != '/' by {
            assert(name.contains(name[i]));
        }
        lemma_plain_name(name.drop_last());
        assert(name == name.drop_last().push(name.last()));
    }
}

/// The last component of a path is its own last component.
pub proof fn law_file_name_is_plain(path: Seq<char>)
    ensures
        file_name_of(path) matches Some(name) ==> file_name_of(name) == Some(name),
{
    lemma_no_separator(trimmed(path));
    let name = after_last_separator(trimmed(path));
    lemma_plain_name(name);
}

/// A sender cannot choose where its file goes: without an output path, the file
/// is stored in the current directory, under a name that has no separator, is
/// neither `.` nor `..`, and cannot upset a terminal.
pub proof fn law_name_is_safe(payload: Seq<u8>)
    ensures
        init_of(payload, None) matches Ok(init) ==> {
            &&& !init.final_path.contains('/')
            &&& !names_no_file(init.final_path)
            &&& is_printable(init.final_path)
            &&& tmp_path_of(init.final_path) == init.final_path + ".tmp"@
        },
{
    if let Ok(init) = init_of(payload, None) {
        let name = decode_utf8(until_nul(payload.skip(NAME_OFFSET as int)));
        lemma_no_separator(trimmed(name));
        lemma_plain_name(init.final_path);
        assert(init.final_path.take(0) =~= Seq::empty());
        assert(trimmed(Seq::<char>::empty()) =~= Seq::empty());
        assert(parent_of(init.final_path) =~= Seq::empty());
        assert(joined(Seq::empty(), init.final_path + ".tmp"@) =~= init.final_path + ".tmp"@);
    }
}

/// Trimming twice is trimming once.
proof fn lemma_trimmed_is_trim(path: Seq<char>)
    ensures
        trimmed(trimmed(path)) == trimmed(path),
    decreases path.len(),
{
    let n = path.len() as int;
    if n >= 2 && (path[n - 1] == '/' || (path[n - 1] == '.' && path[n - 2] == '/')) {
        lemma_trimmed_is_trim(path.drop_last());
    }
}

/// What follows the last separator is found behind whatever ends in one.
proof fn lemma_name_behind(dir: Seq<char>, name: Seq<char>)
    requires
        !name.contains('/'),
        dir.len() == 0 || dir.last() == '/',
    ensures
        after_last_separator(dir + name) == name,
    decreases name.len(),
{
    let path = dir + name;
    if name.len() == 0 {
        assert(path =~= dir);
    } else {
        assert(name.contains(name[name.len() - 1]));
        assert forall|i: int| 0 <= i < name.drop_last().len() implies name.drop_last()[i] != '/' by {
            assert(name.contains(name[i]));
        }
        lemma_name_behind(dir, name.drop_last());
        assert(path.drop_last() =~= dir + name.drop_last());
        assert(name =~= name.drop_last().push(name.last()));
    }
}

/// The temporary file of a transfer lies in the directory that the complete file
/// goes to, under the name of that file with `.tmp` behind: moving it into place
/// never leaves the directory.
pub proof fn law_tmp_is_a_sibling(path: Seq<char>)
    requires
        file_name_of(path) is Some,
    ensures
        file_name_of(tmp_path_of(path)) == Some(file_name_of(path)->0 + ".tmp"@),
        parent_of(tmp_path_of(path)) == parent_of(path),
{
    reveal_strlit(".tmp");
    let t = trimmed(path);
    let name = after_last_separator(t);
    let cut = t.take(t.len() - name.len());
    let dir = trimmed(cut);
    let tmp_name = name + ".tmp"@;
    let tmp = joined(dir, tmp_name);
    lemma_no_separator(t);
    assert forall|i: int| 0 <= i < tmp_name.len() implies tmp_name[i] != '/' by {
        if i < name.len() {
            assert(name.contains(name[i]));
        }
    }
    let front = if dir.len() == 0 || dir.last() == '/' {
        dir
    } else {
        dir.push('/')
    };
    assert(tmp =~= front + tmp_name);
    assert(tmp[tmp.len() - 1] == 'p');
    assert(trimmed(tmp) == tmp);
    lemma_name_behind(front, tmp_name);
    assert(tmp_name.len() >= 4);
    assert(tmp.take(tmp.len() - tmp_name.len()) =~= front);
    lemma_trimmed_is_trim(cut);
    if dir.len() > 0 && dir.last() != '/' {
        assert(front.drop_last() =~= dir);
        assert(trimmed(front) == trimmed(dir));
    }
}

/// The receiver writes to the path it was given, whatever the name in the INIT:
/// not even its encoding is looked at.
pub proof fn law_output_path_wins(payload: Seq<u8>, path: Seq<char>)
    ensures
        init_of(payload, Some(path)) matches Ok(init) ==> init.final_path == path,
{
}

/// An INIT that is accepted describes a transfer that can be carried out.
pub proof fn law_accepted_init_is_sound(payload: Seq<u8>, out: Option<Seq<char>>)
    ensures
        init_of(payload, out) matches Ok(init) ==> init.wf(),
{
    let size = crate::bytes::from_be64(payload.skip(SIZE_OFFSET as int));
    let chunk_size = crate::bytes::from_be32(payload.skip(CHUNK_SIZE_OFFSET as int));
    if chunk_size > 0 {
        assert(size as int / chunk_size as int >= 0) by (nonlinear_arith)
            requires
                chunk_size > 0,
        ;
    }
}

} // verus!
