//! What name a file gets, and what an INIT has to hold to be accepted.
use vstd::prelude::*;
use vstd::utf8::{decode_utf8, valid_utf8};

use crate::init::{init_bytes, init_of, until_nul, utf8_error, InitHeader, InitView};
use crate::laws::announce::law_init_round_trip;
use crate::laws::formats::{big_endian, law_chunk_count, law_read_number};
use crate::path::{
    after_last_separator, file_name_of, parent_of, tmp_path_of, trimmed,
};
use crate::protocol::{chunk_count, ProtocolVersion};
use crate::text::{decimal, is_control, text_of};

verus! {

/// A character of the Unicode category Cc.
pub open spec fn is_control_code(c: char) -> bool {
    (c as u32) < 0x20 || 0x7f <= (c as u32) < 0xa0
}

/// A name of one component that a file may have.
pub open spec fn is_plain(name: Seq<char>) -> bool {
    &&& name.len() > 0
    &&& !name.contains('/')
    &&& name != seq!['.']
    &&& name != seq!['.', '.']
}

/// The control characters are those of the category Cc: the two blocks of 32 codes that
/// start at 0 and at 0x80, and DEL. No letter, sign or symbol of any script is one.
pub proof fn law_control_characters(c: char)
    ensures
        is_control(c) <==> is_control_code(c),
{
}

/// What follows a separator and holds none is what follows the last one.
proof fn lemma_after_separator(front: Seq<char>, name: Seq<char>)
    requires
        !name.contains('/'),
        front.len() == 0 || front.last() == '/',
    ensures
        after_last_separator(front + name) == name,
    decreases name.len(),
{
    let path = front + name;
    if name.len() > 0 {
        assert(name.contains(name.last()));
        assert(path.drop_last() =~= front + name.drop_last());
        assert forall|i: int| 0 <= i < name.drop_last().len() implies name.drop_last()[i]
            != '/' by {
            assert(name.contains(name[i]));
        }
        lemma_after_separator(front, name.drop_last());
        assert(name.drop_last().push(name.last()) =~= name);
    } else {
        assert(path =~= front);
    }
}

/// A path that ends in a plain name has nothing to trim.
proof fn lemma_nothing_to_trim(front: Seq<char>, name: Seq<char>)
    requires
        is_plain(name) || name == seq!['.', '.'],
        front.len() == 0 || front.last() == '/',
    ensures
        trimmed(front + name) == front + name,
{
    let path = front + name;
    let n = path.len() as int;
    if n >= 2 {
        assert(path[n - 1] == name.last());
        if name != seq!['.', '.'] {
            assert(name.contains(name.last()));
        }
        if name.len() >= 2 {
            assert(path[n - 2] == name[name.len() - 2]);
            if name != seq!['.', '.'] {
                assert(name.contains(name[name.len() - 2]));
            }
        } else if name.last() == '.' {
            assert(name =~= seq!['.']);
        }
    }
}

/// The name of a file is its last component, wherever the file is; a path that ends in
/// `..` names none.
pub proof fn law_file_name_is_last_component(dir: Seq<char>, name: Seq<char>)
    requires
        is_plain(name),
    ensures
        file_name_of(name) == Some(name),
        file_name_of(dir.push('/') + name) == Some(name),
        file_name_of(dir.push('/') + seq!['.', '.']) is None,
        file_name_of(seq!['.', '.']) is None,
        file_name_of(seq!['.']) is None,
        file_name_of(Seq::empty()) is None,
{
    let none = Seq::<char>::empty();
    assert(none + name =~= name);
    lemma_nothing_to_trim(none, name);
    lemma_after_separator(none, name);
    lemma_nothing_to_trim(dir.push('/'), name);
    lemma_after_separator(dir.push('/'), name);
    assert(!seq!['.', '.'].contains('/'));
    lemma_nothing_to_trim(dir.push('/'), seq!['.', '.']);
    lemma_after_separator(dir.push('/'), seq!['.', '.']);
    assert(none + seq!['.', '.'] =~= seq!['.', '.']);
    lemma_nothing_to_trim(none, seq!['.', '.']);
    lemma_after_separator(none, seq!['.', '.']);
    assert(none + seq!['.'] =~= seq!['.']);
    assert(!seq!['.'].contains('/'));
    lemma_after_separator(none, seq!['.']);
    lemma_after_separator(none, none);
    assert(none + none =~= none);
}

/// Separators and `.` components behind a path make no difference.
proof fn lemma_trailing(path: Seq<char>)
    requires
        path.len() > 0,
    ensures
        trimmed(path.push('/')) == trimmed(path),
        trimmed(path.push('/').push('.')) == trimmed(path),
{
    assert(path.push('/').drop_last() =~= path);
    assert(path.push('/').push('.').drop_last() =~= path.push('/'));
}

/// Separators and `.` components behind a path change neither the name of its file nor
/// where that is kept until it is complete.
pub proof fn law_trailing_separator_is_nothing(path: Seq<char>)
    ensures
        file_name_of(path.push('/')) == file_name_of(path),
        file_name_of(path.push('/').push('.')) == file_name_of(path),
        file_name_of(path) is Some ==> {
            &&& tmp_path_of(path.push('/')) == tmp_path_of(path)
            &&& tmp_path_of(path.push('/').push('.')) == tmp_path_of(path)
        },
{
    if path.len() > 0 {
        lemma_trailing(path);
    } else {
        let root = path.push('/');
        assert(root.push('.').drop_last() =~= root);
        assert(trimmed(root) == root);
        assert(trimmed(root.push('.')) == root);
        assert(after_last_separator(root) =~= Seq::empty());
        assert(after_last_separator(path) =~= Seq::empty());
    }
}

/// The directory of a plain name behind a separator.
proof fn lemma_parent(front: Seq<char>, name: Seq<char>)
    requires
        is_plain(name),
        front.len() == 0 || front.last() == '/',
    ensures
        file_name_of(front + name) == Some(name),
        parent_of(front + name) == trimmed(front),
{
    lemma_nothing_to_trim(front, name);
    lemma_after_separator(front, name);
    assert((front + name).take(front.len() as int) =~= front);
}

/// A file is kept beside its place until it is complete, under its name with `.tmp`
/// behind: in the current directory, in the root, or in whatever directory it is in.
/// Separators and `.` components in front of the name make no difference. A path that
/// names no file is taken for the directory.
pub proof fn law_tmp_path(dir: Seq<char>, name: Seq<char>)
    requires
        is_plain(name),
    ensures
        tmp_path_of(name) == name + ".tmp"@,
        tmp_path_of(seq!['/'] + name) == seq!['/'] + name + ".tmp"@,
        dir.len() > 0 && dir.last() != '/' && !(dir.len() > 1 && dir.last() == '.' && dir[dir.len()
            - 2] == '/') ==> tmp_path_of(dir.push('/') + name) == dir.push('/') + name + ".tmp"@,
        dir.len() > 0 ==> {
            &&& tmp_path_of(dir.push('/').push('/') + name) == tmp_path_of(dir.push('/') + name)
            &&& tmp_path_of(dir.push('/').push('.').push('/') + name) == tmp_path_of(
                dir.push('/') + name,
            )
        },
        file_name_of(dir) is None ==> tmp_path_of(dir) == if dir.len() == 0 || dir.last() == '/' {
            dir + ".tmp"@
        } else {
            dir.push('/') + ".tmp"@
        },
{
    let none = Seq::<char>::empty();
    let root = seq!['/'];
    let tmp = name + ".tmp"@;
    assert(none + name =~= name);
    lemma_parent(none, name);
    assert(none + tmp =~= tmp);
    lemma_parent(root, name);
    assert(root + tmp =~= root + name + ".tmp"@);
    if dir.len() > 0 {
        let d = dir.push('/');
        lemma_parent(d, name);
        lemma_trailing(dir);
        assert(d + tmp =~= d + name + ".tmp"@);
        lemma_parent(d.push('/'), name);
        lemma_trailing(d);
        lemma_parent(d.push('.').push('/'), name);
        lemma_trailing(d.push('.'));
    }
}

/// A name in whatever script is accepted, and the file goes under it, in the current
/// directory, whatever directories the sender put in front; the one thing that it may
/// not hold is a control character.
pub proof fn law_name_of_any_script_is_accepted(
    version: ProtocolVersion,
    size: u64,
    chunk_size: u32,
    hash: Seq<u8>,
    dir: Seq<char>,
    plain: Seq<char>,
    name: Seq<char>,
)
    requires
        1 <= chunk_size <= version.max_chunk_size(),
        chunk_count(size as int, chunk_size as int) <= 16_777_216,
        hash.len() == 32,
        is_plain(plain),
        name == plain || name == dir.push('/') + plain,
        !name.contains('\0'),
    ensures
        ({
            let init = init_of(init_bytes(version, size, chunk_size, hash, name), None);
            if forall|i: int| 0 <= i < plain.len() ==> !is_control_code(#[trigger] plain[i]) {
                init matches Ok(init) && init.final_path == plain && init.size == size
            } else {
                init == Err::<InitView, Seq<char>>("filename contains control characters"@)
            }
        }),
{
    law_file_name_is_last_component(dir, plain);
    law_init_round_trip(version, size, chunk_size, hash, name, None);
    assert forall|i: int| 0 <= i < plain.len() implies is_control(#[trigger] plain[i])
        == is_control_code(plain[i]) by {
        law_control_characters(plain[i]);
    }
}

/// The contents of an INIT are what it holds, and an output path is what it spells, even
/// if that is nothing.
pub proof fn law_init_contents(header: InitHeader, out: Option<&str>)
    ensures
        header@.version == header.version,
        header@.size == header.size,
        header@.chunk_size == header.chunk_size,
        header@.total == header.total,
        header@.hash == header.hash@,
        header@.final_path == header.final_path@,
        out is None <==> text_of(out) is None,
        out matches Some(path) ==> text_of(out) == Some(path@),
{
}

/// What an INIT says is what stands in its bytes. It is refused, in these words, if it is
/// too short, of an unknown version, or announces chunks of a size that no packet
/// holds or more of them than a transfer may have.
pub proof fn law_init_is_judged(payload: Seq<u8>, out: Option<Seq<char>>)
    ensures
        ({
            let init = init_of(payload, out);
            let size = big_endian(payload.subrange(1, 9));
            let chunk_size = big_endian(payload.subrange(9, 13));
            let most = if payload[0] == 1 {
                65500int
            } else {
                65468
            };
            if payload.len() < 45 {
                init == Err::<InitView, Seq<char>>(
                    "init payload too short: "@ + decimal(payload.len()) + " bytes"@,
                )
            } else if payload[0] != 1 && payload[0] != 2 {
                init == Err::<InitView, Seq<char>>(
                    "protocol version mismatch: got "@ + decimal(payload[0] as nat)
                        + ", want 1 or 2"@,
                )
            } else if chunk_size < 1 || chunk_size > most {
                init == Err::<InitView, Seq<char>>(
                    "chunk size must be in [1, "@ + decimal(most as nat) + "]"@,
                )
            } else if 16_777_216 * chunk_size < size {
                init matches Err(reason) && exists|total: nat|
                    {
                        &&& #[trigger] decimal(total) == decimal(total)
                        &&& (total - 1) * chunk_size < size <= total * chunk_size
                        &&& reason == "transfer too large: "@ + decimal(total)
                            + " chunks exceeds limit "@ + decimal(16_777_216)
                    }
            } else {
                init matches Ok(init) ==> {
                    &&& init.size == size
                    &&& init.chunk_size == chunk_size
                    &&& init.total * chunk_size >= size
                    &&& size > 0 ==> (init.total - 1) * chunk_size < size
                    &&& size == 0 ==> init.total == 0
                    &&& init.hash == payload.subrange(13, 45)
                    &&& init.version is V1 <==> payload[0] == 1
                    &&& out matches Some(path) ==> init.final_path == path
                }
            }
        }),
{
    if payload.len() >= 45 {
        law_read_number(payload.skip(1));
        law_read_number(payload.skip(9));
        assert(payload.skip(1).take(8) =~= payload.subrange(1, 9));
        assert(payload.skip(9).take(4) =~= payload.subrange(9, 13));
        let size = big_endian(payload.subrange(1, 9)) as int;
        let chunk_size = big_endian(payload.subrange(9, 13)) as int;
        if chunk_size >= 1 {
            let total = chunk_count(size, chunk_size);
            law_chunk_count(size, chunk_size);
            if total > 16_777_216 {
                assert(16_777_216 * chunk_size <= (total - 1) * chunk_size) by (nonlinear_arith)
                    requires
                        total - 1 >= 16_777_216,
                        chunk_size >= 1,
                ;
                assert(decimal(total as nat) == decimal(total as nat));
            } else {
                assert(16_777_216 * chunk_size >= total * chunk_size) by (nonlinear_arith)
                    requires
                        total <= 16_777_216,
                        chunk_size >= 1,
                ;
            }
        }
    }
}

/// An INIT with sound numbers is accepted if the receiver has an output path. If it has
/// none, the name before the first NUL decides: it has to be UTF-8, name a file, and
/// hold no control character, and it is refused in these words if it does not.
pub proof fn law_sound_init_is_accepted(payload: Seq<u8>, out: Option<Seq<char>>)
    requires
        payload.len() >= 45,
        payload[0] == 1 || payload[0] == 2,
        1 <= big_endian(payload.subrange(9, 13)) <= if payload[0] == 1 {
            65500
        } else {
            65468nat
        },
        big_endian(payload.subrange(1, 9)) <= 16_777_216 * big_endian(payload.subrange(9, 13)),
    ensures
        out is Some ==> init_of(payload, out) is Ok,
        out is None ==> ({
            let bytes = until_nul(payload.skip(45));
            let init = init_of(payload, out);
            if !valid_utf8(bytes) {
                init == Err::<InitView, Seq<char>>("invalid filename: "@ + utf8_error(bytes))
            } else {
                match file_name_of(decode_utf8(bytes)) {
                    None => init == Err::<InitView, Seq<char>>("invalid filename in init packet"@),
                    Some(name) => if exists|i: int|
                        0 <= i < name.len() && is_control_code(#[trigger] name[i]) {
                        init == Err::<InitView, Seq<char>>("filename contains control characters"@)
                    } else {
                        init matches Ok(init) && init.final_path == name
                    },
                }
            }
        }),
{
    law_read_number(payload.skip(1));
    law_read_number(payload.skip(9));
    assert(payload.skip(1).take(8) =~= payload.subrange(1, 9));
    assert(payload.skip(9).take(4) =~= payload.subrange(9, 13));
    let size = big_endian(payload.subrange(1, 9)) as int;
    let chunk_size = big_endian(payload.subrange(9, 13)) as int;
    let total = chunk_count(size, chunk_size);
    law_chunk_count(size, chunk_size);
    if total > 16_777_216 {
        assert(16_777_216 * chunk_size <= (total - 1) * chunk_size) by (nonlinear_arith)
            requires
                total - 1 >= 16_777_216,
                chunk_size >= 1,
        ;
    }
    let bytes = until_nul(payload.skip(45));
    if let Some(name) = file_name_of(decode_utf8(bytes)) {
        assert forall|i: int| 0 <= i < name.len() implies is_control(#[trigger] name[i])
            == is_control_code(name[i]) by {
            law_control_characters(name[i]);
        }
    }
}

} // verus!
