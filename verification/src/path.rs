//! File paths as text, with `/` between components.
//!
//! A path names its last component whatever repeated or trailing separators and
//! `.` components surround it, as `std::path::Path` has it on Unix.
use vstd::prelude::*;

use crate::text::chars_of;

verus! {

/// `path` without trailing separators and trailing `.` components. The root
/// directory and a path that is `.` alone stay.
pub open spec fn trimmed(path: Seq<char>) -> Seq<char>
    decreases path.len(),
{
    let n = path.len() as int;
    if n >= 2 && (path[n - 1] == '/' || (path[n - 1] == '.' && path[n - 2] == '/')) {
        trimmed(path.drop_last())
    } else {
        path
    }
}

/// What follows the last separator of `path`.
pub open spec fn after_last_separator(path: Seq<char>) -> Seq<char>
    decreases path.len(),
{
    if path.len() == 0 || path.last() == '/' {
        Seq::empty()
    } else {
        after_last_separator(path.drop_last()).push(path.last())
    }
}

/// Not the name of a file: nothing, the directory itself, or its parent.
pub open spec fn names_no_file(name: Seq<char>) -> bool {
    name == Seq::<char>::empty() || name == seq!['.'] || name == seq!['.', '.']
}

/// The last component of `path`, unless the path ends in the root directory, in
/// `.` alone or in `..`.
pub open spec fn file_name_of(path: Seq<char>) -> Option<Seq<char>> {
    let name = after_last_separator(trimmed(path));
    if names_no_file(name) {
        None
    } else {
        Some(name)
    }
}

/// The directory that `path` is in, for a path that names a file.
pub open spec fn parent_of(path: Seq<char>) -> Seq<char> {
    let t = trimmed(path);
    trimmed(t.take(t.len() - after_last_separator(t).len()))
}

/// `name` inside the directory `dir`.
pub open spec fn joined(dir: Seq<char>, name: Seq<char>) -> Seq<char> {
    if dir.len() == 0 || dir.last() == '/' {
        dir + name
    } else {
        dir.push('/') + name
    }
}

/// Where the bytes of a transfer to `path` are kept until it is complete: beside
/// it, under its name with `.tmp` behind.
pub open spec fn tmp_path_of(path: Seq<char>) -> Seq<char> {
    match file_name_of(path) {
        Some(name) => joined(parent_of(path), name + ".tmp"@),
        None => joined(path, ".tmp"@),
    }
}

/// How many of the first `n` characters are left by `trimmed`.
fn trimmed_len(chars: &Vec<char>, n: usize) -> (len: usize)
    requires
        n <= chars@.len(),
    ensures
        len <= n,
        trimmed(chars@.take(n as int)) == chars@.take(len as int),
{
    let mut len: usize = n;
    while len >= 2 && (chars[len - 1] == '/' || (chars[len - 1] == '.' && chars[len - 2] == '/'))
        invariant
            len <= n <= chars@.len(),
            trimmed(chars@.take(n as int)) == trimmed(chars@.take(len as int)),
        decreases len,
    {
        assert(chars@.take(len as int).drop_last() == chars@.take(len - 1));
        len -= 1;
    }
    len
}

/// Where what follows the last separator of the first `n` characters begins.
fn name_start(chars: &Vec<char>, n: usize) -> (start: usize)
    requires
        n <= chars@.len(),
    ensures
        start <= n,
        after_last_separator(chars@.take(n as int)) == chars@.subrange(start as int, n as int),
        start == n - after_last_separator(chars@.take(n as int)).len(),
{
    let mut start: usize = n;
    assert(chars@.subrange(n as int, n as int) == Seq::<char>::empty());
    while start > 0 && chars[start - 1] != '/'
        invariant
            start <= n <= chars@.len(),
            after_last_separator(chars@.take(n as int)) == after_last_separator(
                chars@.take(start as int),
            ) + chars@.subrange(start as int, n as int),
        decreases start,
    {
        assert(chars@.take(start as int).drop_last() == chars@.take(start - 1));
        assert(chars@.subrange(start - 1, n as int) == seq![chars@[start - 1]] + chars@.subrange(
            start as int,
            n as int,
        ));
        start -= 1;
    }
    start
}

/// Whether the characters from `start` to `end` are the name of no file.
fn is_no_file(chars: &Vec<char>, start: usize, end: usize) -> (b: bool)
    requires
        start <= end <= chars@.len(),
    ensures
        b == names_no_file(chars@.subrange(start as int, end as int)),
{
    let ghost name = chars@.subrange(start as int, end as int);
    let n: usize = end - start;
    assert(name.len() == n);
    assert(n >= 1 ==> name[0] == chars@[start as int]);
    assert(n >= 2 ==> name[1] == chars@[start + 1]);
    if n == 0 {
        assert(name == Seq::<char>::empty());
        true
    } else if n == 1 {
        assert(chars@[start as int] == '.' ==> name == seq!['.']);
        chars[start] == '.'
    } else if n == 2 {
        assert(chars@[start as int] == '.' && chars@[start + 1] == '.' ==> name == seq!['.', '.']);
        chars[start] == '.' && chars[start + 1] == '.'
    } else {
        false
    }
}

/// The last component of `path`, if it names a file.
pub fn file_name(path: &str) -> (name: Option<&str>)
    ensures
        match name {
            Some(name) => file_name_of(path@) == Some(name@),
            None => file_name_of(path@) is None,
        },
{
    let chars = chars_of(path);
    let end: usize = trimmed_len(&chars, chars.len());
    let start: usize = name_start(&chars, end);
    assert(chars@.take(chars@.len() as int) == path@);
    if is_no_file(&chars, start, end) {
        None
    } else {
        Some(path.substring_char(start, end))
    }
}

/// The path of the temporary file for a transfer to `path`.
pub fn tmp_path(path: &str) -> (tmp: String)
    ensures
        tmp@ == tmp_path_of(path@),
{
    let chars = chars_of(path);
    let end: usize = trimmed_len(&chars, chars.len());
    let start: usize = name_start(&chars, end);
    assert(chars@.take(chars@.len() as int) == path@);
    let named = !is_no_file(&chars, start, end);
    let dir_end: usize = if named {
        assert(chars@.take(end as int).take(start as int) == chars@.take(start as int));
        trimmed_len(&chars, start)
    } else {
        chars.len()
    };
    let mut tmp = String::from_str(path.substring_char(0, dir_end));
    if dir_end > 0 && chars[dir_end - 1] != '/' {
        proof {
            reveal_strlit("/");
        }
        tmp.append("/");
        assert(tmp@ == path@.subrange(0, dir_end as int).push('/'));
    }
    if named {
        tmp.append(path.substring_char(start, end));
    }
    tmp.append(".tmp");
    tmp
}

} // verus!
