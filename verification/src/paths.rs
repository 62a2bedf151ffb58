//! Windows path names as text.

use crate::text::{chars_of, first_index, lemma_first_index, string_of};
use vstd::prelude::*;
use vstd::slice::slice_subrange;

verus! {

/// A character that separates the parts of a path.
pub open spec fn is_separator(c: char) -> bool {
    c == '\\' || c == '/'
}

/// A letter that can name a drive.
pub open spec fn is_drive_letter(c: char) -> bool {
    'a' <= c <= 'z' || 'A' <= c <= 'Z'
}

/// A name that is one part of a path: not empty, neither `.` nor `..`, with no
/// separator and no drive in it.
pub open spec fn is_part(name: Seq<char>) -> bool {
    &&& name.len() > 0
    &&& name != seq!['.']
    &&& name != seq!['.', '.']
    &&& forall|i: int| 0 <= i < name.len() ==> !is_separator(#[trigger] name[i]) && name[i] != ':'
}

/// A path that the system takes as it is written: it begins with `\\?\`.
pub open spec fn is_verbatim(dir: Seq<char>) -> bool {
    dir.len() >= 4 && dir[0] == '\\' && dir[1] == '\\' && dir[2] == '?' && dir[3] == '\\'
}

/// Where the volume ends that a verbatim path begins with: behind a server and a
/// share, a drive, or else the first part.
pub open spec fn volume_end(dir: Seq<char>) -> int {
    if dir.len() >= 8 && dir[4] == 'U' && dir[5] == 'N' && dir[6] == 'C' && is_separator(dir[7]) {
        let server = first_index(dir.skip(8), '\\');
        let share = if 8 + server < dir.len() {
            first_index(dir.skip(8 + server + 1), '\\')
        } else {
            0
        };
        if share > 0 {
            8 + server + 1 + share
        } else {
            8 + server
        }
    } else if dir.len() >= 6 && is_drive_letter(dir[4]) && dir[5] == ':' && (dir.len() == 6
        || is_separator(dir[6])) {
        6
    } else {
        4 + first_index(dir.skip(4), '\\')
    }
}

/// The parts of `s`, each with one backslash behind it. Backslashes alone stand
/// between parts, and parts without a character are left out. `open` tells that a
/// part has begun before `s`.
pub open spec fn parts(s: Seq<char>, open: bool) -> Seq<char>
    decreases s.len(),
{
    if s.len() == 0 {
        if open {
            seq!['\\']
        } else {
            Seq::empty()
        }
    } else if s[0] != '\\' {
        seq![s[0]] + parts(s.skip(1), true)
    } else if open {
        seq!['\\'] + parts(s.skip(1), false)
    } else {
        parts(s.skip(1), false)
    }
}

/// What stands behind the volume of a verbatim path and the separator there.
pub open spec fn behind_volume(dir: Seq<char>) -> Seq<char> {
    if volume_end(dir) < dir.len() {
        dir.skip(volume_end(dir) + 1)
    } else {
        Seq::empty()
    }
}

/// Whether a name appended to the folder `dir` needs no separator in between:
/// `dir` is empty, ends in one, or is a bare drive such as `C:`.
pub open spec fn joins_directly(dir: Seq<char>) -> bool {
    ||| dir.len() == 0
    ||| is_separator(dir.last())
    ||| dir.len() == 2 && dir[1] == ':' && is_drive_letter(dir[0])
}

/// The path of the part `name` in the folder `dir`. A verbatim folder is written
/// anew part by part, because only backslashes separate its parts.
pub open spec fn joined(dir: Seq<char>, name: Seq<char>) -> Seq<char> {
    if is_verbatim(dir) {
        dir.take(volume_end(dir)).push('\\') + parts(behind_volume(dir), false) + name
    } else if joins_directly(dir) {
        dir + name
    } else {
        dir.push('\\') + name
    }
}

/// The position of the first backslash from `i` on, or the length of `d`.
fn find_backslash(d: &Vec<char>, i: usize) -> (k: usize)
    requires
        i <= d@.len(),
    ensures
        i <= k <= d@.len(),
        k == i + first_index(d@.skip(i as int), '\\'),
{
    let mut k: usize = i;
    while k < d.len() && d[k] != '\\'
        invariant
            i <= k <= d@.len(),
            i + first_index(d@.skip(i as int), '\\') == k + first_index(d@.skip(k as int), '\\'),
        decreases d@.len() - k,
    {
        assert(d@.skip(k as int).skip(1) =~= d@.skip(k + 1));
        k += 1;
    }
    k
}

/// Whether `c` separates the parts of a path.
fn separates(c: char) -> (b: bool)
    ensures
        b == is_separator(c),
{
    c == '\\' || c == '/'
}

/// Whether `c` can name a drive.
fn names_drive(c: char) -> (b: bool)
    ensures
        b == is_drive_letter(c),
{
    ('a' <= c && c <= 'z') || ('A' <= c && c <= 'Z')
}

/// Where the volume of a verbatim path ends.
fn find_volume_end(d: &Vec<char>) -> (e: usize)
    requires
        is_verbatim(d@),
    ensures
        e == volume_end(d@),
        4 <= e <= d@.len(),
{
    let n: usize = d.len();
    if n >= 8 && d[4] == 'U' && d[5] == 'N' && d[6] == 'C' && separates(d[7]) {
        let server: usize = find_backslash(d, 8);
        if server == n {
            return server;
        }
        let share: usize = find_backslash(d, server + 1);
        if share > server + 1 {
            share
        } else {
            server
        }
    } else if n >= 6 && names_drive(d[4]) && d[5] == ':' && (n == 6 || separates(d[6])) {
        6
    } else {
        find_backslash(d, 4)
    }
}

/// The path of the file or folder `name` in the folder `dir`.
pub fn join(dir: &str, name: &str) -> (path: String)
    requires
        is_part(name@),
    ensures
        path@ == joined(dir@, name@),
{
    let d = chars_of(dir);
    let n: usize = d.len();
    if n >= 4 && d[0] == '\\' && d[1] == '\\' && d[2] == '?' && d[3] == '\\' {
        return join_verbatim(&d, name);
    }
    let direct: bool = n == 0 || separates(d[n - 1]) || (n == 2 && d[1] == ':' && names_drive(d[0]));
    let mut path = dir.to_owned();
    if !direct {
        path.push('\\');
    }
    path.append(name);
    path
}

/// The path of `name` in a verbatim folder.
fn join_verbatim(d: &Vec<char>, name: &str) -> (path: String)
    requires
        is_verbatim(d@),
    ensures
        path@ == joined(d@, name@),
{
    let n: usize = d.len();
    let e: usize = find_volume_end(d);
    let volume = slice_subrange(d.as_slice(), 0, e);
    assert(volume@ =~= d@.take(e as int));
    let mut path = string_of(volume);
    path.push('\\');
    let ghost head = path@;
    let mut open: bool = false;
    let mut i: usize = if e < n {
        e + 1
    } else {
        n
    };
    let ghost rest = behind_volume(d@);
    assert(d@.skip(i as int) =~= rest);
    assert(head + parts(rest, false) =~= path@ + parts(d@.skip(i as int), open));
    while i < n
        invariant
            i <= n,
            n == d@.len(),
            head + parts(rest, false) == path@ + parts(d@.skip(i as int), open),
        decreases n - i,
    {
        let c: char = d[i];
        let ghost before = path@;
        let ghost was_open = open;
        assert(d@.skip(i as int).skip(1) =~= d@.skip(i + 1));
        if c != '\\' {
            path.push(c);
            open = true;
        } else {
            if open {
                path.push('\\');
            }
            open = false;
        }
        i += 1;
        assert(before + parts(d@.skip(i - 1), was_open) =~= path@ + parts(d@.skip(i as int), open));
    }
    let ghost before = path@;
    if open {
        path.push('\\');
    }
    assert(path@ =~= before + parts(d@.skip(i as int), open));
    path.append(name);
    path
}

// ---------------------------------------------------------------------------
// Laws
// ---------------------------------------------------------------------------

/// Law: a name joined to a folder stands at the end of the path, and nothing but
/// the start, a separator or a bare drive stands before it.
pub proof fn law_joined_ends_in_the_name(dir: Seq<char>, name: Seq<char>)
    ensures
        ({
            let path = joined(dir, name);
            let head = path.take(path.len() - name.len());
            &&& path.len() >= name.len()
            &&& path == head + name
            &&& joins_directly(head)
        }),
{
    let path = joined(dir, name);
    if is_verbatim(dir) {
        lemma_parts_end(behind_volume(dir), false);
        let head = dir.take(volume_end(dir)).push('\\') + parts(behind_volume(dir), false);
        assert(path.take(path.len() - name.len()) =~= head);
        assert(path =~= head + name);
    } else if joins_directly(dir) {
        assert(path.take(path.len() - name.len()) =~= dir);
    } else {
        assert(path.take(path.len() - name.len()) =~= dir.push('\\'));
    }
}

/// Parts end in a backslash.
proof fn lemma_parts_end(s: Seq<char>, open: bool)
    ensures
        parts(s, open).len() > 0 ==> parts(s, open).last() == '\\',
        open ==> parts(s, open).len() > 0,
    decreases s.len(),
{
    if s.len() > 0 {
        lemma_parts_end(s.skip(1), s[0] != '\\');
    }
}

/// Law: a name is put behind a folder with one backslash in between; with none if the
/// folder is empty, ends in a separator of either kind, or is a bare drive.
pub proof fn law_names_in_plain_folders(dir: Seq<char>, name: Seq<char>)
    requires
        dir.len() < 4 || dir[0] != '\\' || dir[1] != '\\' || dir[2] != '?' || dir[3] != '\\',
    ensures
        dir.len() == 0 || dir.last() == '\\' || dir.last() == '/' ==> joined(dir, name) == dir
            + name,
        dir.len() == 2 && dir[1] == ':' && ('a' <= dir[0] <= 'z' || 'A' <= dir[0] <= 'Z') ==> joined(
            dir,
            name,
        ) == dir + name,
        dir.len() > 0 && dir.last() != '\\' && dir.last() != '/' && !(dir.len() == 2 && dir[1]
            == ':' && ('a' <= dir[0] <= 'z' || 'A' <= dir[0] <= 'Z')) ==> joined(dir, name) == dir
            + seq!['\\'] + name,
{
    assert(dir + seq!['\\'] + name =~= dir.push('\\') + name);
}

/// Law: the parts of a text are the words between its backslashes, in their order,
/// each with one backslash behind it.
pub proof fn law_parts_are_words(word: Seq<char>, rest: Seq<char>)
    requires
        word.len() > 0,
        forall|i: int| 0 <= i < word.len() ==> word[i] != '\\',
    ensures
        parts(Seq::empty(), false).len() == 0,
        parts(word, false) == word + seq!['\\'],
        parts(seq!['\\'] + rest, false) == parts(rest, false),
        parts(word + seq!['\\'] + rest, false) == word + seq!['\\'] + parts(rest, false),
{
    assert((seq!['\\'] + rest).skip(1) =~= rest);
    lemma_parts_word(word, false);
    lemma_parts_word_then(word, rest, false);
}

proof fn lemma_parts_word(word: Seq<char>, open: bool)
    requires
        open || word.len() > 0,
        forall|i: int| 0 <= i < word.len() ==> word[i] != '\\',
    ensures
        parts(word, open) == word + seq!['\\'],
    decreases word.len(),
{
    if word.len() > 0 {
        let t = word.skip(1);
        assert forall|i: int| 0 <= i < t.len() implies t[i] != '\\' by {
            assert(t[i] == word[i + 1]);
        }
        lemma_parts_word(t, true);
        assert(seq![word[0]] + (t + seq!['\\']) =~= word + seq!['\\']);
    } else {
        assert(word + seq!['\\'] =~= seq!['\\']);
    }
}

proof fn lemma_parts_word_then(word: Seq<char>, rest: Seq<char>, open: bool)
    requires
        open || word.len() > 0,
        forall|i: int| 0 <= i < word.len() ==> word[i] != '\\',
    ensures
        parts(word + seq!['\\'] + rest, open) == word + seq!['\\'] + parts(rest, false),
    decreases word.len(),
{
    let s = word + seq!['\\'] + rest;
    if word.len() > 0 {
        let t = word.skip(1);
        assert forall|i: int| 0 <= i < t.len() implies t[i] != '\\' by {
            assert(t[i] == word[i + 1]);
        }
        lemma_parts_word_then(t, rest, true);
        assert(s.skip(1) =~= t + seq!['\\'] + rest);
        assert(seq![word[0]] + (t + seq!['\\'] + parts(rest, false)) =~= word + seq!['\\'] + parts(
            rest,
            false,
        ));
    } else {
        assert(s.skip(1) =~= rest);
        assert(s[0] == '\\');
        assert(seq!['\\'] + parts(rest, false) =~= word + seq!['\\'] + parts(rest, false));
    }
}

/// Law: in a verbatim folder the volume stays as it is, and what stands behind it is
/// written in parts before the name. The volume is a drive; a server and a share, if
/// there is one; or else the first part. `a` is where the first backslash stands
/// behind the prefix, `b` the next one, each the length if there is none.
pub proof fn law_names_in_verbatim_folders(dir: Seq<char>, name: Seq<char>, a: int, b: int)
    requires
        dir.len() >= 4 && dir[0] == '\\' && dir[1] == '\\' && dir[2] == '?' && dir[3] == '\\',
        ({
            let unc = dir.len() >= 8 && dir[4] == 'U' && dir[5] == 'N' && dir[6] == 'C' && (dir[7]
                == '\\' || dir[7] == '/');
            let from = if unc {
                8int
            } else {
                4
            };
            &&& from <= a <= dir.len()
            &&& forall|i: int| from <= i < a ==> dir[i] != '\\'
            &&& a < dir.len() ==> dir[a] == '\\' && a < b <= dir.len()
            &&& a < dir.len() ==> forall|i: int| a < i < b ==> dir[i] != '\\'
            &&& a < dir.len() && b < dir.len() ==> dir[b] == '\\'
        }),
    ensures
        ({
            let unc = dir.len() >= 8 && dir[4] == 'U' && dir[5] == 'N' && dir[6] == 'C' && (dir[7]
                == '\\' || dir[7] == '/');
            let drive = dir.len() >= 6 && ('a' <= dir[4] <= 'z' || 'A' <= dir[4] <= 'Z') && dir[5]
                == ':' && (dir.len() == 6 || dir[6] == '\\' || dir[6] == '/');
            let end = if unc {
                if a < dir.len() && b > a + 1 {
                    b
                } else {
                    a
                }
            } else if drive {
                6
            } else {
                a
            };
            let rest = if end < dir.len() {
                dir.skip(end + 1)
            } else {
                Seq::empty()
            };
            joined(dir, name) == dir.take(end) + seq!['\\'] + parts(rest, false) + name
        }),
{
    let unc = dir.len() >= 8 && dir[4] == 'U' && dir[5] == 'N' && dir[6] == 'C' && (dir[7] == '\\'
        || dir[7] == '/');
    let from = if unc {
        8int
    } else {
        4
    };
    let s = dir.skip(from);
    assert forall|j: int| 0 <= j < a - from implies s[j] != '\\' by {
        assert(s[j] == dir[from + j]);
    }
    lemma_first_index(s, '\\', a - from);
    if a < dir.len() {
        let t = dir.skip(a + 1);
        assert forall|j: int| 0 <= j < b - a - 1 implies t[j] != '\\' by {
            assert(t[j] == dir[a + 1 + j]);
        }
        lemma_first_index(t, '\\', b - a - 1);
    }
    let end = volume_end(dir);
    assert(dir.take(end) + seq!['\\'] =~= dir.take(end).push('\\'));
}

/// Law: any name is one part of a path if it holds a character, none of them a
/// backslash, a slash or a colon, and is not one of the two that stand for folders.
pub proof fn law_which_names_are_parts(name: Seq<char>)
    ensures
        is_part(name) <==> name.len() > 0 && name != seq!['.'] && name != seq!['.', '.']
            && !name.contains('\\') && !name.contains('/') && !name.contains(':'),
{
    if is_part(name) {
        assert forall|i: int| 0 <= i < name.len() implies name[i] != '\\' && name[i] != '/'
            && name[i] != ':' by {
            assert(!is_separator(name[i]));
        }
    } else if !name.contains('\\') && !name.contains('/') && !name.contains(':') {
        assert forall|i: int| 0 <= i < name.len() implies !is_separator(#[trigger] name[i])
            && name[i] != ':' by {
            assert(name.contains(name[i]));
        }
    }
}

} // verus!
