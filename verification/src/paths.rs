//! Path helpers on UTF-8 paths held as strings.

use vstd::prelude::*;
use crate::text::{chars_of, opt_view, string_of};

verus! {

/// `base` joined with `comp` as `PathBuf::join` does on Unix: an absolute
/// `comp` replaces `base`; otherwise a '/' goes between them unless `base`
/// is empty or already ends with one.
pub open spec fn path_join(base: Seq<char>, comp: Seq<char>) -> Seq<char> {
    if comp.len() > 0 && comp[0] == '/' {
        comp
    } else if base.len() == 0 || base.last() == '/' {
        base + comp
    } else {
        base + seq!['/'] + comp
    }
}

/// The final component of a path, as `Path::file_name` gives it (which
/// `file_name_in` spells out).
pub uninterp spec fn path_file_name(path: Seq<char>) -> Option<Seq<char>>;

/// The index of the last `c` in `s`, or -1 when there is none.
pub open spec fn last_index(s: Seq<char>, c: char) -> int
    decreases s.len(),
{
    if s.len() == 0 {
        -1
    } else if s.last() == c {
        s.len() - 1
    } else {
        last_index(s.drop_last(), c)
    }
}

/// The index of the last '.' in `name`, or -1 when there is none.
pub open spec fn last_dot(name: Seq<char>) -> int {
    last_index(name, '.')
}

/// The part of `path` after its last '/': all of it when it has none.
pub open spec fn last_component(path: Seq<char>) -> Seq<char> {
    path.skip(last_index(path, '/') + 1)
}

/// A plain file name: not empty, without '/', and neither "." nor "..".
pub open spec fn is_plain_name(name: Seq<char>) -> bool {
    &&& name.len() > 0
    &&& !name.contains('/')
    &&& name != seq!['.']
    &&& name != seq!['.', '.']
}

/// Where the last `c` in `s` can be: before the end, or -1 for none.
pub proof fn lemma_last_index_bounds(s: Seq<char>, c: char)
    ensures
        -1 <= last_index(s, c) < s.len(),
    decreases s.len(),
{
    if s.len() > 0 && s.last() != c {
        lemma_last_index_bounds(s.drop_last(), c);
    }
}

/// The piece of a path after its last '/' carries no name when it is
/// empty (the path ends in '/') or "." (a reference to the directory
/// itself); the path's name is then looked for before that '/'.
pub open spec fn piece_is_skipped(piece: Seq<char>) -> bool {
    piece.len() == 0 || piece == seq!['.']
}

/// The file name of a path on Unix, as `Path::file_name` finds it: the
/// last piece between '/'s that is neither empty nor "."; none when there
/// is no such piece or when that piece is "..".
pub open spec fn file_name_in(path: Seq<char>) -> Option<Seq<char>>
    decreases path.len(),
{
    if piece_is_skipped(last_component(path)) {
        if last_index(path, '/') >= 0 {
            proof {
                lemma_last_index_bounds(path, '/');
            }
            file_name_in(path.take(last_index(path, '/')))
        } else {
            None
        }
    } else if last_component(path) == seq!['.', '.'] {
        None
    } else {
        Some(last_component(path))
    }
}

/// Where the file name of a path ends: the end of its last piece between
/// '/'s that is neither empty nor ".".
pub open spec fn name_end(path: Seq<char>) -> int
    decreases path.len(),
{
    if piece_is_skipped(last_component(path)) && last_index(path, '/') >= 0 {
        proof {
            lemma_last_index_bounds(path, '/');
        }
        name_end(path.take(last_index(path, '/')))
    } else {
        path.len() as int
    }
}

/// The extension of a file name: the part after its last '.', none when
/// it has no '.' or its only '.' is its first character.
pub open spec fn name_extension(name: Seq<char>) -> Option<Seq<char>> {
    if last_dot(name) <= 0 {
        None
    } else {
        Some(name.skip(last_dot(name) + 1))
    }
}

/// The extension of a path, as `Path::extension` documents it: none
/// without a file name, else the extension of the file name.
pub open spec fn path_extension(path: Seq<char>) -> Option<Seq<char>> {
    match file_name_in(path) {
        Some(name) => name_extension(name),
        None => None,
    }
}

/// A path with its extension set, as `Path::with_extension` gives it.
pub uninterp spec fn path_with_extension(path: Seq<char>, ext: Seq<char>) -> Seq<char>;

/// `path` with its extension set to `ext`, for a path without an
/// extension: with a file name, the path up to the end of that name, then
/// '.' and `ext` unless `ext` is empty (so a trailing '/' goes); without a
/// file name, the path as it is. A path with an extension as
/// `Path::with_extension` gives it.
pub open spec fn extended_path(path: Seq<char>, ext: Seq<char>) -> Seq<char> {
    if path_extension(path) is None {
        if file_name_in(path) is Some {
            path.take(name_end(path)) + if ext.len() == 0 {
                Seq::<char>::empty()
            } else {
                seq!['.'] + ext
            }
        } else {
            path
        }
    } else {
        path_with_extension(path, ext)
    }
}

/// Joins `comp` onto `base`.
pub fn join_path(base: &str, comp: &str) -> (res: String)
    ensures
        res@ == path_join(base@, comp@),
{
    let b = chars_of(base);
    let c = chars_of(comp);
    if c.len() > 0 && c[0] == '/' {
        return String::from_str(comp);
    }
    let mut res = String::from_str(base);
    if b.len() > 0 && b[b.len() - 1] != '/' {
        res.push('/');
    }
    res.append(comp);
    res
}

/// Calls `Path::file_name`; a name taken from a UTF-8 path is UTF-8, so
/// the result is kept whole. On Unix `Path::components` splits the path at
/// its '/'s and leaves out empty pieces and "." pieces (a leading "." is a
/// `CurDir` component, no name either); `file_name` is the last component
/// when that is a normal one, and ".." is not.
#[verifier::external_body]
fn file_name_of(path: &str) -> (res: Option<String>)
    ensures
        match res {
            Some(name) => path_file_name(path@) == Some(name@),
            None => path_file_name(path@) is None,
        },
        opt_view(res) == file_name_in(path@),
{
    std::path::Path::new(path).file_name().map(|name| name.to_string_lossy().into_owned())
}

/// Calls `Path::extension`, which is none when the path has no file name,
/// when the file name has no '.', or when its only '.' is its first
/// character, and otherwise the part of the file name after its last '.'.
#[verifier::external_body]
fn extension_of(path: &str) -> (res: Option<String>)
    ensures
        match res {
            Some(ext) => path_extension(path@) == Some(ext@),
            None => path_extension(path@) is None,
        },
{
    std::path::Path::new(path).extension().map(|ext| ext.to_string_lossy().into_owned())
}

/// Calls `Path::with_extension`, which panics when the extension holds a
/// path separator; the requirement rules that out. For a path without an
/// extension it copies the whole path and calls `set_extension`, which
/// does nothing without a file stem and otherwise cuts the path right after
/// the stem (here the whole file name) and appends '.' and the extension
/// unless that is empty.
#[verifier::external_body]
fn with_extension(path: &str, ext: &str) -> (res: String)
    requires
        !ext@.contains('/'),
    ensures
        res@ == path_with_extension(path@, ext@),
        path_extension(path@) is None ==> res@ == extended_path(path@, ext@),
{
    std::path::Path::new(path).with_extension(ext).to_string_lossy().into_owned()
}

/// The last component of `path`, if it has one.
pub fn file_name(path: &str) -> (res: Option<String>)
    ensures
        match res {
            Some(name) => path_file_name(path@) == Some(name@),
            None => path_file_name(path@) is None,
        },
        opt_view(res) == file_name_in(path@),
{
    file_name_of(path)
}

/// `c` in lower case, for ASCII letters; other characters stay.
pub open spec fn ascii_lower(c: char) -> char {
    if 'A' <= c && c <= 'Z' {
        ((c as int) + 32) as char
    } else {
        c
    }
}

/// The two strings are equal when ASCII letters are compared without case.
pub open spec fn eq_ignore_ascii_case(a: Seq<char>, b: Seq<char>) -> bool {
    a.len() == b.len() && forall|k: int| 0 <= k < a.len() ==> ascii_lower(#[trigger] a[k])
        == ascii_lower(b[k])
}

fn lower(c: char) -> (r: char)
    ensures
        r == ascii_lower(c),
{
    if 'A' <= c && c <= 'Z' {
        let code = c as u32 + 32;
        proof {
            assert(code <= 0x7f);
        }
        char_from_ascii(code)
    } else {
        c
    }
}

fn char_from_ascii(code: u32) -> (c: char)
    requires
        code <= 0x7f,
    ensures
        c as int == code,
{
    let b: u8 = code as u8;
    b as char
}

/// Compares two strings, ASCII letters without case.
pub fn str_eq_ignore_ascii_case(a: &str, b: &str) -> (r: bool)
    ensures
        r == eq_ignore_ascii_case(a@, b@),
{
    let x = chars_of(a);
    let y = chars_of(b);
    if x.len() != y.len() {
        return false;
    }
    let mut i: usize = 0;
    while i < x.len()
        invariant
            x.len() == y.len(),
            x@ == a@,
            y@ == b@,
            i <= x.len(),
            forall|k: int| 0 <= k < i ==> ascii_lower(#[trigger] x@[k]) == ascii_lower(y@[k]),
        decreases x.len() - i,
    {
        if lower(x[i]) != lower(y[i]) {
            return false;
        }
        i += 1;
    }
    true
}

/// The path names an MLT file: its extension is "mlt", in any case.
pub open spec fn is_mlt_path(path: Seq<char>) -> bool {
    match path_extension(path) {
        Some(ext) => eq_ignore_ascii_case(ext, "mlt"@),
        None => false,
    }
}

/// Whether `path` names an MLT file, by its extension.
pub fn is_mlt_file(path: &str) -> (r: bool)
    ensures
        r == is_mlt_path(path@),
{
    match extension_of(path) {
        Some(ext) => str_eq_ignore_ascii_case(ext.as_str(), "mlt"),
        None => false,
    }
}

/// `path` with `ext` as its extension unless it already has one.
pub open spec fn with_default_extension(path: Seq<char>, ext: Seq<char>) -> Seq<char> {
    if path_extension(path) is Some {
        path
    } else {
        extended_path(path, ext)
    }
}

fn path_with_default_extension(path: String, ext: &str) -> (res: String)
    requires
        !ext@.contains('/'),
    ensures
        res@ == with_default_extension(path@, ext@),
{
    if extension_of(path.as_str()).is_some() {
        path
    } else {
        with_extension(path.as_str(), ext)
    }
}

/// The extension that project files get when saved without one.
pub open spec fn project_extension() -> Seq<char> {
    "aa_editor_proj"@
}

/// The extension that exported MLT files get when saved without one.
pub open spec fn mlt_extension() -> Seq<char> {
    "mlt"@
}

/// The path to save a project to: `path`, with the project extension when
/// it has none.
pub fn path_with_json_extension(path: String) -> (res: String)
    ensures
        res@ == with_default_extension(path@, project_extension()),
{
    proof {
        reveal_strlit("aa_editor_proj");
        assert(!"aa_editor_proj"@.contains('/')) by {
            if "aa_editor_proj"@.contains('/') {
                let k = choose|k: int| 0 <= k < "aa_editor_proj"@.len() && "aa_editor_proj"@[k] == '/';
            }
        }
    }
    path_with_default_extension(path, "aa_editor_proj")
}

/// The path to export an MLT file to: `path`, with ".mlt" when it has no
/// extension.
pub fn path_with_mlt_extension(path: String) -> (res: String)
    ensures
        res@ == with_default_extension(path@, mlt_extension()),
{
    proof {
        reveal_strlit("mlt");
        assert(!"mlt"@.contains('/')) by {
            if "mlt"@.contains('/') {
                let k = choose|k: int| 0 <= k < "mlt"@.len() && "mlt"@[k] == '/';
            }
        }
    }
    path_with_default_extension(path, "mlt")
}

/// A project path with a leading "~" taken as the home directory: "~"
/// alone is the home directory, and "~/rest" is `rest` joined onto it;
/// without a home directory the path stays as it is.
pub open spec fn resolved_path(path: Seq<char>, home: Option<Seq<char>>) -> Seq<char> {
    match home {
        Some(h) => if path == seq!['~'] {
            h
        } else if path.len() >= 2 && path[0] == '~' && path[1] == '/' {
            path_join(h, path.skip(2))
        } else {
            path
        },
        None => path,
    }
}

/// Resolves a leading "~" in `path` against the home directory `home`.
pub fn resolve_project_path(path: &str, home: Option<String>) -> (res: String)
    ensures
        res@ == resolved_path(path@, opt_view(home)),
{
    let cs = chars_of(path);
    match home {
        Some(h) => {
            if cs.len() == 1 && cs[0] == '~' {
                assert(path@ =~= seq!['~']);
                h
            } else if cs.len() >= 2 && cs[0] == '~' && cs[1] == '/' {
                let rest = string_of(&cs, 2, cs.len());
                assert(cs@.subrange(2, cs.len() as int) =~= path@.skip(2));
                join_path(h.as_str(), rest.as_str())
            } else {
                proof {
                    if path@ == seq!['~'] {
                        assert(cs@.len() == 1 && cs@[0] == '~');
                    }
                }
                String::from_str(path)
            }
        },
        None => String::from_str(path),
    }
}

/// The label of a path in the collection tree: its last component, or the
/// whole path when it has none.
pub open spec fn tree_label_of(path: Seq<char>) -> Seq<char> {
    match file_name_in(path) {
        Some(name) => name,
        None => path,
    }
}

/// The label of `path` in the collection tree.
pub fn tree_label(path: &str) -> (res: String)
    ensures
        res@ == tree_label_of(path@),
{
    match file_name_of(path) {
        Some(name) => name,
        None => String::from_str(path),
    }
}

proof fn lemma_not_contains_drop_last(t: Seq<char>, c: char)
    requires
        !t.contains(c),
        t.len() > 0,
    ensures
        !t.drop_last().contains(c),
        t.last() != c,
{
    if t.drop_last().contains(c) {
        let k = choose|k: int| 0 <= k < t.drop_last().len() && t.drop_last()[k] == c;
        assert(t[k] == c);
    }
    if t.last() == c {
        assert(t[t.len() - 1] == c);
    }
}

/// In `s`, `c` and then a tail without `c`, the last `c` is the one after `s`.
proof fn lemma_last_index_before_tail(s: Seq<char>, c: char, t: Seq<char>)
    requires
        !t.contains(c),
    ensures
        last_index(s + seq![c] + t, c) == s.len(),
    decreases t.len(),
{
    let whole = s + seq![c] + t;
    if t.len() == 0 {
        assert(whole.last() == c);
    } else {
        lemma_not_contains_drop_last(t, c);
        assert(whole.last() == t.last());
        assert(whole.drop_last() =~= s + seq![c] + t.drop_last());
        lemma_last_index_before_tail(s, c, t.drop_last());
    }
}

/// A sequence without `c` has no last `c`.
proof fn lemma_last_index_absent(t: Seq<char>, c: char)
    requires
        !t.contains(c),
    ensures
        last_index(t, c) == -1,
    decreases t.len(),
{
    if t.len() > 0 {
        lemma_not_contains_drop_last(t, c);
        lemma_last_index_absent(t.drop_last(), c);
    }
}

/// The part after the last '/' of `dir/name` is `name`, and a name without
/// '/' is its own last component.
proof fn lemma_last_component_of_child(dir: Seq<char>, name: Seq<char>)
    requires
        !name.contains('/'),
    ensures
        last_component(dir + seq!['/'] + name) == name,
        last_component(name) == name,
{
    lemma_last_index_before_tail(dir, '/', name);
    assert((dir + seq!['/'] + name).skip(dir.len() as int + 1) =~= name);
    lemma_last_index_absent(name, '/');
    assert(name.skip(0) =~= name);
}

/// A path ending in a plain name has that name as its file name, whatever
/// directory (dots and all) comes before it; a plain name alone is its own
/// file name.
pub proof fn lemma_file_name_of_child(dir: Seq<char>, name: Seq<char>)
    requires
        is_plain_name(name),
    ensures
        file_name_in(dir + seq!['/'] + name) == Some(name),
        file_name_in(name) == Some(name),
{
    lemma_last_component_of_child(dir, name);
}

/// A '/' or a "/." at the end of a path leaves its file name as it is.
pub proof fn lemma_file_name_ignores_trailing_separator(path: Seq<char>)
    ensures
        file_name_in(path + seq!['/']) == file_name_in(path),
        file_name_in(path + seq!['/', '.']) == file_name_in(path),
{
    let n = path.len() as int;
    lemma_last_index_before_tail(path, '/', Seq::<char>::empty());
    assert(path + seq!['/'] + Seq::<char>::empty() =~= path + seq!['/']);
    assert((path + seq!['/']).skip(n + 1) =~= Seq::<char>::empty());
    assert((path + seq!['/']).take(n) =~= path);
    assert(!seq!['.'].contains('/')) by {
        if seq!['.'].contains('/') {
            let k = choose|k: int| 0 <= k < 1 && seq!['.'][k] == '/';
        }
    }
    lemma_last_index_before_tail(path, '/', seq!['.']);
    assert(path + seq!['/'] + seq!['.'] =~= path + seq!['/', '.']);
    assert((path + seq!['/', '.']).skip(n + 1) =~= seq!['.']);
    assert((path + seq!['/', '.']).take(n) =~= path);
}

/// The extension of a file is what follows the last '.' of its name: the
/// path `dir/stem.ext`, with `stem` not empty and `ext` not empty and
/// without '.', has the extension `ext`, whatever dots `stem` or `dir`
/// hold; it names an MLT file exactly when `ext` is "mlt" in any case.
pub proof fn lemma_extension_after_last_dot(dir: Seq<char>, stem: Seq<char>, ext: Seq<char>)
    requires
        stem.len() > 0,
        ext.len() > 0,
        !stem.contains('/'),
        !ext.contains('/'),
        !ext.contains('.'),
    ensures
        path_extension(dir + seq!['/'] + (stem + seq!['.'] + ext)) == Some(ext),
        is_mlt_path(dir + seq!['/'] + (stem + seq!['.'] + ext)) == eq_ignore_ascii_case(ext, "mlt"@),
{
    let name = stem + seq!['.'] + ext;
    assert(!name.contains('/')) by {
        if name.contains('/') {
            let k = choose|k: int| 0 <= k < name.len() && name[k] == '/';
            if k < stem.len() {
                assert(stem[k] == '/');
            } else if k > stem.len() {
                assert(ext[k - stem.len() - 1] == '/');
            }
        }
    }
    assert(name.len() != seq!['.'].len() && name.len() != seq!['.', '.'].len());
    lemma_file_name_of_child(dir, name);
    lemma_last_index_before_tail(stem, '.', ext);
    assert(name.skip(stem.len() as int + 1) =~= ext);
}

/// Saving to a path that ends in a file name without an extension appends
/// '.' and the default extension to the whole path: nothing before the file
/// name changes, not even a directory with a '.' in its name.
pub proof fn lemma_default_extension_appends(dir: Seq<char>, name: Seq<char>, ext: Seq<char>)
    requires
        is_plain_name(name),
        name_extension(name) is None,
        ext.len() > 0,
    ensures
        with_default_extension(dir + seq!['/'] + name, ext) == dir + seq!['/'] + name + seq!['.']
            + ext,
{
    lemma_last_component_of_child(dir, name);
}

} // verus!
