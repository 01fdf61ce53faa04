//! File paths as text, with `/` between their components.
//!
//! A backslash is an ordinary character here, and a drive letter is part of a name. That is how
//! `std::path` reads a path everywhere but on Windows, where a backslash separates components too:
//! there a path has to be written with `/` before it is read here, or a dot in the name of a directory
//! is taken for that of an extension.

use crate::text;
use vstd::prelude::*;

verus! {

/// The path without the separators and current-directory components at its end.
pub open spec fn trimmed(p: Seq<char>) -> Seq<char>
    decreases p.len(),
{
    if p.len() > 0 && p.last() == '/' {
        trimmed(p.drop_last())
    } else if p.len() >= 2 && p.last() == '.' && p[p.len() - 2] == '/' {
        trimmed(p.take(p.len() - 2))
    } else {
        p
    }
}

/// The last component of the path, if it names a file: not the root, `.` or `..`.
pub open spec fn file_name_of(p: Seq<char>) -> Option<Seq<char>> {
    let name = text::after_last(trimmed(p), '/');
    if name == Seq::<char>::empty() || name == seq!['.'] || name == seq!['.', '.'] {
        None
    } else {
        Some(name)
    }
}

/// What stands before the last dot of a file name; a leading dot does not count.
pub open spec fn stem_of_name(name: Seq<char>) -> Seq<char> {
    match name.index_of_last('.') {
        Some(k) => if k > 0 {
            name.take(k)
        } else {
            name
        },
        None => name,
    }
}

/// What stands behind the last dot of a file name; a leading dot does not count.
pub open spec fn extension_of_name(name: Seq<char>) -> Option<Seq<char>> {
    match name.index_of_last('.') {
        Some(k) => if k > 0 {
            Some(name.skip(k + 1))
        } else {
            None
        },
        None => None,
    }
}

/// The extension of the file that the path names.
pub open spec fn extension_of(p: Seq<char>) -> Option<Seq<char>> {
    match file_name_of(p) {
        Some(name) => extension_of_name(name),
        None => None,
    }
}

/// The path up to the file name, the separators before it included.
pub open spec fn directory_part(p: Seq<char>) -> Seq<char> {
    let t = trimmed(p);
    t.take(t.len() - text::after_last(t, '/').len())
}

/// The path with another extension; a path that names no file stays as it is.
pub open spec fn with_extension_of(p: Seq<char>, ext: Seq<char>) -> Seq<char> {
    match file_name_of(p) {
        Some(name) => directory_part(p) + stem_of_name(name) + seq!['.'] + ext,
        None => p,
    }
}

/// `name` as an entry of the directory of the file that the path names.
pub open spec fn sibling_of(p: Seq<char>, name: Seq<char>) -> Seq<char> {
    let dir = directory_part(p);
    if dir.len() == 0 {
        name
    } else {
        trimmed(dir) + seq!['/'] + name
    }
}

fn trim_path(p: &Vec<char>) -> (res: Vec<char>)
    ensures
        res@ == trimmed(p@),
{
    let mut n: usize = p.len();
    proof {
        assert(p@.take(n as int) =~= p@);
    }
    loop
        invariant
            n <= p@.len(),
            trimmed(p@.take(n as int)) == trimmed(p@),
        decreases n,
    {
        let ghost cur = p@.take(n as int);
        if n > 0 && p[n - 1] == '/' {
            n = n - 1;
            assert(cur.drop_last() =~= p@.take(n as int));
        } else if n >= 2 && p[n - 1] == '.' && p[n - 2] == '/' {
            n = n - 2;
            assert(cur.take(cur.len() - 2) =~= p@.take(n as int));
        } else {
            let out = text::slice(p, 0, n);
            assert(out@ =~= cur);
            return out;
        }
    }
}

fn names_file(name: &Vec<char>) -> (res: bool)
    ensures
        res == !(name@ == Seq::<char>::empty() || name@ == seq!['.'] || name@ == seq!['.', '.']),
{
    if name.len() == 0 {
        assert(name@ =~= Seq::<char>::empty());
        false
    } else if name.len() == 1 && name[0] == '.' {
        assert(name@ =~= seq!['.']);
        false
    } else if name.len() == 2 && name[0] == '.' && name[1] == '.' {
        assert(name@ =~= seq!['.', '.']);
        false
    } else {
        proof {
            assert(seq!['.'].len() == 1 && seq!['.'][0] == '.');
            assert(seq!['.', '.'].len() == 2);
        }
        true
    }
}

/// The last component of the path, if it names a file.
pub fn file_name(p: &str) -> (res: Option<String>)
    ensures
        match res {
            Some(name) => file_name_of(p@) == Some(name@),
            None => file_name_of(p@) is None,
        },
{
    let t = trim_path(&text::chars_of(p));
    let name = text::tail_after(&t, '/');
    if names_file(&name) {
        Some(text::string_of(&name))
    } else {
        None
    }
}

/// The extension of the file that the path names.
pub fn extension(p: &str) -> (res: Option<String>)
    ensures
        match res {
            Some(ext) => extension_of(p@) == Some(ext@),
            None => extension_of(p@) is None,
        },
{
    let t = trim_path(&text::chars_of(p));
    let name = text::tail_after(&t, '/');
    if names_file(&name) {
        let n = name.len();
        match text::find_last(&name, '.') {
            Some(k) => if k > 0 {
                let ext = text::slice(&name, k + 1, n);
                Some(text::string_of(&ext))
            } else {
                None
            },
            None => None,
        }
    } else {
        None
    }
}

/// The path with another extension; a path that names no file stays as it is.
pub fn with_extension(p: &str, ext: &str) -> (res: String)
    ensures
        res@ == with_extension_of(p@, ext@),
{
    let whole = text::chars_of(p);
    let t = trim_path(&whole);
    let name = text::tail_after(&t, '/');
    if !names_file(&name) {
        return text::string_of(&whole);
    }
    proof {
        t@.index_of_last_ensures('/');
    }
    let keep: usize = match text::find_last(&name, '.') {
        Some(k) => if k > 0 {
            k
        } else {
            name.len()
        },
        None => name.len(),
    };
    let dir_len: usize = t.len() - name.len();
    let mut out = text::slice(&t, 0, dir_len + keep);
    proof {
        assert(name@ =~= t@.skip(dir_len as int));
        assert(stem_of_name(name@) =~= name@.take(keep as int));
        assert(out@ =~= directory_part(p@) + stem_of_name(name@));
    }
    out.push('.');
    let mut e = text::chars_of(ext);
    out.append(&mut e);
    proof {
        assert(out@ =~= directory_part(p@) + stem_of_name(name@) + seq!['.'] + ext@);
    }
    text::string_of(&out)
}

/// `name` as an entry of the directory of the file that the path names.
pub fn sibling(p: &str, name: &str) -> (res: String)
    ensures
        res@ == sibling_of(p@, name@),
{
    let t = trim_path(&text::chars_of(p));
    let old_name = text::tail_after(&t, '/');
    proof {
        t@.index_of_last_ensures('/');
    }
    let dir = text::slice(&t, 0, t.len() - old_name.len());
    if dir.len() == 0 {
        text::string_of(&text::chars_of(name))
    } else {
        let mut out = trim_path(&dir);
        out.push('/');
        let mut rest = text::chars_of(name);
        out.append(&mut rest);
        proof {
            assert(out@ =~= trimmed(dir@) + seq!['/'] + name@);
        }
        text::string_of(&out)
    }
}

/// The path without its last component; none where there is no component to take off.
pub open spec fn parent_of(p: Seq<char>) -> Option<Seq<char>> {
    let dir = directory_part(p);
    if trimmed(p).len() == 0 {
        None
    } else if dir.len() == 0 {
        Some(Seq::empty())
    } else if trimmed(dir).len() == 0 {
        Some(seq!['/'])
    } else {
        Some(trimmed(dir))
    }
}

/// The path without its last component; none where there is no component to take off.
pub fn parent(p: &str) -> (res: Option<String>)
    ensures
        match res {
            Some(d) => parent_of(p@) == Some(d@),
            None => parent_of(p@) is None,
        },
{
    let t = trim_path(&text::chars_of(p));
    if t.len() == 0 {
        return None;
    }
    let name = text::tail_after(&t, '/');
    proof {
        t@.index_of_last_ensures('/');
    }
    let dir = text::slice(&t, 0, t.len() - name.len());
    if dir.len() == 0 {
        let out = String::new();
        assert(out@ =~= Seq::empty());
        return Some(out);
    }
    let d = trim_path(&dir);
    if d.len() == 0 {
        let mut root: Vec<char> = Vec::new();
        root.push('/');
        assert(root@ =~= seq!['/']);
        Some(text::string_of(&root))
    } else {
        Some(text::string_of(&d))
    }
}

proof fn lemma_plain_path(dir: Seq<char>, name: Seq<char>)
    requires
        name.len() > 0,
        !name.contains('/'),
        name != seq!['.'],
    ensures
        ({
            let p = dir + seq!['/'] + name;
            &&& trimmed(p) == p
            &&& trimmed(p.push('/')) == p
            &&& text::after_last(p, '/') == name
            &&& directory_part(p) == dir + seq!['/']
            &&& trimmed(name) == name
            &&& text::after_last(name, '/') == name
            &&& directory_part(name) == Seq::<char>::empty()
        }),
{
    let p = dir + seq!['/'] + name;
    assert(name.last() == name[name.len() - 1]);
    assert(name.last() != '/');
    assert(p.last() == name.last());
    if name.last() == '.' {
        if name.len() == 1 {
            assert(name =~= seq!['.']);
        }
        assert(p[p.len() - 2] == name[name.len() - 2]);
        assert(name[name.len() - 2] != '/');
    }
    assert(trimmed(p) == p);
    let q = p.push('/');
    assert(q.last() == '/' && q.drop_last() =~= p);
    assert(trimmed(q) == trimmed(q.drop_last()));
    text::law_parts_around_a_character(dir, '/', name);
    text::law_parts_around_a_character(name, '/', name);
    assert(p.take(p.len() - name.len()) =~= dir + seq!['/']);
    assert(name.take(0) =~= Seq::<char>::empty());
}

/// The name of a file stands behind the last slash, and a slash at the end does not count; a path
/// without one is a name.
pub proof fn law_names_stand_behind_the_last_slash(dir: Seq<char>, name: Seq<char>)
    requires
        name.len() > 0,
        !name.contains('/'),
        name != seq!['.'],
        name != seq!['.', '.'],
    ensures
        file_name_of(dir + seq!['/'] + name) == Some(name),
        file_name_of((dir + seq!['/'] + name).push('/')) == Some(name),
        file_name_of(name) == Some(name),
{
    lemma_plain_path(dir, name);
}

/// The extension stands behind the last dot of the name, and another one takes its place; a name
/// without a dot has none, and one is put behind it.
pub proof fn law_extensions_stand_behind_the_last_dot(
    dir: Seq<char>,
    stem: Seq<char>,
    ext: Seq<char>,
    other: Seq<char>,
)
    requires
        stem.len() > 0,
        !stem.contains('/'),
        !ext.contains('/'),
        !ext.contains('.'),
        stem != seq!['.'],
    ensures
        extension_of(dir + seq!['/'] + (stem + seq!['.'] + ext)) == Some(ext),
        extension_of(stem + seq!['.'] + ext) == Some(ext),
        with_extension_of(dir + seq!['/'] + (stem + seq!['.'] + ext), other) == dir + seq!['/']
            + stem + seq!['.'] + other,
        with_extension_of(stem + seq!['.'] + ext, other) == stem + seq!['.'] + other,
        !stem.contains('.') ==> extension_of(dir + seq!['/'] + stem) is None,
        !stem.contains('.') ==> with_extension_of(dir + seq!['/'] + stem, other) == dir + seq!['/']
            + stem + seq!['.'] + other,
        !stem.contains('.') ==> with_extension_of(stem, other) == stem + seq!['.'] + other,
{
    let name = stem + seq!['.'] + ext;
    assert(!name.contains('/')) by {
        if name.contains('/') {
            let i = choose|i: int| 0 <= i < name.len() && name[i] == '/';
            if i < stem.len() {
                assert(stem[i] == '/');
            } else if i > stem.len() {
                assert(ext[i - stem.len() - 1] == '/');
            }
        }
    }
    assert(name.len() >= 2 && name[stem.len() as int] == '.');
    if name == seq!['.', '.'] {
        assert(stem[0] == name[0]);
        assert(stem =~= seq!['.']);
    }
    lemma_plain_path(dir, name);
    name.index_of_last_ensures('.');
    let k = name.index_of_last('.')->0;
    if k > stem.len() {
        assert(ext[k - stem.len() - 1] == '.');
    }
    assert(k == stem.len());
    assert(name.skip(k + 1) =~= ext);
    assert(name.take(k) =~= stem);
    assert(Seq::<char>::empty() + stem + seq!['.'] + other =~= stem + seq!['.'] + other);
    if !stem.contains('.') {
        lemma_plain_path(dir, stem);
        if stem == seq!['.', '.'] {
            assert(stem[0] == '.');
        }
        stem.index_of_last_ensures('.');
    }
}

/// Another name in the directory of a file stands behind the same slash. A path without a directory
/// has its neighbours beside it.
pub proof fn law_neighbours_share_their_directory(dir: Seq<char>, name: Seq<char>, other: Seq<char>)
    requires
        name.len() > 0,
        !name.contains('/'),
        name != seq!['.'],
        dir.len() > 0,
        dir.last() != '/',
        dir.last() != '.',
    ensures
        sibling_of(dir + seq!['/'] + name, other) == dir + seq!['/'] + other,
        sibling_of(name, other) == other,
        parent_of(dir + seq!['/'] + name) == Some(dir),
        parent_of(name) == Some(Seq::<char>::empty()),
{
    lemma_plain_path(dir, name);
    let d = dir + seq!['/'];
    assert(d.drop_last() =~= dir);
    assert(d.last() == '/');
    assert(trimmed(dir) == dir);
    assert(trimmed(d) == dir);
}

/// A dot as the last component stands for the directory that it is in and does not count; two dots are
/// the name of no file, and a path that ends with them takes on no extension.
pub proof fn law_dots_name_no_file(dir: Seq<char>, name: Seq<char>, ext: Seq<char>)
    requires
        name.len() > 0,
        !name.contains('/'),
        name != seq!['.'],
        name != seq!['.', '.'],
    ensures
        file_name_of((dir + seq!['/'] + name).push('/').push('.')) == Some(name),
        file_name_of(dir + seq!['/'] + seq!['.', '.']) is None,
        with_extension_of(dir + seq!['/'] + seq!['.', '.'], ext) == dir + seq!['/'] + seq!['.', '.'],
        file_name_of(seq!['/']) is None,
{
    lemma_plain_path(dir, name);
    let p = dir + seq!['/'] + name;
    let q = p.push('/').push('.');
    assert(q.last() == '.' && q[q.len() - 2] == '/');
    assert(q.take(q.len() - 2) =~= p);
    assert(trimmed(q) == trimmed(p));
    let up = seq!['.', '.'];
    assert(!up.contains('/'));
    assert(up.len() == 2 && seq!['.'].len() == 1);
    lemma_plain_path(dir, up);
    let root = seq!['/'];
    assert(root.last() == '/' && root.drop_last() =~= Seq::<char>::empty());
    assert(trimmed(root.drop_last()) == Seq::<char>::empty());
    assert(trimmed(root) == trimmed(root.drop_last()));
    assert(!Seq::<char>::empty().contains('/'));
    text::law_parts_around_a_character(Seq::empty(), '/', Seq::empty());
}

/// A dot at the start of a name begins no extension; one is put behind the whole name.
pub proof fn law_hidden_files_have_no_extension(dir: Seq<char>, rest: Seq<char>, other: Seq<char>)
    requires
        rest.len() > 0,
        !rest.contains('/'),
        !rest.contains('.'),
    ensures
        extension_of(dir + seq!['/'] + (seq!['.'] + rest)) is None,
        with_extension_of(dir + seq!['/'] + (seq!['.'] + rest), other) == dir + seq!['/'] + (seq!['.']
            + rest) + seq!['.'] + other,
{
    let name = seq!['.'] + rest;
    assert(!name.contains('/')) by {
        if name.contains('/') {
            let i = choose|i: int| 0 <= i < name.len() && name[i] == '/';
            if i > 0 {
                assert(rest[i - 1] == '/');
            }
        }
    }
    if name == seq!['.', '.'] {
        assert(rest[0] == name[1]);
        assert(rest.contains('.'));
    }
    lemma_plain_path(dir, name);
    name.index_of_last_ensures('.');
    assert(name[0] == '.');
    let k = name.index_of_last('.')->0;
    if k > 0 {
        assert(rest[k - 1] == '.');
    }
}

/// The directory of a file at the root is the root, and an empty path has none.
pub proof fn law_the_root_is_a_directory(name: Seq<char>)
    requires
        name.len() > 0,
        !name.contains('/'),
        name != seq!['.'],
    ensures
        parent_of(seq!['/'] + name) == Some(seq!['/']),
        parent_of(Seq::empty()) is None,
{
    lemma_plain_path(Seq::empty(), name);
    let p = seq!['/'] + name;
    assert(Seq::<char>::empty() + seq!['/'] + name =~= p);
    let root = seq!['/'];
    assert(Seq::<char>::empty() + root =~= root);
    assert(root.last() == '/' && root.drop_last() =~= Seq::<char>::empty());
    assert(trimmed(root.drop_last()) == Seq::<char>::empty());
    assert(trimmed(root) == trimmed(root.drop_last()));
    assert(trimmed(Seq::<char>::empty()) == Seq::<char>::empty());
}

} // verus!
