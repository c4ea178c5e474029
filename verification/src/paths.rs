//! Paths as sequences of components, and Drive-relative path texts.
//!
//! A path is compared component by component: repeated separators, trailing
//! separators and `.` components that do not lead the path make no difference.

use crate::text::{
    chars_of, concat2, concat3, last_index, lemma_last_index, rfind_char, same_text, split,
    split_on, starts_with, string_between,
};
use vstd::prelude::*;

verus! {

/// The texts that a vector of strings holds.
pub open spec fn texts(v: Seq<String>) -> Seq<Seq<char>> {
    v.map_values(|s: String| s@)
}

/// Whether a piece between separators names something.
pub open spec fn is_name(p: Seq<char>) -> bool {
    p.len() > 0 && p != "."@
}

/// The pieces that name something, in order.
pub open spec fn names_in(pieces: Seq<Seq<char>>) -> Seq<Seq<char>>
    decreases pieces.len(),
{
    if pieces.len() == 0 {
        seq![]
    } else if is_name(pieces.last()) {
        names_in(pieces.drop_last()).push(pieces.last())
    } else {
        names_in(pieces.drop_last())
    }
}

/// Whether `path` starts at the root.
pub open spec fn is_absolute(path: Seq<char>) -> bool {
    path.len() > 0 && path[0] == '/'
}

/// What stands in front of the names: `/` for the root, `.` for an explicit
/// current directory, nothing otherwise.
pub open spec fn path_head(path: Seq<char>) -> Seq<Seq<char>> {
    if is_absolute(path) {
        seq![seq!['/']]
    } else if split(path, '/')[0] == "."@ {
        seq!["."@]
    } else {
        seq![]
    }
}

/// The components of `path`.
pub open spec fn path_components(path: Seq<char>) -> Seq<Seq<char>> {
    path_head(path) + names_in(split(path, '/'))
}

/// The last component of `path`, where it names something.
pub open spec fn path_file_name(path: Seq<char>) -> Option<Seq<char>> {
    let names = names_in(split(path, '/'));
    if names.len() == 0 || names.last() == ".."@ {
        None
    } else {
        Some(names.last())
    }
}

/// Where the extension of a file name begins: the last dot, unless it leads the
/// name.
pub open spec fn extension_dot(name: Seq<char>) -> Option<int> {
    if last_index(name, '.') > 0 && name != ".."@ {
        Some(last_index(name, '.'))
    } else {
        None
    }
}

/// `path` expressed relative to `root`, if it is below it. The root itself is
/// the empty path; an empty root covers everything.
pub open spec fn relative(root: Seq<char>, path: Seq<char>) -> Option<Seq<char>> {
    if root.len() == 0 {
        Some(path)
    } else if path == root {
        Some(Seq::empty())
    } else if (root + seq!['/']).is_prefix_of(path) {
        Some(path.skip(root.len() as int + 1))
    } else {
        None
    }
}

/// The path of `name` next to the file at `path`.
pub open spec fn sibling(path: Seq<char>, name: Seq<char>) -> Seq<char> {
    if last_index(path, '/') >= 0 {
        path.take(last_index(path, '/')) + seq!['/'] + name
    } else {
        name
    }
}

/// Relative paths compose: what is below a folder below the root is below the
/// root by the two paths joined.
pub proof fn law_relative_composes(root: Seq<char>, mid: Seq<char>, path: Seq<char>)
    requires
        relative(root, mid) is Some,
        relative(mid, path) is Some,
        root.len() > 0,
        mid != root,
        path != mid,
    ensures
        relative(root, path) == Some(
            relative(root, mid)->0 + seq!['/'] + relative(mid, path)->0,
        ),
{
    let a = root + seq!['/'];
    let b = mid + seq!['/'];
    assert(mid.len() > root.len());
    assert(a =~= mid.take(root.len() as int + 1));
    assert(b =~= path.take(mid.len() as int + 1));
    assert forall|i: int| 0 <= i < b.len() implies path[i] == b[i] by {
        assert(b[i] == path.take(mid.len() as int + 1)[i]);
    }
    assert forall|i: int| 0 <= i < a.len() implies mid[i] == a[i] by {
        assert(a[i] == mid.take(root.len() as int + 1)[i]);
    }
    assert(a =~= path.take(a.len() as int));
    assert(a.is_prefix_of(path));
    assert(path.len() > root.len());
    assert(path.skip(root.len() as int + 1) =~= mid.skip(root.len() as int + 1) + seq!['/'] + path.skip(
        mid.len() as int + 1,
    ));
}

/// A sibling of a file sits in the same folder: both have the same text up to
/// the last separator.
pub proof fn law_sibling_keeps_folder(path: Seq<char>, name: Seq<char>)
    requires
        !name.contains('/'),
    ensures
        last_index(sibling(path, name), '/') == last_index(path, '/'),
        last_index(path, '/') >= 0 ==> sibling(path, name).take(last_index(path, '/')) == path.take(
            last_index(path, '/'),
        ),
        sibling(path, name).skip(last_index(path, '/') + 1) == name,
{
    lemma_last_index(path, '/');
    let i = last_index(path, '/');
    let s = sibling(path, name);
    if i >= 0 {
        assert(s[i] == '/');
        assert forall|j: int| i < j < s.len() implies s[j] != '/' by {
            assert(s[j] == name[j - i - 1]);
        }
        crate::text::lemma_last_index_is(s, '/', i);
        assert(s.take(i) =~= path.take(i));
        assert(s.skip(i + 1) =~= name);
    } else {
        assert forall|j: int| 0 <= j < s.len() implies s[j] != '/' by {}
        crate::text::lemma_last_index_is(s, '/', -1);
        assert(s.skip(0) =~= name);
    }
}

/// The components of `path`.
pub fn components(path: &str) -> (out: Vec<String>)
    ensures
        texts(out@) == path_components(path@),
{
    let pieces = split_on(path, '/');
    let ghost all = split(path@, '/');
    assert(texts(pieces@) == all);
    let v = chars_of(path);
    let mut out: Vec<String> = Vec::new();
    if v.len() > 0 && v[0] == '/' {
        proof {
            reveal_strlit("/");
            assert("/"@ =~= seq!['/']);
        }
        out.push("/".to_owned());
    } else {
        proof {
            lemma_split_nonempty(path@, '/');
            assert(texts(pieces@)[0] == pieces@[0]@);
        }
        if same_text(pieces[0].as_str(), ".") {
            out.push(".".to_owned());
        }
    }
    assert(texts(out@) =~= path_head(path@));
    let mut i: usize = 0;
    assert(all.take(0) =~= Seq::<Seq<char>>::empty());
    assert(path_head(path@) + names_in(all.take(0)) =~= path_head(path@));
    while i < pieces.len()
        invariant
            i <= pieces@.len(),
            texts(pieces@) == all,
            texts(out@) == path_head(path@) + names_in(all.take(i as int)),
        decreases pieces@.len() - i,
    {
        let empty = pieces[i].as_str().is_empty();
        let dot = same_text(pieces[i].as_str(), ".");
        proof {
            assert(all[i as int] == pieces@[i as int]@);
            assert(all.take(i + 1).drop_last() =~= all.take(i as int));
            assert(all.take(i + 1).last() == all[i as int]);
        }
        if !empty && !dot {
            let ghost before = out@;
            let piece = pieces[i].clone();
            out.push(piece);
            assert(texts(out@) =~= texts(before).push(piece@));
            assert(path_head(path@) + names_in(all.take(i as int)).push(piece@) =~= (path_head(
                path@,
            ) + names_in(all.take(i as int))).push(piece@));
        }
        i = i + 1;
    }
    assert(all.take(i as int) =~= all);
    out
}

/// Whether two texts are the same path.
pub fn same_path(a: &str, b: &str) -> (r: bool)
    ensures
        r == (path_components(a@) == path_components(b@)),
{
    let x = components(a);
    let y = components(b);
    assert(texts(x@).len() == x@.len() && texts(y@).len() == y@.len());
    if x.len() != y.len() {
        return false;
    }
    let mut i: usize = 0;
    while i < x.len()
        invariant
            i <= x@.len(),
            x@.len() == y@.len(),
            texts(x@) == path_components(a@),
            texts(y@) == path_components(b@),
            forall|j: int| 0 <= j < i ==> texts(x@)[j] == texts(y@)[j],
        decreases x@.len() - i,
    {
        assert(texts(x@)[i as int] == x@[i as int]@);
        assert(texts(y@)[i as int] == y@[i as int]@);
        if !same_text(x[i].as_str(), y[i].as_str()) {
            return false;
        }
        i = i + 1;
    }
    assert(texts(x@) =~= texts(y@));
    true
}

proof fn lemma_split_nonempty(s: Seq<char>, sep: char)
    ensures
        split(s, sep).len() > 0,
{
}

/// The last component of `path`, where it names something.
pub fn file_name(path: &str) -> (r: Option<String>)
    ensures
        match r {
            Some(n) => path_file_name(path@) == Some(n@),
            None => path_file_name(path@) is None,
        },
{
    let parts = components(path);
    let ghost names = names_in(split(path@, '/'));
    let ghost head = path_head(path@);
    let n = parts.len();
    let v = chars_of(path);
    let mut skip: usize = 0;
    if v.len() > 0 && v[0] == '/' {
        skip = 1;
    } else {
        let pieces = split_on(path, '/');
        proof {
            lemma_split_nonempty(path@, '/');
            assert(pieces@.map_values(|p: String| p@)[0] == pieces@[0]@);
        }
        if same_text(pieces[0].as_str(), ".") {
            skip = 1;
        }
    }
    assert(skip == head.len());
    assert(texts(parts@).len() == head.len() + names.len());
    if n == skip {
        return None;
    }
    proof {
        assert(texts(parts@)[n - 1] == parts@[n - 1]@);
        assert(texts(parts@).last() == names.last());
    }
    if same_text(parts[n - 1].as_str(), "..") {
        return None;
    }
    Some(parts[n - 1].clone())
}

/// The name a path is shown by.
pub open spec fn base_name_of(path: Seq<char>) -> Seq<char> {
    match path_file_name(path) {
        Some(n) => n,
        None => path,
    }
}

/// The name a path is shown by: its last component, or the whole path where it
/// has none.
pub fn base_name(path: &str) -> (r: String)
    ensures
        r@ == base_name_of(path@),
{
    match file_name(path) {
        Some(n) => n,
        None => path.to_owned(),
    }
}

/// Whether `prefix` leads `parts`, component by component.
pub fn leads(prefix: &Vec<String>, parts: &Vec<String>) -> (r: bool)
    ensures
        r == texts(prefix@).is_prefix_of(texts(parts@)),
{
    if prefix.len() > parts.len() {
        return false;
    }
    let mut i: usize = 0;
    while i < prefix.len()
        invariant
            i <= prefix@.len() <= parts@.len(),
            forall|j: int| 0 <= j < i ==> texts(parts@)[j] == texts(prefix@)[j],
        decreases prefix@.len() - i,
    {
        if prefix[i] != parts[i] {
            proof {
                assert(texts(prefix@)[i as int] == prefix@[i as int]@);
                assert(texts(parts@)[i as int] == parts@[i as int]@);
                assert(texts(parts@).subrange(0, prefix@.len() as int)[i as int] != texts(
                    prefix@,
                )[i as int]);
            }
            return false;
        }
        i = i + 1;
    }
    assert(texts(prefix@) =~= texts(parts@).subrange(0, prefix@.len() as int));
    true
}

/// `parts` without its first `n` components.
pub fn without_leading(parts: &Vec<String>, n: usize) -> (out: Vec<String>)
    requires
        n <= parts@.len(),
    ensures
        out@ == parts@.skip(n as int),
        texts(out@) == texts(parts@).skip(n as int),
{
    let mut out: Vec<String> = Vec::new();
    let mut i: usize = n;
    while i < parts.len()
        invariant
            n <= i <= parts@.len(),
            out@ == parts@.subrange(n as int, i as int),
        decreases parts@.len() - i,
    {
        let ghost before = out@;
        out.push(parts[i].clone());
        i = i + 1;
        assert(out@ =~= parts@.subrange(n as int, i as int));
    }
    assert(out@ =~= parts@.skip(n as int));
    assert(texts(out@) =~= texts(parts@).skip(n as int));
    out
}

/// What a front-end's path means inside the mount: an absolute path must lie
/// under the mountpoint, a relative one is taken as it is.
pub open spec fn mount_relative(mountpoint: Seq<char>, path: Seq<char>) -> Option<Seq<Seq<char>>> {
    if is_absolute(path) {
        if path_components(mountpoint).is_prefix_of(path_components(path)) {
            Some(path_components(path).skip(path_components(mountpoint).len() as int))
        } else {
            None
        }
    } else {
        Some(path_components(path))
    }
}

/// Turn a path that a front-end sent into one relative to the mount.
pub fn rel_to_mount(mountpoint: &str, path: &str) -> (r: Result<Vec<String>, String>)
    ensures
        match r {
            Ok(parts) => mount_relative(mountpoint@, path@) == Some(texts(parts@)),
            Err(message) => mount_relative(mountpoint@, path@) is None && message@ == path@
                + " is not under the mountpoint"@,
        },
{
    let parts = components(path);
    let v = chars_of(path);
    if v.len() > 0 && v[0] == '/' {
        let root = components(mountpoint);
        if leads(&root, &parts) {
            assert(root@.len() == texts(root@).len());
            assert(parts@.len() == texts(parts@).len());
            Ok(without_leading(&parts, root.len()))
        } else {
            Err(concat2(path, " is not under the mountpoint"))
        }
    } else {
        Ok(parts)
    }
}

/// `path` expressed relative to `root`, or `None` if it is not below it.
pub fn relative_to<'a>(root: &str, path: &'a str) -> (r: Option<&'a str>)
    ensures
        match r {
            Some(rest) => relative(root@, path@) == Some(rest@),
            None => relative(root@, path@) is None,
        },
{
    let a = chars_of(root);
    let b = chars_of(path);
    if a.len() == 0 {
        return Some(path);
    }
    proof {
        reveal_strlit("");
        assert(""@ =~= Seq::<char>::empty());
    }
    if same_text(root, path) {
        return Some("");
    }
    let n = a.len();
    let below = starts_with(b.as_slice(), a.as_slice()) && n < b.len() && b[n] == '/';
    proof {
        let key = root@ + seq!['/'];
        if below {
            assert(root@ =~= path@.subrange(0, n as int));
            assert forall|i: int| 0 <= i < key.len() implies key[i] == path@[i] by {
                if i < n {
                    assert(path@.subrange(0, n as int)[i] == path@[i]);
                }
            }
            assert(key =~= path@.subrange(0, key.len() as int));
        }
        if key.is_prefix_of(path@) {
            assert(path@.subrange(0, key.len() as int)[n as int] == key[n as int]);
            assert forall|i: int| 0 <= i < n implies root@[i] == path@[i] by {
                assert(path@.subrange(0, key.len() as int)[i] == key[i]);
            }
            assert(root@ =~= path@.subrange(0, n as int));
        }
    }
    if below {
        let rest = path.substring_char(n + 1, b.len());
        assert(rest@ =~= path@.skip(n + 1));
        Some(rest)
    } else {
        None
    }
}

/// The path of `name` next to the file at `path`.
pub fn sibling_path(path: &str, name: &str) -> (r: String)
    ensures
        r@ == sibling(path@, name@),
{
    let v = chars_of(path);
    match rfind_char(v.as_slice(), '/') {
        Some(i) => {
            let dir = string_between(v.as_slice(), 0, i);
            proof {
                reveal_strlit("/");
                assert("/"@ =~= seq!['/']);
                assert(dir@ =~= path@.take(i as int));
            }
            concat3(dir.as_str(), "/", name)
        },
        None => name.to_owned(),
    }
}

/// The names in a path are what stands between its separators, without what is empty and
/// without the dots that stay where they are.
pub proof fn law_names_are_what_is_between_separators(pieces: Seq<Seq<char>>)
    ensures
        names_in(pieces) == pieces.filter(|p: Seq<char>| p.len() > 0 && p != "."@),
    decreases pieces.len(),
{
    reveal(Seq::filter);
    let keep = |p: Seq<char>| p.len() > 0 && p != "."@;
    if pieces.len() > 0 {
        law_names_are_what_is_between_separators(pieces.drop_last());
        assert(is_name(pieces.last()) == keep(pieces.last()));
    }
}

/// A path below the mount is the mountpoint and what it is relative to it; one that is not
/// below it is refused, and one that does not begin at the top is taken as it is.
pub proof fn law_mount_relative_paths_lie_below(mountpoint: Seq<char>, path: Seq<char>)
    ensures
        mount_relative(mountpoint, path) is Some && path.len() > 0 && path[0] == '/'
            ==> path_components(path) == path_components(mountpoint) + mount_relative(
            mountpoint,
            path,
        )->0,
        mount_relative(mountpoint, path) is None ==> path.len() > 0 && path[0] == '/'
            && !path_components(mountpoint).is_prefix_of(path_components(path)),
        path.len() == 0 || path[0] != '/' ==> mount_relative(mountpoint, path) == Some(
            path_components(path),
        ),
        mountpoint.len() > 0 && mountpoint[0] == '/' ==> mount_relative(mountpoint, mountpoint)
            == Some(Seq::<Seq<char>>::empty()),
{
    let m = path_components(mountpoint);
    let p = path_components(path);
    if m.is_prefix_of(p) {
        assert(p =~= m + p.skip(m.len() as int));
    }
    assert(m.is_prefix_of(m));
    assert(m.skip(m.len() as int) =~= Seq::<Seq<char>>::empty());
}

/// A path is below a root just where it is the root, a separator, and what it is relative to
/// it; an empty root is above everything.
pub proof fn law_relative_is_what_follows_the_root(root: Seq<char>, rest: Seq<char>, path: Seq<char>)
    ensures
        root.len() > 0 ==> relative(root, root + seq!['/'] + rest) == Some(rest),
        relative(root, root) == Some(Seq::<char>::empty()),
        root.len() == 0 ==> relative(root, path) == Some(path),
        root.len() > 0 && relative(root, path) is Some ==> path == root || path == root + seq!['/']
            + relative(root, path)->0,
{
    let full = root + seq!['/'] + rest;
    assert((root + seq!['/']).is_prefix_of(full)) by {
        assert(full.take((root + seq!['/']).len() as int) =~= root + seq!['/']);
    }
    assert(full.skip(root.len() as int + 1) =~= rest);
    if root.len() == 0 {
        assert(root =~= Seq::<char>::empty());
    }
    if (root + seq!['/']).is_prefix_of(path) {
        assert(path =~= root + seq!['/'] + path.skip(root.len() as int + 1));
    }
}

/// The name of a path is the last of its names, and a path that goes up at its end has none.
pub proof fn law_file_name_is_the_last_name(path: Seq<char>)
    ensures
        path_file_name(path) is Some ==> {
            let n = path_file_name(path)->0;
            n.len() > 0 && n != "."@ && n != ".."@ && names_in(split(path, '/')).last() == n
        },
        base_name_of(path) == path || path_file_name(path) == Some(base_name_of(path)),
{
    lemma_names_are_names(split(path, '/'));
}

proof fn lemma_names_are_names(pieces: Seq<Seq<char>>)
    ensures
        forall|i: int|
            0 <= i < names_in(pieces).len() ==> (#[trigger] names_in(pieces)[i]).len() > 0
                && names_in(pieces)[i] != "."@,
    decreases pieces.len(),
{
    if pieces.len() > 0 {
        let rest = names_in(pieces.drop_last());
        lemma_names_are_names(pieces.drop_last());
        assert forall|i: int| 0 <= i < names_in(pieces).len() implies (
        #[trigger] names_in(pieces)[i]).len() > 0 && names_in(pieces)[i] != "."@ by {
            if i < rest.len() {
                assert(names_in(pieces)[i] == rest[i]);
            }
        }
    }
}

/// An extension stands behind the last dot of a name, and never behind one that it begins
/// with.
pub proof fn law_hidden_names_have_no_extension(name: Seq<char>)
    ensures
        extension_dot(name) is Some ==> 0 < extension_dot(name)->0 < name.len()
            && name[extension_dot(name)->0] == '.' && forall|i: int|
            extension_dot(name)->0 < i < name.len() ==> #[trigger] name[i] != '.',
        extension_dot(name) is None && name != ".."@ ==> forall|i: int|
            0 < i < name.len() ==> #[trigger] name[i] != '.',
{
    lemma_last_index(name, '.');
}

} // verus!
