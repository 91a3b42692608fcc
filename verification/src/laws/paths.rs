//! Paths: their names, extensions and folders.

use crate::paths;
use crate::paths::{extension, file_name, is_within};
use crate::records::{title_to_show, FileRow};
use crate::text;
use vstd::prelude::*;
use vstd::string::*;

verus! {

/// `path` is the name `n` behind `dir`, which is empty or ends in `/`.
pub open spec fn parts_into(path: Seq<char>, dir: Seq<char>, n: Seq<char>) -> bool {
    &&& path == dir + n
    &&& dir.len() == 0 || dir.last() == '/'
    &&& n.len() > 0
    &&& forall|i: int| 0 <= i < n.len() ==> n[i] != '/'
}

proof fn lemma_parts(path: Seq<char>, dir: Seq<char>, n: Seq<char>)
    requires
        parts_into(path, dir, n),
    ensures
        path.skip(paths::last_start(path)) == n,
        paths::last_start(path) == dir.len(),
{
    paths::lemma_last_start(path);
    let k = paths::last_start(path);
    if k < dir.len() {
        assert(path[dir.len() - 1] == dir.last());
    }
    if k > dir.len() {
        assert(path[k - 1] == n[k - 1 - dir.len()]);
    }
    assert(path.skip(dir.len() as int) =~= n);
}

/// The name that a path parts into is the one that it ends in.
pub proof fn lemma_name_of(path: Seq<char>, dir: Seq<char>, n: Seq<char>)
    requires
        parts_into(path, dir, n),
        n != "."@,
        n != ".."@,
    ensures
        paths::base_name(path) == Some(n),
{
    lemma_parts(path, dir, n);
}

/// A path ends in the name behind its last `/`; `..` is no name.
pub proof fn law_a_path_ends_in_its_name(
    p: &str,
    dir: Seq<char>,
    n: Seq<char>,
    r: Option<String>,
)
    requires
        call_ensures(file_name, (p,), r),
        parts_into(p@, dir, n),
        n != "."@,
    ensures
        n != ".."@ ==> r is Some && r->0@ == n,
        n == ".."@ ==> r is None,
{
    lemma_parts(p@, dir, n);
}

/// A `/` at the end, and a `.` behind it, count for nothing.
pub proof fn law_slashes_at_the_end_do_not_count(
    p: &str,
    q: &str,
    r: Option<String>,
    s: Option<String>,
)
    requires
        call_ensures(file_name, (p,), r),
        call_ensures(file_name, (q,), s),
        q@ == p@ + "/"@ || q@ == p@ + "/."@,
    ensures
        r is Some <==> s is Some,
        r is Some ==> r->0@ == s->0@,
{
    reveal_strlit("/");
    reveal_strlit("/.");
    reveal_strlit(".");
    let n = p@.len() as int;
    if q@ == p@ + "/"@ {
        assert(q@.last() == '/');
        assert(q@.skip(n + 1) =~= Seq::<char>::empty());
        assert(q@.take(n) =~= p@);
    } else {
        assert(parts_into(q@, p@ + "/"@, "."@)) by {
            assert(q@ =~= (p@ + "/"@) + "."@);
            assert((p@ + "/"@).last() == '/');
        }
        lemma_parts(q@, p@ + "/"@, "."@);
        assert(q@.take(n) =~= p@);
    }
}

/// A path without a name in it has none.
pub proof fn law_an_empty_path_has_no_name(p: &str, r: Option<String>)
    requires
        call_ensures(file_name, (p,), r),
        p@.len() == 0,
    ensures
        r is None,
{
    assert(p@.skip(0) =~= p@);
}

/// The extension of a path is that of the name that it ends in.
pub proof fn law_the_extension_is_that_of_the_name(
    p: &str,
    q: &str,
    n: Option<String>,
    m: Option<String>,
    r: Option<String>,
    s: Option<String>,
)
    requires
        call_ensures(file_name, (p,), n),
        call_ensures(file_name, (q,), m),
        call_ensures(extension, (p,), r),
        call_ensures(extension, (q,), s),
        n is Some <==> m is Some,
        n is Some ==> n->0@ == m->0@,
    ensures
        r is Some <==> s is Some,
        r is Some ==> r->0@ == s->0@,
        n is None ==> r is None,
{
}

/// The extension is what follows the last `.` of the name, unless that `.` begins it.
pub proof fn law_the_extension_follows_the_last_dot(
    p: &str,
    dir: Seq<char>,
    stem: Seq<char>,
    ext: Seq<char>,
    r: Option<String>,
)
    requires
        call_ensures(extension, (p,), r),
        parts_into(p@, dir, stem + seq!['.'] + ext),
        forall|i: int| 0 <= i < ext.len() ==> ext[i] != '.',
        stem + seq!['.'] + ext != "."@,
        stem + seq!['.'] + ext != ".."@,
    ensures
        stem.len() > 0 ==> r is Some && r->0@ == ext,
        stem.len() == 0 ==> r is None,
{
    lemma_extension_of(p@, dir, stem, ext);
}

/// The extension that a path parts into is the one that it has, where the `.` does not begin
/// its name.
pub proof fn lemma_extension_of(path: Seq<char>, dir: Seq<char>, stem: Seq<char>, ext: Seq<char>)
    requires
        parts_into(path, dir, stem + seq!['.'] + ext),
        forall|i: int| 0 <= i < ext.len() ==> ext[i] != '.',
        stem + seq!['.'] + ext != "."@,
        stem + seq!['.'] + ext != ".."@,
    ensures
        paths::path_extension(path) == (if stem.len() > 0 {
            Some(ext)
        } else {
            None
        }),
{
    let n = stem + seq!['.'] + ext;
    lemma_parts(path, dir, n);
    lemma_dot(n, stem.len() as int);
    assert(n.skip(stem.len() as int + 1) =~= ext);
}

/// A name without a `.` has no extension.
pub proof fn law_without_a_dot_there_is_no_extension(
    p: &str,
    dir: Seq<char>,
    n: Seq<char>,
    r: Option<String>,
)
    requires
        call_ensures(extension, (p,), r),
        parts_into(p@, dir, n),
        forall|i: int| 0 <= i < n.len() ==> n[i] != '.',
    ensures
        r is None,
{
    reveal_strlit(".");
    lemma_parts(p@, dir, n);
    paths::lemma_last_dot(n);
    assert("."@[0] == '.');
}

proof fn lemma_dot(n: Seq<char>, k: int)
    requires
        0 <= k < n.len(),
        n[k] == '.',
        forall|i: int| k < i < n.len() ==> n[i] != '.',
    ensures
        paths::last_dot(n) == k,
    decreases n.len(),
{
    if n.last() != '.' {
        let m = n.drop_last();
        assert(k < m.len());
        assert(m[k] == n[k]);
        assert forall|i: int| k < i < m.len() implies m[i] != '.' by {
            assert(m[i] == n[i]);
        }
        lemma_dot(m, k);
    }
}

/// What the name of the path is, whoever asks for it; `other` where it has none.
pub open spec fn is_name_of(n: Seq<char>, path: Seq<char>, other: Seq<char>) -> bool {
    forall|s: &str, r: Option<String>|
        s@ == path && #[trigger] call_ensures(file_name, (s,), r) ==> n == (match r {
            Some(x) => x@,
            None => other,
        })
}

/// `shown` is the title of a file: its own, or where that is blank the name that its path ends
/// in, or the path where there is no name.
pub open spec fn is_titled(shown: Seq<char>, title: Seq<char>, path: Seq<char>) -> bool {
    &&& text::trimmed(title).len() > 0 ==> shown == title
    &&& text::trimmed(title).len() == 0 ==> is_name_of(shown, path, path)
}

/// The title that is shown is one.
pub proof fn lemma_titled(title: Seq<char>, path: Seq<char>)
    ensures
        is_titled(crate::records::shown_title(title, path), title, path),
{
}

/// A file is shown under its title, or where that is blank under the name that its path ends
/// in.
pub proof fn law_the_title_is_shown(title: &str, path: &str, r: String)
    requires
        call_ensures(title_to_show, (title, path), r),
    ensures
        is_titled(r@, title@, path@),
{
    lemma_titled(title@, path@);
}

/// A row is shown under its title, or where that is blank under the name that its path ends in.
pub proof fn law_a_row_is_shown_under_its_title(row: &FileRow, r: String)
    requires
        call_ensures(FileRow::display_title, (row,), r),
    ensures
        is_titled(r@, row.title@, row.path@),
{
    lemma_titled(row.title@, row.path@);
}

// ---------------------------------------------------------------------------
// Folders
// ---------------------------------------------------------------------------
/// No byte is a `/`.
pub open spec fn no_slash(s: Seq<u8>) -> bool {
    forall|i: int| 0 <= i < s.len() ==> s[i] != 0x2F
}

/// The bytes name something in a folder: there are some, no `/`, and they are not `.`.
pub open spec fn names_something(s: Seq<u8>) -> bool {
    s.len() > 0 && no_slash(s) && s != seq![0x2Eu8]
}

proof fn lemma_cut_join(a: Seq<u8>, b: Seq<u8>)
    ensures
        ({
            let p = a + seq![0x2Fu8] + b;
            &&& paths::cut_path(p).0 == paths::pieces(a) + paths::cut_path(b).0
            &&& paths::cut_path(p).1 == paths::cut_path(b).1
        }),
        paths::pieces(a + seq![0x2Fu8] + b) == paths::pieces(a) + paths::pieces(b),
    decreases b.len(),
{
    let p = a + seq![0x2Fu8] + b;
    if b.len() == 0 {
        assert(p.drop_last() =~= a);
        assert(p.last() == 0x2F);
        assert(paths::cut_path(p).0 =~= paths::pieces(a) + paths::cut_path(b).0);
    } else {
        lemma_cut_join(a, b.drop_last());
        assert(p.drop_last() =~= a + seq![0x2Fu8] + b.drop_last());
        assert(p.last() == b.last());
        let (done, open) = paths::cut_path(b.drop_last());
        if b.last() == 0x2F {
            assert(paths::cut_path(p).0 =~= paths::pieces(a) + done.push(open));
        }
    }
    assert(paths::pieces(p) =~= paths::pieces(a) + paths::pieces(b));
}

proof fn lemma_one_piece(n: Seq<u8>)
    requires
        no_slash(n),
    ensures
        paths::pieces(n) == seq![n],
        paths::cut_path(n) == (Seq::<Seq<u8>>::empty(), n),
    decreases n.len(),
{
    if n.len() == 0 {
        assert(n =~= Seq::<u8>::empty());
    } else {
        let m = n.drop_last();
        assert forall|i: int| 0 <= i < m.len() implies m[i] != 0x2F by {
            assert(m[i] == n[i]);
        }
        lemma_one_piece(m);
        assert(n.last() != 0x2F);
        assert(m.push(n.last()) =~= n);
    }
    assert(paths::pieces(n) =~= seq![n]);
}

/// The pieces of a path that name something.
spec fn named(p: Seq<u8>) -> Seq<Seq<u8>> {
    paths::pieces(p).filter(|x: Seq<u8>| paths::is_component(x))
}

proof fn lemma_named_join(a: Seq<u8>, b: Seq<u8>)
    ensures
        named(a + seq![0x2Fu8] + b) == named(a) + named(b),
{
    let f = |x: Seq<u8>| paths::is_component(x);
    lemma_cut_join(a, b);
    Seq::filter_distributes_over_add(paths::pieces(a), paths::pieces(b), f);
}

proof fn lemma_named_one(n: Seq<u8>)
    requires
        names_something(n),
    ensures
        named(n) == seq![n],
{
    lemma_one_piece(n);
    let f = |x: Seq<u8>| paths::is_component(x);
    let s = seq![n];
    assert(s.filter(f) =~= seq![n]) by {
        reveal(Seq::filter);
        assert(s.drop_last() =~= Seq::<Seq<u8>>::empty());
        assert(s.drop_last().filter(f) =~= Seq::<Seq<u8>>::empty());
    }
}

proof fn lemma_anchor(a: Seq<u8>, b: Seq<u8>)
    requires
        a.len() > 0,
    ensures
        paths::path_anchor(a + seq![0x2Fu8] + b) == paths::path_anchor(a),
{
    let p = a + seq![0x2Fu8] + b;
    lemma_cut_join(a, b);
    assert(p[0] == a[0]);
    assert(paths::pieces(p)[0] == paths::pieces(a)[0]);
}

/// A folder lies within itself, and so does all that is below it.
pub proof fn law_what_is_below_a_folder_lies_within(
    p: &[u8],
    root: &[u8],
    rest: Seq<u8>,
    r: bool,
)
    requires
        call_ensures(is_within, (p, root), r),
        p@ == root@ || root@.len() > 0 && p@ == root@ + seq![0x2Fu8] + rest,
    ensures
        r,
{
    let (a, b) = (paths::components(root@), paths::components(p@));
    if p@ != root@ {
        lemma_named_join(root@, rest);
        lemma_anchor(root@, rest);
        assert(b =~= a + named(rest));
    }
    assert(b.subrange(0, a.len() as int) =~= a);
}

/// What has another name in the same folder does not lie within, nor does what is below it.
pub proof fn law_what_is_beside_a_folder_lies_outside(
    p: &[u8],
    root: &[u8],
    dir: Seq<u8>,
    n: Seq<u8>,
    m: Seq<u8>,
    rest: Option<Seq<u8>>,
    r: bool,
)
    requires
        call_ensures(is_within, (p, root), r),
        dir.len() > 0,
        names_something(n),
        names_something(m),
        n != m,
        root@ == dir + seq![0x2Fu8] + n,
        p@ == (match rest {
            Some(x) => dir + seq![0x2Fu8] + m + seq![0x2Fu8] + x,
            None => dir + seq![0x2Fu8] + m,
        }),
    ensures
        !r,
{
    let (a, b) = (paths::components(root@), paths::components(p@));
    let k = (paths::path_anchor(dir) + named(dir)).len() as int;
    lemma_named_join(dir, n);
    lemma_anchor(dir, n);
    lemma_named_one(n);
    lemma_named_one(m);
    assert(a =~= paths::path_anchor(dir) + named(dir) + seq![n]);
    assert(a[k] == n);
    let q = dir + seq![0x2Fu8] + m;
    lemma_named_join(dir, m);
    lemma_anchor(dir, m);
    match rest {
        Some(x) => {
            lemma_named_join(q, x);
            lemma_anchor(q, x);
            assert(b =~= paths::path_anchor(dir) + named(dir) + seq![m] + named(x));
        },
        None => {
            assert(b =~= paths::path_anchor(dir) + named(dir) + seq![m]);
        },
    }
    assert(b[k] == m);
    if r {
        assert(b.subrange(0, a.len() as int)[k] == m);
    }
}

/// The folder above does not lie within what it holds.
pub proof fn law_what_is_above_a_folder_lies_outside(
    p: &[u8],
    root: &[u8],
    n: Seq<u8>,
    r: bool,
)
    requires
        call_ensures(is_within, (p, root), r),
        p@.len() > 0,
        names_something(n),
        root@ == p@ + seq![0x2Fu8] + n,
    ensures
        !r,
{
    lemma_named_join(p@, n);
    lemma_anchor(p@, n);
    lemma_named_one(n);
    assert(paths::components(root@) =~= paths::components(p@) + seq![n]);
}

/// Names in the current folder lie beside each other.
pub proof fn law_other_names_lie_outside(
    p: &[u8],
    root: &[u8],
    m: Seq<u8>,
    rest: Option<Seq<u8>>,
    r: bool,
)
    requires
        call_ensures(is_within, (p, root), r),
        names_something(root@),
        names_something(m),
        root@ != m,
        p@ == (match rest {
            Some(x) => m + seq![0x2Fu8] + x,
            None => m,
        }),
    ensures
        !r,
{
    let (a, b) = (paths::components(root@), paths::components(p@));
    lemma_named_one(root@);
    lemma_named_one(m);
    lemma_one_piece(root@);
    lemma_one_piece(m);
    assert(a =~= seq![root@]);
    match rest {
        Some(x) => {
            lemma_named_join(m, x);
            lemma_anchor(m, x);
            assert(b =~= seq![m] + named(x));
        },
        None => {
            assert(b =~= seq![m]);
        },
    }
    if r {
        assert(b.subrange(0, a.len() as int)[0] == m);
    }
}

/// A path from the root does not lie within one from elsewhere that names something, nor the
/// other way round.
pub proof fn law_paths_from_the_root_lie_apart(p: &[u8], root: &[u8], n: Seq<u8>, r: bool)
    requires
        call_ensures(is_within, (p, root), r),
        p@.len() > 0,
        p@[0] == 0x2F && names_something(n) && (root@ == n || exists|x: Seq<u8>|
            root@ == #[trigger] (n + seq![0x2Fu8] + x)) || p@[0] != 0x2F && root@.len() > 0
            && root@[0] == 0x2F,
    ensures
        !r,
{
    let (a, b) = (paths::components(root@), paths::components(p@));
    if p@[0] == 0x2F {
        assert(b[0] == seq![0x2Fu8]);
        lemma_named_one(n);
        lemma_one_piece(n);
        if root@ != n {
            let x = choose|x: Seq<u8>| root@ == #[trigger] (n + seq![0x2Fu8] + x);
            lemma_named_join(n, x);
            lemma_anchor(n, x);
            assert(a =~= seq![n] + named(x));
        } else {
            assert(a =~= seq![n]);
        }
        assert(a[0] == n);
        assert(n != seq![0x2Fu8]) by {
            assert(n[0] != 0x2F);
            assert(seq![0x2Fu8][0] == 0x2F);
        }
        if r {
            assert(b.subrange(0, a.len() as int)[0] == n);
        }
    } else {
        assert(a[0] == seq![0x2Fu8]);
        if r {
            assert(b.subrange(0, a.len() as int)[0] == a[0]);
            assert(b[0] == seq![0x2Fu8]);
            lemma_no_slash_in(p@);
            if paths::path_anchor(p@).len() > 0 {
                assert(b[0] == seq![0x2Eu8]);
                assert(seq![0x2Eu8][0] == 0x2E && seq![0x2Fu8][0] == 0x2F);
            } else {
                assert(b =~= named(p@));
                assert(named(p@).contains(b[0]));
                let f = |x: Seq<u8>| paths::is_component(x);
                paths::pieces(p@).lemma_filter_contains_rev(f, b[0]);
                assert(paths::pieces(p@).contains(b[0]));
                assert(no_slash(b[0]));
                assert(b[0][0] == 0x2F);
            }
        }
    }
}

/// No piece of a path has a `/`.
proof fn lemma_no_slash_in(p: Seq<u8>)
    ensures
        forall|x: Seq<u8>| #[trigger] paths::pieces(p).contains(x) ==> no_slash(x),
        forall|i: int|
            0 <= i < paths::cut_path(p).0.len() ==> no_slash(#[trigger] paths::cut_path(p).0[i]),
        no_slash(paths::cut_path(p).1),
    decreases p.len(),
{
    if p.len() > 0 {
        lemma_no_slash_in(p.drop_last());
    }
    let (done, open) = paths::cut_path(p);
    assert forall|x: Seq<u8>| #[trigger] paths::pieces(p).contains(x) implies no_slash(x) by {
        let i = choose|i: int| 0 <= i < paths::pieces(p).len() && paths::pieces(p)[i] == x;
        if i < done.len() {
            assert(done[i] == x);
        }
    }
}

} // verus!
