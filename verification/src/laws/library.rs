//! The library of a host: what may be added, what it is listed as, and what is unpinned.

use crate::catalog;
use crate::catalog::Tables;
use crate::db::Db;
use crate::laws::files::{is_cut, lemma_cut, only_files_change};
use crate::laws::paths::parts_into;
use crate::paths::file_name;
use crate::library;
use crate::library::{
    display_base_for, sanitize_filename, staged_meta, Imported, Library, PathProblem, Removal,
    Resolved, StagedProblem, TempStagedFile,
};
use crate::mime;
use crate::paths;
use crate::policy::Policy;
use crate::records::FileRec;
use crate::table;
use crate::text;
use vstd::prelude::*;
use vstd::string::*;

verus! {

/// `n` is a name, not the folder itself and not the one above.
pub open spec fn is_name(n: Seq<char>) -> bool {
    n != "."@ && n != ".."@
}

/// The name of an upload keeps its characters but for separators and NUL, and is cut behind
/// 128 characters; where nothing is left it is `archivo`.
pub proof fn law_a_safe_name_is_what_is_left(raw: &str, n: Option<String>, r: String)
    requires
        call_ensures(sanitize_filename, (raw,), r),
        call_ensures(file_name, (raw,), n),
    ensures
        n is None ==> r@ == "archivo"@,
        n is Some ==> ({
            let kept = n->0@.filter(|c: char| c != '/' && c != '\\' && c != '\0');
            let t = text::trimmed(kept);
            if t.len() == 0 || !is_name(t) {
                r@ == "archivo"@
            } else {
                is_cut(r@, kept, 128)
            }
        }),
{
    let f = |c: char| c != '/' && c != '\\' && c != '\0';
    let g = |c: char| !library::forbidden(c);
    assert(f =~= g);
    let e = Seq::<char>::empty();
    assert(e.filter(g) =~= e) by {
        reveal(Seq::filter);
    }
    assert(text::trimmed(e) =~= e);
    if n is Some {
        lemma_cut(n->0@.filter(g), 128);
    }
}

/// A name that is safe already stays as it is, without the folders before it.
pub proof fn law_a_safe_name_stays(
    raw: &str,
    dir: Seq<char>,
    n: Seq<char>,
    name: Option<String>,
    r: String,
)
    requires
        call_ensures(sanitize_filename, (raw,), r),
        call_ensures(file_name, (raw,), name),
        parts_into(raw@, dir, n),
        is_name(n),
        n.len() <= 128,
        text::trimmed(n) == n,
        forall|i: int| 0 <= i < n.len() ==> n[i] != '\\' && n[i] != '\0',
    ensures
        r@ == n,
{
    crate::laws::paths::lemma_name_of(raw@, dir, n);
    law_a_safe_name_is_what_is_left(raw, name, r);
    let f = |c: char| c != '/' && c != '\\' && c != '\0';
    assert forall|i: int| 0 <= i < n.len() implies f(n[i]) by {}
    lemma_all_kept(n, f);
}

/// Where every element is picked, nothing is left out.
proof fn lemma_all_kept(s: Seq<char>, f: spec_fn(char) -> bool)
    requires
        forall|i: int| 0 <= i < s.len() ==> f(#[trigger] s[i]),
    ensures
        s.filter(f) == s,
    decreases s.len(),
{
    reveal(Seq::filter);
    if s.len() > 0 {
        let t = s.drop_last();
        assert forall|i: int| 0 <= i < t.len() implies f(#[trigger] t[i]) by {
            assert(t[i] == s[i]);
        }
        lemma_all_kept(t, f);
        assert(f(s[s.len() - 1]));
        assert(t.push(s.last()) =~= s);
    } else {
        assert(s.filter(f) =~= s);
    }
}

/// A safe name has no separator, is not empty and not longer than 128 characters.
pub proof fn law_a_safe_name_is_safe(raw: &str, r: String)
    requires
        call_ensures(sanitize_filename, (raw,), r),
    ensures
        0 < r@.len() <= 128,
        is_name(r@),
        forall|i: int|
            0 <= i < r@.len() ==> #[trigger] r@[i] != '/' && r@[i] != '\\' && r@[i] != '\0',
{
    library::law_safe_names_are_safe(raw@);
    assert forall|i: int| 0 <= i < r@.len() implies #[trigger] r@[i] != '/' && r@[i] != '\\'
        && r@[i] != '\0' by {
        assert(!library::forbidden(library::safe_name(raw@)[i]));
    }
}

/// What a scan of a folder adds stands behind the name of the folder.
pub proof fn law_a_folder_lends_its_name(raw: &str, n: Option<String>, r: String)
    requires
        call_ensures(display_base_for, (raw,), r),
        call_ensures(file_name, (raw,), n),
    ensures
        r@ == (match n {
            Some(x) => x@,
            None => "carpeta"@,
        }),
{
}

/// `u` is `t` with a new row for the file, and `r` reports it. The file keeps title and
/// watched mark, if it was listed. The pin that it had is to be taken away, if it is another.
pub open spec fn lists_new(
    t: Tables,
    u: Tables,
    r: Imported,
    path: Seq<char>,
    size: u64,
    hash: Seq<char>,
    tag: Seq<char>,
    policy: Policy,
    host: Seq<char>,
    kind: Seq<char>,
) -> bool {
    let f = u.files[path];
    let known = t.files.contains_key(path);
    &&& u.files == t.files.insert(path, f)
    &&& only_files_change(t, u)
    &&& f.path == path
    &&& f.size == size
    &&& f.hash == hash
    &&& f.tag == tag
    &&& f.policy == policy
    &&& f.host_id == host
    &&& f.kind == kind
    &&& known ==> f.title == t.files[path].title && f.watched == t.files[path].watched
    &&& !known ==> f.title.len() == 0 && !f.watched
    &&& r.added.path@ == path
    &&& r.added.size == size
    &&& r.added.hash@ == hash
    &&& r.added.mime@ == f.mime
    &&& f.mime == mime::mime_of(path)
    &&& r.unpin is Some <==> known && t.files[path].tag.len() > 0 && t.files[path].tag != tag
    &&& r.unpin is Some ==> r.unpin->0@ == t.files[path].tag
}

proof fn lemma_kinds()
    ensures
        catalog::file_kind("media"@) == "media"@,
        catalog::file_kind("file"@) == "file"@,
{
    reveal_strlit("media");
    reveal_strlit("file");
    reveal_strlit("storage");
    reveal_strlit("almacenamiento");
    reveal_strlit("archivo");
    assert("media"@.len() == 5 && "file"@.len() == 4 && "storage"@.len() == 7);
    assert("almacenamiento"@.len() == 14 && "archivo"@.len() == 7);
    lemma_plain("media"@);
    lemma_plain("file"@);
}

/// A lower-case ASCII text is the same without white space around it and in lower case.
pub proof fn lemma_plain(s: Seq<char>)
    requires
        s.len() > 0,
        forall|i: int| 0 <= i < s.len() ==> 'a' <= #[trigger] s[i] <= 'z',
    ensures
        text::trimmed(s) == s,
        text::lower(s) == s,
{
    assert('a' <= s[0] <= 'z');
    assert('a' <= s[s.len() - 1] <= 'z');
    text::lemma_lower_plain(s);
}

/// A file that is added for streaming is listed under its name, behind the prefix if there is
/// one, with its size, content and pin, and is only streamed.
pub proof fn law_a_file_is_added_for_streaming(
    lib: &Library,
    db: &mut Db,
    abs: &str,
    base: Option<&str>,
    size: u64,
    hash: String,
    tag: String,
    r: Imported,
    name: Option<String>,
)
    requires
        call_ensures(Library::add_file, (lib, db, abs, base, size, hash, tag), r),
        call_ensures(file_name, (abs,), name),
        old(db).wf(),
    ensures
        ({
            let n = match name {
                Some(x) => x@,
                None => "archivo"@,
            };
            let path = match base {
                Some(b) if b@.len() > 0 => b@ + "/"@ + n,
                _ => n,
            };
            lists_new(
                old(db)@,
                final(db)@,
                r,
                path,
                size,
                hash@,
                tag@,
                Policy::StreamOnly,
                lib.host(),
                "media"@,
            )
        }),
{
    lemma_kinds();
}

/// A file that is added with a policy is listed with that policy.
pub proof fn law_a_file_is_added_with_its_policy(
    lib: &Library,
    db: &mut Db,
    abs: &str,
    base: Option<&str>,
    size: u64,
    hash: String,
    tag: String,
    policy: Policy,
    r: Imported,
    name: Option<String>,
)
    requires
        call_ensures(
            Library::add_file_with_policy,
            (lib, db, abs, base, size, hash, tag, policy),
            r,
        ),
        call_ensures(file_name, (abs,), name),
        old(db).wf(),
    ensures
        ({
            let n = match name {
                Some(x) => x@,
                None => "archivo"@,
            };
            let path = match base {
                Some(b) if b@.len() > 0 => b@ + "/"@ + n,
                _ => n,
            };
            lists_new(
                old(db)@,
                final(db)@,
                r,
                path,
                size,
                hash@,
                tag@,
                policy,
                lib.host(),
                "media"@,
            )
        }),
{
    lemma_kinds();
}

/// A content that is pinned is listed as it is told.
pub proof fn law_a_pinned_content_is_listed(
    lib: &Library,
    db: &mut Db,
    display: String,
    size: u64,
    hash: String,
    tag: String,
    policy: Policy,
    kind: &str,
    r: Imported,
)
    requires
        call_ensures(
            Library::import_tagged,
            (lib, db, display, size, hash, tag, policy, kind),
            r,
        ),
        old(db).wf(),
        kind@ == "media"@ || kind@ == "file"@,
    ensures
        lists_new(
            old(db)@,
            final(db)@,
            r,
            display@,
            size,
            hash@,
            tag@,
            policy,
            lib.host(),
            kind@,
        ),
{
    lemma_kinds();
}

/// A file that is added for storage is listed under its safe name and may be downloaded.
pub proof fn law_a_file_is_added_for_storage(
    lib: &Library,
    db: &mut Db,
    abs: &str,
    size: u64,
    hash: String,
    tag: String,
    r: Imported,
    own: Option<String>,
    name: &str,
    safe: String,
)
    requires
        call_ensures(Library::add_storage_file, (lib, db, abs, size, hash, tag), r),
        call_ensures(file_name, (abs,), own),
        call_ensures(sanitize_filename, (name,), safe),
        old(db).wf(),
        name@ == (match own {
            Some(x) => x@,
            None => "archivo"@,
        }),
    ensures
        lists_new(
            old(db)@,
            final(db)@,
            r,
            safe@,
            size,
            hash@,
            tag@,
            Policy::Mirror,
            lib.host(),
            "file"@,
        ),
{
    lemma_kinds();
}

/// An upload is listed under its safe name: for streaming it is only streamed, for storage it
/// may be downloaded.
pub proof fn law_an_upload_is_listed(
    lib: &Library,
    db: &mut Db,
    stored: &mut Db,
    name: &str,
    size: u64,
    hash: String,
    tag: String,
    r: Imported,
    s: Imported,
    safe: String,
)
    requires
        call_ensures(Library::add_upload, (lib, db, name, size, hash, tag), r),
        call_ensures(Library::add_storage_upload, (lib, stored, name, size, hash, tag), s),
        call_ensures(sanitize_filename, (name,), safe),
        old(db).wf(),
        old(stored).wf(),
    ensures
        lists_new(
            old(db)@,
            final(db)@,
            r,
            safe@,
            size,
            hash@,
            tag@,
            Policy::StreamOnly,
            lib.host(),
            "media"@,
        ),
        lists_new(
            old(stored)@,
            final(stored)@,
            s,
            safe@,
            size,
            hash@,
            tag@,
            Policy::Mirror,
            lib.host(),
            "file"@,
        ),
{
    lemma_kinds();
}

/// A library is made with its id and its folder for uploads, and gives them back. Another
/// folder, or other allowed ones, change nothing else.
pub proof fn law_a_library_is_as_it_was_made(
    id: String,
    dir: String,
    roots: Vec<Vec<u8>>,
    other: String,
    a: Library,
    b: Library,
    c: Library,
)
    requires
        call_ensures(Library::new, (id, dir), a),
        call_ensures(Library::with_media_roots, (a, roots), b),
        call_ensures(Library::with_staging_dir, (b, other), c),
    ensures
        forall|s: &str| #[trigger] call_ensures(Library::endpoint_id, (&a,), s) ==> s@ == id@,
        forall|s: &str| #[trigger] call_ensures(Library::endpoint_id, (&b,), s) ==> s@ == id@,
        forall|s: &str| #[trigger] call_ensures(Library::endpoint_id, (&c,), s) ==> s@ == id@,
        forall|s: &str| #[trigger] call_ensures(Library::staging_dir, (&a,), s) ==> s@ == dir@,
        forall|s: &str| #[trigger] call_ensures(Library::staging_dir, (&b,), s) ==> s@ == dir@,
        forall|s: &str| #[trigger] call_ensures(Library::staging_dir, (&c,), s) ==> s@ == other@,
        a.host() == id@ && b.host() == id@ && c.host() == id@,
        a.roots().len() == 0,
        b.roots().len() == roots@.len() && c.roots() == b.roots(),
        forall|i: int| 0 <= i < roots@.len() ==> b.roots()[i] == (#[trigger] roots@[i])@,
{
}

/// The path may be used: there are no folders to keep to, or it lies within one of them.
pub open spec fn may_be_used(abs: Seq<u8>, roots: Seq<Seq<u8>>) -> bool {
    roots.len() == 0 || exists|i: int|
        0 <= i < roots.len() && paths::lies_within(abs, #[trigger] roots[i])
}

/// A path is added as a file exactly where it is not blank, something is there that may be
/// used, it is a file and, where that is asked for, not empty. Its size is told. Otherwise the
/// first of these that fails is told.
pub proof fn law_which_paths_are_added(
    lib: &Library,
    raw: &str,
    at: Option<&Resolved>,
    reject_empty: bool,
    r: Result<u64, PathProblem>,
)
    requires
        call_ensures(Library::fs_meta, (lib, raw, at, reject_empty), r),
    ensures
        ({
            let blank = text::trimmed(raw@).len() == 0;
            let missing = at is None;
            let outside = !may_be_used(at->0.abs@, lib.roots());
            let no_file = !at->0.is_file;
            let empty = reject_empty && at->0.size == 0;
            &&& blank ==> r == Err::<u64, PathProblem>(PathProblem::Blank)
            &&& !blank && missing ==> r == Err::<u64, PathProblem>(PathProblem::Missing)
            &&& !blank && !missing && outside ==> r == Err::<u64, PathProblem>(PathProblem::Outside)
            &&& !blank && !missing && !outside && no_file ==> r == Err::<u64, PathProblem>(
                PathProblem::NotAFile,
            )
            &&& !blank && !missing && !outside && !no_file && empty ==> r == Err::<
                u64,
                PathProblem,
            >(PathProblem::EmptyFile)
            &&& !blank && !missing && !outside && !no_file && !empty ==> r == Ok::<
                u64,
                PathProblem,
            >(at->0.size)
        }),
{
}

/// A path is scanned exactly where it is not blank, something is there that may be used, and it
/// is a folder.
pub proof fn law_which_paths_are_scanned(
    lib: &Library,
    raw: &str,
    at: Option<&Resolved>,
    r: Result<(), PathProblem>,
)
    requires
        call_ensures(Library::scan_allowed, (lib, raw, at), r),
    ensures
        ({
            let blank = text::trimmed(raw@).len() == 0;
            let missing = at is None;
            let outside = !may_be_used(at->0.abs@, lib.roots());
            let no_folder = !at->0.is_dir;
            &&& blank ==> r == Err::<(), PathProblem>(PathProblem::Blank)
            &&& !blank && missing ==> r == Err::<(), PathProblem>(PathProblem::Missing)
            &&& !blank && !missing && outside ==> r == Err::<(), PathProblem>(PathProblem::Outside)
            &&& !blank && !missing && !outside && no_folder ==> r == Err::<(), PathProblem>(
                PathProblem::NotAFolder,
            )
            &&& !blank && !missing && !outside && !no_folder ==> r is Ok
        }),
{
}

/// A received file is imported where it is there and not empty, with its size.
pub proof fn law_which_uploads_are_imported(
    is_file: bool,
    size: u64,
    r: Result<u64, StagedProblem>,
)
    requires
        call_ensures(staged_meta, (is_file, size), r),
    ensures
        r is Ok <==> is_file && size > 0,
        r is Ok ==> r->Ok_0 == size,
        r is Err ==> r->Err_0 == (if is_file {
            StagedProblem::Empty
        } else {
            StagedProblem::Missing
        }),
{
}

/// A file that is being received is left over until it is taken over.
pub proof fn law_what_is_not_taken_over_is_left_over(
    path: String,
    f: TempStagedFile,
    g: &mut TempStagedFile,
)
    requires
        call_ensures(TempStagedFile::new, (path,), f),
        call_ensures(TempStagedFile::commit, (g,), ()),
        old(g).at() == f.at(),
    ensures
        forall|s: &str| #[trigger] call_ensures(TempStagedFile::path, (&f,), s) ==> s@ == path@,
        forall|s: Option<&str>| #[trigger]
            call_ensures(TempStagedFile::leftover, (&f,), s) ==> s is Some && s->0@ == path@,
        forall|s: &str| #[trigger]
            call_ensures(TempStagedFile::path, (final(g),), s) ==> s@ == path@,
        forall|s: Option<&str>| #[trigger]
            call_ensures(TempStagedFile::leftover, (final(g),), s) ==> s is None,
{
}

/// Some file with the content is at the path.
pub open spec fn has_content(t: Tables, p: Seq<char>, hash: Seq<char>) -> bool {
    t.files.contains_key(p) && t.files[p].hash == hash
}

/// Some file with the content has the pin.
pub open spec fn is_pin_of(t: Tables, hash: Seq<char>, tag: Seq<char>) -> bool {
    tag.len() > 0 && exists|p: Seq<char>| #[trigger]
        has_content(t, p, hash) && t.files[p].tag == tag
}

proof fn lemma_tags(rows: Seq<FileRec>, tag: Seq<char>)
    ensures
        library::tags_of(rows).contains(tag) <==> tag.len() > 0 && exists|i: int|
            0 <= i < rows.len() && (#[trigger] rows[i]).tag == tag,
    decreases rows.len(),
{
    let s = library::tags_of(rows);
    if rows.len() == 0 {
        assert(!s.contains(tag));
    } else {
        let before = rows.drop_last();
        let b = library::tags_of(before);
        lemma_tags(before, tag);
        if tag.len() > 0 && exists|i: int| 0 <= i < rows.len() && (#[trigger] rows[i]).tag == tag {
            let i = choose|i: int| 0 <= i < rows.len() && (#[trigger] rows[i]).tag == tag;
            if i < before.len() {
                assert(before[i].tag == tag);
                assert(b.contains(tag));
                let j = choose|j: int| 0 <= j < b.len() && b[j] == tag;
                assert(s[j] == tag);
            } else {
                assert(s.last() == tag);
                assert(s[s.len() - 1] == tag);
            }
        }
        if s.contains(tag) {
            let j = choose|j: int| 0 <= j < s.len() && s[j] == tag;
            if j < b.len() {
                assert(b[j] == tag);
                assert(b.contains(tag));
                let i = choose|i: int| 0 <= i < before.len() && (#[trigger] before[i]).tag == tag;
                assert(rows[i].tag == tag);
            } else {
                assert(rows[rows.len() - 1].tag == tag);
            }
        }
    }
}

/// Files that are removed by their content are gone; each of them is unpublished, and each pin
/// that one of them had is taken away. Nothing else is unpublished or unpinned.
pub proof fn law_removed_content_is_unpinned(lib: &Library, db: &mut Db, hash: &str, r: Removal)
    requires
        call_ensures(Library::remove_by_hash, (lib, db, hash), r),
        old(db).wf(),
    ensures
        r.existed <==> exists|p: Seq<char>| #[trigger] has_content(old(db)@, p, hash@),
        forall|p: Seq<char>| #[trigger]
            final(db)@.files.contains_key(p) <==> old(db)@.files.contains_key(p) && !has_content(
                old(db)@,
                p,
                hash@,
            ),
        forall|p: Seq<char>| #[trigger]
            has_content(old(db)@, p, hash@) <==> exists|i: int|
                0 <= i < r.unpublish@.len() && (#[trigger] r.unpublish@[i])@ == p,
        forall|i: int, j: int|
            0 <= i < j < r.unpublish@.len() ==> (#[trigger] r.unpublish@[i])@ != (
            #[trigger] r.unpublish@[j])@,
        forall|p: Seq<char>| #[trigger]
            has_content(old(db)@, p, hash@) && old(db)@.files[p].tag.len() > 0 ==> exists|i: int|
                0 <= i < r.unpin@.len() && (#[trigger] r.unpin@[i])@ == old(db)@.files[p].tag,
        forall|i: int|
            0 <= i < r.unpin@.len() ==> is_pin_of(old(db)@, hash@, (#[trigger] r.unpin@[i])@),
{
    old(db).lemma_keys();
    let t = old(db)@;
    if catalog::hash_listed(t, hash@) {
        let p = choose|p: Seq<char>| #[trigger] t.files.contains_key(p) && t.files[p].hash == hash@;
        assert(has_content(t, p, hash@));
    }
    lemma_unpinned(t, hash@, r.unpin@, r.unpublish@);
}

/// The pins and paths of the files with a content are those that they have.
pub proof fn lemma_unpinned(t: Tables, hash: Seq<char>, unpin: Seq<String>, unpublish: Seq<String>)
    requires
        crate::consistency::well_keyed(t),
        exists|rows: Seq<FileRec>|
            #![trigger library::tags_of(rows)]
            {
                &&& catalog::lists(rows, t.files, catalog::file_of_hash(hash))
                &&& rows.no_duplicates()
                &&& catalog::text_views(unpin) == library::tags_of(rows)
                &&& catalog::text_views(unpublish) == rows.map_values(|f: FileRec| f.path)
            },
    ensures
        forall|p: Seq<char>| #[trigger]
            has_content(t, p, hash) <==> exists|i: int|
                0 <= i < unpublish.len() && (#[trigger] unpublish[i])@ == p,
        forall|i: int, j: int|
            0 <= i < j < unpublish.len() ==> (#[trigger] unpublish[i])@ != (
            #[trigger] unpublish[j])@,
        forall|p: Seq<char>| #[trigger]
            has_content(t, p, hash) && t.files[p].tag.len() > 0 ==> exists|i: int|
                0 <= i < unpin.len() && (#[trigger] unpin[i])@ == t.files[p].tag,
        forall|i: int| 0 <= i < unpin.len() ==> is_pin_of(t, hash, (#[trigger] unpin[i])@),
{
    let rows = choose|rows: Seq<FileRec>|
        #![trigger library::tags_of(rows)]
        {
            &&& catalog::lists(rows, t.files, catalog::file_of_hash(hash))
            &&& rows.no_duplicates()
            &&& catalog::text_views(unpin) == library::tags_of(rows)
            &&& catalog::text_views(unpublish) == rows.map_values(|f: FileRec| f.path)
        };
    let (a, b) = (catalog::text_views(unpin), catalog::text_views(unpublish));
    assert(a.len() == unpin.len() && b.len() == unpublish.len());
    assert(b.len() == rows.len());
    assert forall|i: int| 0 <= i < rows.len() implies has_content(
        t,
        (#[trigger] rows[i]).path,
        hash,
    ) && t.files[rows[i].path] == rows[i] && unpublish[i]@ == rows[i].path by {
        assert(catalog::file_of_hash(hash)(rows[i]));
        let k = choose|k: Seq<char>| #[trigger] t.files.contains_key(k) && t.files[k] == rows[i];
        assert(b[i] == unpublish[i]@);
    }
    assert forall|p: Seq<char>| #[trigger] has_content(t, p, hash) implies exists|i: int|
        0 <= i < rows.len() && (#[trigger] rows[i]) == t.files[p] by {
        assert(catalog::file_of_hash(hash)(t.files[p]));
        assert(rows.contains(t.files[p]));
    }
    assert forall|p: Seq<char>| #[trigger] has_content(t, p, hash) implies exists|i: int|
        0 <= i < unpublish.len() && (#[trigger] unpublish[i])@ == p by {
        let i = choose|i: int| 0 <= i < rows.len() && (#[trigger] rows[i]) == t.files[p];
        assert(unpublish[i]@ == p);
    }
    assert forall|i: int| 0 <= i < unpublish.len() implies has_content(
        t,
        (#[trigger] unpublish[i])@,
        hash,
    ) by {
        assert(rows[i].path == rows[i].path);
    }
    assert forall|i: int, j: int| 0 <= i < j < unpublish.len() implies (
    #[trigger] unpublish[i])@ != (#[trigger] unpublish[j])@ by {
        assert(rows[i] != rows[j]);
        assert(t.files[rows[i].path] == rows[i] && t.files[rows[j].path] == rows[j]);
    }
    assert forall|p: Seq<char>| #[trigger]
        has_content(t, p, hash) && t.files[p].tag.len() > 0 implies exists|i: int|
        0 <= i < unpin.len() && (#[trigger] unpin[i])@ == t.files[p].tag by {
        let tag = t.files[p].tag;
        let i = choose|i: int| 0 <= i < rows.len() && (#[trigger] rows[i]) == t.files[p];
        lemma_tags(rows, tag);
        assert(rows[i].tag == tag);
        let j = choose|j: int| 0 <= j < a.len() && a[j] == tag;
        assert(unpin[j]@ == tag);
    }
    assert forall|i: int| 0 <= i < unpin.len() implies is_pin_of(
        t,
        hash,
        (#[trigger] unpin[i])@,
    ) by {
        let tag = unpin[i]@;
        assert(a[i] == tag);
        assert(a.contains(tag));
        lemma_tags(rows, tag);
        let j = choose|j: int| 0 <= j < rows.len() && (#[trigger] rows[j]).tag == tag;
        assert(has_content(t, rows[j].path, hash));
    }
}

/// A file that is removed by its path is gone and unpublished. Its pin is taken away, unless
/// another file has the same content.
pub proof fn law_a_removed_file_is_unpinned(lib: &Library, db: &mut Db, path: &str, r: Removal)
    requires
        call_ensures(Library::remove_by_path, (lib, db, path), r),
        old(db).wf(),
    ensures
        ({
            let t = old(db)@;
            let shared = exists|q: Seq<char>|
                q != path@ && #[trigger] has_content(t, q, t.files[path@].hash);
            &&& r.existed == t.files.contains_key(path@)
            &&& final(db)@.files == t.files.remove(path@)
            &&& !r.existed ==> final(db)@ == t && r.unpin@.len() == 0 && r.unpublish@.len() == 0
            &&& r.existed ==> r.unpublish@.len() == 1 && r.unpublish@[0]@ == path@
            &&& r.existed && (shared || t.files[path@].tag.len() == 0) ==> r.unpin@.len() == 0
            &&& r.existed && !shared && t.files[path@].tag.len() > 0 ==> r.unpin@.len() == 1
                && r.unpin@[0]@ == t.files[path@].tag
        }),
{
    broadcast use vstd::set::group_set_axioms;

    old(db).lemma_keys();
    let t = old(db)@;
    let (a, b) = (catalog::text_views(r.unpin@), catalog::text_views(r.unpublish@));
    assert(a.len() == r.unpin@.len() && b.len() == r.unpublish@.len());
    if r.existed {
        assert(b[0] == r.unpublish@[0]@);
        let hash = t.files[path@].hash;
        if exists|q: Seq<char>| q != path@ && #[trigger] has_content(t, q, hash) {
            let q = choose|q: Seq<char>| q != path@ && #[trigger] has_content(t, q, hash);
            library::law_shared_content_stays_pinned(t, path@, q);
        } else {
            let s = table::picked(t.files, catalog::file_of_hash(hash));
            assert forall|q: Seq<char>| s.contains(q) implies q == path@ by {
                assert(has_content(t, q, hash));
            }
            assert(s.subset_of(Set::<Seq<char>>::empty().insert(path@)));
            vstd::set_lib::lemma_len_subset(s, Set::<Seq<char>>::empty().insert(path@));
            if t.files[path@].tag.len() > 0 {
                assert(a[0] == r.unpin@[0]@);
            }
        }
    } else {
        assert(t.files.remove(path@) =~= t.files);
    }
}

} // verus!
