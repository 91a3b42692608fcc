//! The rules of the host's library: which paths may be added, what a new file is listed
//! as, and what is unpinned when one is replaced or removed.

use crate::catalog;
use crate::db::Db;
use crate::mime;
use crate::mime::guess_mime;
use crate::paths;
use crate::paths::{file_name, is_within};
use crate::policy::Policy;
use crate::records::FileRow;
use crate::table;
use crate::text;
use crate::text::{chars_of, clip_trimmed, same, text_of};
use vstd::prelude::*;
use vstd::string::*;

use crate::records::FileRec;

verus! {

// ---------------------------------------------------------------------------
// Names
// ---------------------------------------------------------------------------
/// The characters that a shown name never holds.
pub open spec fn forbidden(c: char) -> bool {
    c == '/' || c == '\\' || c == '\0'
}

/// The safe name of an upload: the base name without forbidden characters and without
/// white space around it, of at most 128 characters; `archivo` where nothing is left.
pub open spec fn safe_name(raw: Seq<char>) -> Seq<char> {
    let base = match paths::base_name(raw) {
        Some(n) => n,
        None => Seq::empty(),
    };
    let clean = text::trimmed(base.filter(|c: char| !forbidden(c)));
    if clean.len() == 0 || clean == "."@ || clean == ".."@ {
        "archivo"@
    } else {
        text::clip(clean, 128)
    }
}

/// The safe name of an upload.
pub fn sanitize_filename(raw: &str) -> (r: String)
    ensures
        r@ == safe_name(raw@),
{
    let base = match file_name(raw) {
        Some(n) => n,
        None => {
            let e = String::new();
            assert(e@ =~= Seq::<char>::empty());
            e
        },
    };
    let v = chars_of(base.as_str());
    let mut kept: Vec<char> = Vec::new();
    let ghost f = |c: char| !forbidden(c);
    assert(base@.take(0).filter(f) =~= Seq::<char>::empty()) by {
        reveal(Seq::filter);
    }
    for i in 0..v.len()
        invariant
            v@ == base@,
            f == |c: char| !forbidden(c),
            kept@ == base@.take(i as int).filter(f),
    {
        let c = v[i];
        proof {
            assert(base@.take(i + 1).drop_last() =~= base@.take(i as int));
            assert(base@.take(i + 1).last() == c);
            reveal(Seq::filter);
        }
        if c != '/' && c != '\\' && c != '\0' {
            kept.push(c);
        }
    }
    assert(base@.take(base@.len() as int) =~= base@);
    let clean = text_of(&kept);
    let t = clean.as_str().trim();
    if t.is_empty() || same(t, ".") || same(t, "..") {
        return "archivo".to_owned();
    }
    clip_trimmed(clean.as_str(), 128)
}

/// A safe name is not empty, not `.` or `..`, at most 128 characters long, and holds
/// no separator.
pub proof fn law_safe_names_are_safe(raw: Seq<char>)
    ensures
        0 < safe_name(raw).len() <= 128,
        safe_name(raw) != "."@,
        safe_name(raw) != ".."@,
        forall|i: int| 0 <= i < safe_name(raw).len() ==> !forbidden(#[trigger] safe_name(raw)[i]),
{
    reveal_strlit("archivo");
    reveal_strlit(".");
    reveal_strlit("..");
    let base = match paths::base_name(raw) {
        Some(n) => n,
        None => Seq::empty(),
    };
    let f = |c: char| !forbidden(c);
    let kept = base.filter(f);
    let clean = text::trimmed(kept);
    let s = safe_name(raw);
    assert("."@.len() == 1 && ".."@.len() == 2 && "archivo"@.len() == 7);
    if !(clean.len() == 0 || clean == "."@ || clean == ".."@) {
        text::lemma_trimmed_part(kept);
        assert forall|i: int| 0 <= i < s.len() implies !forbidden(#[trigger] s[i]) by {
            assert(clean.contains(clean[i]));
            assert(kept.contains(s[i]));
            base.lemma_filter_contains_rev(f, s[i]);
            assert(f(s[i]));
        }
    }
}

/// The name that prefixes what a scan of the folder adds.
pub open spec fn folder_name(dir: Seq<char>) -> Seq<char> {
    match paths::base_name(dir) {
        Some(n) => n,
        None => "carpeta"@,
    }
}

/// The name of a folder, to prefix what a scan of it adds.
pub fn display_base_for(dir: &str) -> (r: String)
    ensures
        r@ == folder_name(dir@),
{
    match file_name(dir) {
        Some(n) => n,
        None => "carpeta".to_owned(),
    }
}

/// The name of a file.
pub open spec fn own_name(abs: Seq<char>) -> Seq<char> {
    match paths::base_name(abs) {
        Some(n) => n,
        None => "archivo"@,
    }
}

/// The name of a file, or `archivo`.
fn file_own_name(abs: &str) -> (r: String)
    ensures
        r@ == own_name(abs@),
{
    match file_name(abs) {
        Some(n) => n,
        None => "archivo".to_owned(),
    }
}

/// The path that a file is listed under: its name, behind the prefix if there is one.
pub open spec fn listed_path(base: Option<Seq<char>>, name: Seq<char>) -> Seq<char> {
    match base {
        Some(b) if b.len() > 0 => b + "/"@ + name,
        _ => name,
    }
}

// ---------------------------------------------------------------------------
// Paths that may be added
// ---------------------------------------------------------------------------
/// Why a path may not be added.
#[derive(Debug, Clone, Copy, PartialEq, Eq, Structural)]
pub enum PathProblem {
    /// The path is blank.
    Blank,
    /// There is nothing at the path.
    Missing,
    /// The path lies outside the folders that are allowed.
    Outside,
    /// The path is not a file.
    NotAFile,
    /// The path is not a folder.
    NotAFolder,
    /// The file is empty.
    EmptyFile,
}

/// The message of a problem with the path `raw`, whose absolute form is `abs`.
pub open spec fn problem_text(p: PathProblem, raw: Seq<char>, abs: Seq<char>) -> Seq<char> {
    match p {
        PathProblem::Blank => "path vacío"@,
        PathProblem::Missing => "no existe la ruta: "@ + text::trimmed(raw),
        PathProblem::Outside => "ruta fuera de las carpetas permitidas: "@ + abs,
        PathProblem::NotAFile => "no es un archivo: "@ + abs,
        PathProblem::NotAFolder => "no es una carpeta: "@ + abs,
        PathProblem::EmptyFile => "el archivo está vacío: "@ + abs,
    }
}

impl PathProblem {
    /// The message for the user, about the path `raw`, whose absolute form is `abs`.
    pub fn message(self, raw: &str, abs: &str) -> (r: String)
        ensures
            r@ == problem_text(self, raw@, abs@),
    {
        let (start, path): (&'static str, &str) = match self {
            PathProblem::Blank => {
                return "path vacío".to_owned();
            },
            PathProblem::Missing => ("no existe la ruta: ", raw.trim()),
            PathProblem::Outside => ("ruta fuera de las carpetas permitidas: ", abs),
            PathProblem::NotAFile => ("no es un archivo: ", abs),
            PathProblem::NotAFolder => ("no es una carpeta: ", abs),
            PathProblem::EmptyFile => ("el archivo está vacío: ", abs),
        };
        let mut r = start.to_owned();
        r.append(path);
        r
    }
}

/// What is at a path: its absolute form, and what it is.
pub struct Resolved {
    pub abs: Vec<u8>,
    pub is_file: bool,
    pub is_dir: bool,
    pub size: u64,
}

/// A path is allowed: there are no allowed folders to keep to, or it lies in one of them.
pub open spec fn allowed(abs: Seq<u8>, roots: Seq<Seq<u8>>) -> bool {
    roots.len() == 0 || exists|i: int|
        0 <= i < roots.len() && paths::lies_within(abs, #[trigger] roots[i])
}

/// Whether a path may be used at all.
pub open spec fn path_problem(
    raw: Seq<char>,
    at: Option<Resolved>,
    roots: Seq<Seq<u8>>,
) -> Option<PathProblem> {
    if text::trimmed(raw).len() == 0 {
        Some(PathProblem::Blank)
    } else if at is None {
        Some(PathProblem::Missing)
    } else if !allowed(at->0.abs@, roots) {
        Some(PathProblem::Outside)
    } else {
        None
    }
}

/// Whether a path may be added as a file, and its size.
pub open spec fn file_outcome(
    raw: Seq<char>,
    at: Option<Resolved>,
    roots: Seq<Seq<u8>>,
    reject_empty: bool,
) -> Result<u64, PathProblem> {
    match path_problem(raw, at, roots) {
        Some(p) => Err(p),
        None => if !at->0.is_file {
            Err(PathProblem::NotAFile)
        } else if reject_empty && at->0.size == 0 {
            Err(PathProblem::EmptyFile)
        } else {
            Ok(at->0.size)
        },
    }
}

/// Whether a path may be scanned as a folder.
pub open spec fn folder_outcome(
    raw: Seq<char>,
    at: Option<Resolved>,
    roots: Seq<Seq<u8>>,
) -> Result<(), PathProblem> {
    match path_problem(raw, at, roots) {
        Some(p) => Err(p),
        None => if !at->0.is_dir {
            Err(PathProblem::NotAFolder)
        } else {
            Ok(())
        },
    }
}

/// A path outside the allowed folders is never added and never scanned.
pub proof fn law_outside_the_roots_nothing_is_added(
    raw: Seq<char>,
    at: Option<Resolved>,
    roots: Seq<Seq<u8>>,
    reject_empty: bool,
)
    requires
        roots.len() > 0,
        at is Some,
        forall|i: int| 0 <= i < roots.len() ==> !paths::lies_within(at->0.abs@, #[trigger] roots[i]),
    ensures
        file_outcome(raw, at, roots, reject_empty) is Err,
        folder_outcome(raw, at, roots) is Err,
{
}

/// Why an upload cannot be imported.
#[derive(Debug, Clone, Copy, PartialEq, Eq, Structural)]
pub enum StagedProblem {
    /// The received file is not there.
    Missing,
    /// The received file is empty.
    Empty,
}

/// The message of a problem with an upload.
pub open spec fn staged_text(p: StagedProblem) -> Seq<char> {
    match p {
        StagedProblem::Missing => "subida incompleta: temporal no encontrado"@,
        StagedProblem::Empty => "el archivo subido está vacío"@,
    }
}

impl StagedProblem {
    /// The message for the user.
    pub fn message(self) -> (r: String)
        ensures
            r@ == staged_text(self),
    {
        let m = match self {
            StagedProblem::Missing => "subida incompleta: temporal no encontrado",
            StagedProblem::Empty => "el archivo subido está vacío",
        };
        m.to_owned()
    }
}

/// The size of a received file that can be imported.
pub fn staged_meta(is_file: bool, size: u64) -> (r: Result<u64, StagedProblem>)
    ensures
        r == if !is_file {
            Err::<u64, StagedProblem>(StagedProblem::Missing)
        } else if size == 0 {
            Err(StagedProblem::Empty)
        } else {
            Ok(size)
        },
{
    if !is_file {
        Err(StagedProblem::Missing)
    } else if size == 0 {
        Err(StagedProblem::Empty)
    } else {
        Ok(size)
    }
}

/// A file that is being received. Unless it is committed, it is to be removed.
#[derive(Debug)]
pub struct TempStagedFile {
    path: String,
    committed: bool,
}

impl TempStagedFile {
    /// Where the file is.
    pub closed spec fn at(self) -> Seq<char> {
        self.path@
    }

    /// Whether the file was taken over.
    pub closed spec fn committed(self) -> bool {
        self.committed
    }

    /// A file at `path` that was not taken over yet.
    pub fn new(path: String) -> (r: Self)
        ensures
            r.at() == path@,
            !r.committed(),
    {
        TempStagedFile { path, committed: false }
    }

    /// Where the file is.
    pub fn path(&self) -> (r: &str)
        ensures
            r@ == self.at(),
    {
        self.path.as_str()
    }

    /// Notes that the file was taken over.
    pub fn commit(&mut self)
        ensures
            final(self).at() == old(self).at(),
            final(self).committed(),
    {
        self.committed = true;
    }

    /// The file to remove when nobody holds it any more.
    pub fn leftover(&self) -> (r: Option<&str>)
        ensures
            match r {
                Some(p) => !self.committed() && p@ == self.at(),
                None => self.committed(),
            },
    {
        if self.committed {
            None
        } else {
            Some(self.path.as_str())
        }
    }
}

// ---------------------------------------------------------------------------
// Adding and removing
// ---------------------------------------------------------------------------
/// A file that was added.
#[derive(Debug)]
pub struct AddedFile {
    pub path: String,
    pub hash: String,
    pub size: u64,
    pub mime: String,
}

/// What came of adding a file: what was added, and the pin that is not needed any more.
#[derive(Debug)]
pub struct Imported {
    pub added: AddedFile,
    pub unpin: Option<String>,
}

/// What came of removing files: whether there were any, the pins to take away, and the
/// paths to take out of the shared document.
#[derive(Debug)]
pub struct Removal {
    pub existed: bool,
    pub unpin: Vec<String>,
    pub unpublish: Vec<String>,
}

/// The row of a file that is added.
pub open spec fn new_row(
    path: Seq<char>,
    size: u64,
    hash: Seq<char>,
    tag: Seq<char>,
    policy: Policy,
    host_id: Seq<char>,
    kind: Seq<char>,
) -> FileRec {
    FileRec {
        path,
        hash,
        size,
        mime: mime::mime_of(path),
        policy,
        host_id,
        tag,
        title: Seq::empty(),
        watched: false,
        kind,
    }
}

/// The pin that a file had before and does not need any more.
pub open spec fn stale_tag(t: catalog::Tables, path: Seq<char>, tag: Seq<char>) -> Option<
    Seq<char>,
> {
    if t.files.contains_key(path) && t.files[path].tag.len() > 0 && t.files[path].tag != tag {
        Some(t.files[path].tag)
    } else {
        None
    }
}

/// `r` reports the row that was added, and the pin that it made stale.
pub open spec fn reports(r: Imported, t: catalog::Tables, row: FileRec) -> bool {
    &&& r.added.path@ == row.path
    &&& r.added.hash@ == row.hash
    &&& r.added.size == row.size
    &&& r.added.mime@ == row.mime
    &&& crate::jobs::opt_text(r.unpin) == stale_tag(t, row.path, row.tag)
}

/// The pin to take away with the file at `path`: none while another file has the same
/// content.
pub open spec fn unpinned_with(t: catalog::Tables, path: Seq<char>) -> Seq<Seq<char>> {
    let row = t.files[path];
    if table::picked(t.files, catalog::file_of_hash(row.hash)).len() <= 1 && row.tag.len() > 0 {
        seq![row.tag]
    } else {
        Seq::empty()
    }
}

/// The pins of some files.
pub open spec fn tags_of(rows: Seq<FileRec>) -> Seq<Seq<char>>
    decreases rows.len(),
{
    if rows.len() == 0 {
        Seq::empty()
    } else {
        let before = tags_of(rows.drop_last());
        if rows.last().tag.len() > 0 {
            before.push(rows.last().tag)
        } else {
            before
        }
    }
}

/// The library of a host.
pub struct Library {
    endpoint_id: String,
    media_roots: Vec<Vec<u8>>,
    staging_dir: String,
}

impl Library {
    /// The id of the host.
    pub closed spec fn host(self) -> Seq<char> {
        self.endpoint_id@
    }

    /// The folders that paths must lie in; none for no restriction.
    pub closed spec fn roots(self) -> Seq<Seq<u8>> {
        paths::byte_views(self.media_roots@)
    }

    /// The folder that uploads are received in.
    pub closed spec fn staging(self) -> Seq<char> {
        self.staging_dir@
    }

    /// A library without allowed folders.
    pub fn new(endpoint_id: String, staging_dir: String) -> (r: Self)
        ensures
            r.host() == endpoint_id@,
            r.roots() == Seq::<Seq<u8>>::empty(),
            r.staging() == staging_dir@,
    {
        let r = Library { endpoint_id, media_roots: Vec::new(), staging_dir };
        assert(r.roots() =~= Seq::<Seq<u8>>::empty());
        r
    }

    /// The library with other allowed folders.
    pub fn with_media_roots(self, roots: Vec<Vec<u8>>) -> (r: Self)
        ensures
            r.host() == self.host(),
            r.roots() == paths::byte_views(roots@),
            r.staging() == self.staging(),
    {
        Library {
            endpoint_id: self.endpoint_id,
            media_roots: roots,
            staging_dir: self.staging_dir,
        }
    }

    /// The library with another folder for uploads.
    pub fn with_staging_dir(self, path: String) -> (r: Self)
        ensures
            r.host() == self.host(),
            r.roots() == self.roots(),
            r.staging() == path@,
    {
        Library { endpoint_id: self.endpoint_id, media_roots: self.media_roots, staging_dir: path }
    }

    /// The id of the host.
    pub fn endpoint_id(&self) -> (r: &str)
        ensures
            r@ == self.host(),
    {
        self.endpoint_id.as_str()
    }

    /// The folder that uploads are received in.
    pub fn staging_dir(&self) -> (r: &str)
        ensures
            r@ == self.staging(),
    {
        self.staging_dir.as_str()
    }

    /// Whether a path is allowed.
    fn allows(&self, abs: &[u8]) -> (r: bool)
        ensures
            r == allowed(abs@, self.roots()),
    {
        if self.media_roots.len() == 0 {
            return true;
        }
        for i in 0..self.media_roots.len()
            invariant
                forall|j: int|
                    0 <= j < i ==> !paths::lies_within(abs@, #[trigger] self.roots()[j]),
        {
            assert(self.roots()[i as int] == self.media_roots@[i as int]@);
            if is_within(abs, self.media_roots[i].as_slice()) {
                return true;
            }
        }
        false
    }

    /// Whether the path `raw`, with `at` there, may be used.
    fn resolve(&self, raw: &str, at: Option<&Resolved>) -> (r: Option<PathProblem>)
        ensures
            r == path_problem(
                raw@,
                match at {
                    Some(x) => Some(*x),
                    None => None,
                },
                self.roots(),
            ),
    {
        if raw.trim().is_empty() {
            return Some(PathProblem::Blank);
        }
        match at {
            None => Some(PathProblem::Missing),
            Some(x) => {
                if self.allows(x.abs.as_slice()) {
                    None
                } else {
                    Some(PathProblem::Outside)
                }
            },
        }
    }

    /// Whether the path `raw`, with `at` there, may be added as a file, and its size.
    pub fn fs_meta(&self, raw: &str, at: Option<&Resolved>, reject_empty: bool) -> (r: Result<
        u64,
        PathProblem,
    >)
        ensures
            r == file_outcome(
                raw@,
                match at {
                    Some(x) => Some(*x),
                    None => None,
                },
                self.roots(),
                reject_empty,
            ),
    {
        if let Some(p) = self.resolve(raw, at) {
            return Err(p);
        }
        match at {
            None => Err(PathProblem::Missing),
            Some(x) => {
                if !x.is_file {
                    Err(PathProblem::NotAFile)
                } else if reject_empty && x.size == 0 {
                    Err(PathProblem::EmptyFile)
                } else {
                    Ok(x.size)
                }
            },
        }
    }

    /// Whether the path `raw`, with `at` there, may be scanned.
    pub fn scan_allowed(&self, raw: &str, at: Option<&Resolved>) -> (r: Result<(), PathProblem>)
        ensures
            r == folder_outcome(
                raw@,
                match at {
                    Some(x) => Some(*x),
                    None => None,
                },
                self.roots(),
            ),
    {
        if let Some(p) = self.resolve(raw, at) {
            return Err(p);
        }
        match at {
            None => Err(PathProblem::Missing),
            Some(x) => {
                if !x.is_dir {
                    Err(PathProblem::NotAFolder)
                } else {
                    Ok(())
                }
            },
        }
    }

    /// Lists a file whose content is pinned under `tag`.
    pub fn import_tagged(
        &self,
        db: &mut Db,
        display: String,
        size: u64,
        hash: String,
        tag: String,
        policy: Policy,
        kind: &str,
    ) -> (r: Imported)
        requires
            old(db).wf(),
            size <= i64::MAX,
        ensures
            final(db).wf(),
            ({
                let row = new_row(display@, size, hash@, tag@, policy, self.host(), kind@);
                &&& final(db)@ == catalog::upserted(old(db)@, row)
                &&& reports(r, old(db)@, row)
            }),
            final(db).serial() == old(db).serial(),
            final(db).process() == old(db).process(),
    {
        let mime = guess_mime(display.as_str());
        let unpin = match db.get_by_path(display.as_str()) {
            Some(prev) => if !prev.tag.as_str().is_empty() && !same(
                prev.tag.as_str(),
                tag.as_str(),
            ) {
                Some(prev.tag)
            } else {
                None
            },
            None => None,
        };
        let title = String::new();
        assert(title@ =~= Seq::<char>::empty());
        let row = FileRow {
            path: display.clone(),
            hash: hash.clone(),
            size,
            mime: mime.clone(),
            policy,
            host_id: self.endpoint_id.clone(),
            tag,
            title,
            watched: false,
            kind: kind.to_owned(),
        };
        db.upsert_file(&row);
        Imported { added: AddedFile { path: display, hash, size, mime }, unpin }
    }

    /// Lists the file at the absolute path `abs` for streaming, with the policy
    /// `stream_only`.
    pub fn add_file(
        &self,
        db: &mut Db,
        abs: &str,
        display_base: Option<&str>,
        size: u64,
        hash: String,
        tag: String,
    ) -> (r: Imported)
        requires
            old(db).wf(),
            size <= i64::MAX,
        ensures
            final(db).wf(),
            ({
                let path = listed_path(catalog::opt_view(display_base), own_name(abs@));
                let row = new_row(
                    path,
                    size,
                    hash@,
                    tag@,
                    Policy::StreamOnly,
                    self.host(),
                    "media"@,
                );
                &&& final(db)@ == catalog::upserted(old(db)@, row)
                &&& reports(r, old(db)@, row)
            }),
            final(db).serial() == old(db).serial(),
            final(db).process() == old(db).process(),
    {
        self.add_file_with_policy(db, abs, display_base, size, hash, tag, Policy::StreamOnly)
    }

    /// Lists the file at the absolute path `abs` for streaming, under its name behind the
    /// prefix `display_base`.
    pub fn add_file_with_policy(
        &self,
        db: &mut Db,
        abs: &str,
        display_base: Option<&str>,
        size: u64,
        hash: String,
        tag: String,
        policy: Policy,
    ) -> (r: Imported)
        requires
            old(db).wf(),
            size <= i64::MAX,
        ensures
            final(db).wf(),
            ({
                let path = listed_path(catalog::opt_view(display_base), own_name(abs@));
                let row = new_row(path, size, hash@, tag@, policy, self.host(), "media"@);
                &&& final(db)@ == catalog::upserted(old(db)@, row)
                &&& reports(r, old(db)@, row)
            }),
            final(db).serial() == old(db).serial(),
            final(db).process() == old(db).process(),
    {
        let name = file_own_name(abs);
        let mut path = String::new();
        match display_base {
            Some(b) => {
                if !b.is_empty() {
                    path.append(b);
                    path.append("/");
                }
            },
            None => {},
        }
        path.append(name.as_str());
        assert(path@ =~= listed_path(catalog::opt_view(display_base), own_name(abs@)));
        self.import_tagged(db, path, size, hash, tag, policy, "media")
    }

    /// Lists the file at the absolute path `abs` for storage, under its safe name; download
    /// is allowed.
    pub fn add_storage_file(&self, db: &mut Db, abs: &str, size: u64, hash: String, tag: String) -> (r:
        Imported)
        requires
            old(db).wf(),
            size <= i64::MAX,
        ensures
            final(db).wf(),
            ({
                let row = new_row(
                    safe_name(own_name(abs@)),
                    size,
                    hash@,
                    tag@,
                    Policy::Mirror,
                    self.host(),
                    "file"@,
                );
                &&& final(db)@ == catalog::upserted(old(db)@, row)
                &&& reports(r, old(db)@, row)
            }),
            final(db).serial() == old(db).serial(),
            final(db).process() == old(db).process(),
    {
        let name = file_own_name(abs);
        let path = sanitize_filename(name.as_str());
        self.import_tagged(db, path, size, hash, tag, Policy::Mirror, "file")
    }

    /// Lists an upload for streaming, under its safe name.
    pub fn add_upload(
        &self,
        db: &mut Db,
        display_name: &str,
        size: u64,
        hash: String,
        tag: String,
    ) -> (r: Imported)
        requires
            old(db).wf(),
            size <= i64::MAX,
        ensures
            final(db).wf(),
            ({
                let row = new_row(
                    safe_name(display_name@),
                    size,
                    hash@,
                    tag@,
                    Policy::StreamOnly,
                    self.host(),
                    "media"@,
                );
                &&& final(db)@ == catalog::upserted(old(db)@, row)
                &&& reports(r, old(db)@, row)
            }),
            final(db).serial() == old(db).serial(),
            final(db).process() == old(db).process(),
    {
        let path = sanitize_filename(display_name);
        self.import_tagged(db, path, size, hash, tag, Policy::StreamOnly, "media")
    }

    /// Lists an upload for storage, under its safe name; download is allowed.
    pub fn add_storage_upload(
        &self,
        db: &mut Db,
        display_name: &str,
        size: u64,
        hash: String,
        tag: String,
    ) -> (r: Imported)
        requires
            old(db).wf(),
            size <= i64::MAX,
        ensures
            final(db).wf(),
            ({
                let row = new_row(
                    safe_name(display_name@),
                    size,
                    hash@,
                    tag@,
                    Policy::Mirror,
                    self.host(),
                    "file"@,
                );
                &&& final(db)@ == catalog::upserted(old(db)@, row)
                &&& reports(r, old(db)@, row)
            }),
            final(db).serial() == old(db).serial(),
            final(db).process() == old(db).process(),
    {
        let path = sanitize_filename(display_name);
        self.import_tagged(db, path, size, hash, tag, Policy::Mirror, "file")
    }

    /// Takes all files with a content hash out of the list, with their pins.
    pub fn remove_by_hash(&self, db: &mut Db, hash: &str) -> (r: Removal)
        requires
            old(db).wf(),
        ensures
            final(db).wf(),
            final(db)@ == catalog::without_hash(old(db)@, hash@),
            r.existed == catalog::hash_listed(old(db)@, hash@),
            exists|rows: Seq<FileRec>|
                #![trigger tags_of(rows)]
                {
                    &&& catalog::lists(rows, old(db)@.files, catalog::file_of_hash(hash@))
                    &&& rows.no_duplicates()
                    &&& catalog::text_views(r.unpin@) == tags_of(rows)
                    &&& catalog::text_views(r.unpublish@) == rows.map_values(|f: FileRec| f.path)
                },
            final(db).serial() == old(db).serial(),
            final(db).process() == old(db).process(),
    {
        let rows = db.get_rows_by_hash(hash);
        let mut unpin: Vec<String> = Vec::new();
        let mut unpublish: Vec<String> = Vec::new();
        let ghost recs = table::recs(rows@);
        assert(recs.take(0) =~= Seq::<FileRec>::empty());
        assert(catalog::text_views(unpin@) =~= Seq::<Seq<char>>::empty());
        for i in 0..rows.len()
            invariant
                recs == table::recs(rows@),
                catalog::text_views(unpin@) == tags_of(recs.take(i as int)),
                unpublish@.len() == i,
                forall|j: int| 0 <= j < i ==> (#[trigger] unpublish@[j])@ == rows@[j]@.path,
        {
            proof {
                assert(recs.take(i + 1).drop_last() =~= recs.take(i as int));
                assert(recs.take(i + 1).last() == rows@[i as int]@);
            }
            if !rows[i].tag.as_str().is_empty() {
                let ghost before = unpin@;
                unpin.push(rows[i].tag.clone());
                assert(catalog::text_views(unpin@) =~= catalog::text_views(before).push(
                    rows@[i as int].tag@,
                ));
            }
            unpublish.push(rows[i].path.clone());
        }
        proof {
            assert(recs.take(recs.len() as int) =~= recs);
            assert(catalog::text_views(unpublish@) =~= recs.map_values(|f: FileRec| f.path));
        }
        let existed = db.delete_by_hash(hash);
        Removal { existed, unpin, unpublish }
    }

    /// Takes the file at a path out of the list, and its pin unless another file has the
    /// same content.
    pub fn remove_by_path(&self, db: &mut Db, path: &str) -> (r: Removal)
        requires
            old(db).wf(),
        ensures
            final(db).wf(),
            r.existed == old(db)@.files.contains_key(path@),
            final(db)@ == if r.existed {
                catalog::without_path(old(db)@, path@)
            } else {
                old(db)@
            },
            catalog::text_views(r.unpin@) == if r.existed {
                unpinned_with(old(db)@, path@)
            } else {
                Seq::empty()
            },
            catalog::text_views(r.unpublish@) == if r.existed {
                seq![path@]
            } else {
                Seq::empty()
            },
            final(db).serial() == old(db).serial(),
            final(db).process() == old(db).process(),
    {
        let mut unpin: Vec<String> = Vec::new();
        let mut unpublish: Vec<String> = Vec::new();
        assert(catalog::text_views(unpin@) =~= Seq::<Seq<char>>::empty());
        assert(catalog::text_views(unpublish@) =~= Seq::<Seq<char>>::empty());
        let row = match db.get_by_path(path) {
            Some(f) => f,
            None => {
                return Removal { existed: false, unpin, unpublish };
            },
        };
        proof {
            db.lemma_keys();
        }
        let sharing = db.get_rows_by_hash(row.hash.as_str());
        let ghost tag = row.tag@;
        if sharing.len() <= 1 && !row.tag.as_str().is_empty() {
            unpin.push(row.tag);
            assert(catalog::text_views(unpin@) =~= seq![tag]);
        }
        unpublish.push(row.path);
        assert(catalog::text_views(unpublish@) =~= seq![path@]);
        let existed = db.delete_by_path(path);
        Removal { existed, unpin, unpublish }
    }
}

/// While another file has the same content, removing a file takes no pin away.
pub proof fn law_shared_content_stays_pinned(t: catalog::Tables, p: Seq<char>, q: Seq<char>)
    requires
        t.files.dom().finite(),
        t.files.contains_key(p),
        t.files.contains_key(q),
        p != q,
        t.files[p].hash == t.files[q].hash,
    ensures
        unpinned_with(t, p) == Seq::<Seq<char>>::empty(),
{
    broadcast use vstd::set::group_set_axioms;

    let s = table::picked(t.files, catalog::file_of_hash(t.files[p].hash));
    assert(s.subset_of(t.files.dom()));
    vstd::set_lib::lemma_len_subset(s, t.files.dom());
    assert(s.contains(p) && s.contains(q));
    let two = Set::<Seq<char>>::empty().insert(p).insert(q);
    assert(two.subset_of(s));
    vstd::set_lib::lemma_len_subset(two, s);
    assert(two.len() == 2);
}

} // verus!
