//! What the web gateway answers.
//!
//! Each function takes what a request holds, changes the catalog as it asks, and gives the
//! answer. Sending it, and reading files and blobs, is left to the caller.

use crate::catalog;
use crate::catalog::{DbError, Tables};
use crate::db::Db;
use crate::hashes;
use crate::hashes::hash_valid;
use crate::jobs;
use crate::jobs::{JobState, Jobs};
use crate::library;
use crate::library::{AddedFile, Library, Removal};
use crate::numbers;
use crate::numbers::{decimal, decimal_wide};
use crate::paths;
use crate::paths::file_name;
use crate::posters;
use crate::posters::{looks_like_image, name_stays_inside, poster_extension, poster_mime, safe_id};
use crate::records::{Collection, CollectionDetail, CollectionLine, FileRow};
use crate::table;
use crate::text;
use crate::text::same;
use vstd::prelude::*;
use vstd::string::*;

use crate::records::{CollectionRec, FileRec};

verus! {

/// What an answer holds.
pub enum Body {
    /// Plain text.
    Text(String),
    /// An error with its message.
    Error(String),
    Renamed,
    Removed,
    ItemAdded,
    Reordered,
    Files(Vec<FileRow>),
    Info { endpoint_id: String, files: usize, version: String },
    Collections(Vec<CollectionLine>),
    Collection(Collection),
    Detail(CollectionDetail),
    Job(JobState),
    File(AddedFile),
    /// A scan was begun. Where there was something to scan, `collection_id` is the root
    /// that the files go to, or empty.
    ScanStarted { job_id: String, found: usize, collection_id: Option<String> },
    /// The address of a new poster.
    Poster(String),
}

/// An answer.
pub struct Reply {
    pub status: u16,
    pub body: Body,
}

/// The answer is an error with this message.
pub open spec fn is_error(r: Reply, status: u16, msg: Seq<char>) -> bool {
    r.status == status && (r.body matches Body::Error(m) && m@ == msg)
}

/// An error.
fn error(status: u16, msg: String) -> (r: Reply)
    ensures
        is_error(r, status, msg@),
{
    Reply { status, body: Body::Error(msg) }
}

/// What is refused for a fixed reason.
#[derive(Debug, Clone, Copy, PartialEq, Eq, Structural)]
pub enum Refusal {
    FileNotListed,
    CollectionMissing,
    ItemMissing,
    JobUnknown,
    BadHash,
    HashNotListed,
    TargetMissing,
    ChooseChild,
    PosterTooLarge,
    PosterEmpty,
    PosterNotImage,
    BadId,
    NoPosterField,
    UploadTooLarge,
    NoFileField,
}

/// The status of a refusal.
pub open spec fn refusal_status(r: Refusal) -> u16 {
    match r {
        Refusal::FileNotListed => 404,
        Refusal::CollectionMissing => 404,
        Refusal::ItemMissing => 404,
        Refusal::JobUnknown => 404,
        Refusal::BadHash => 400,
        Refusal::HashNotListed => 404,
        Refusal::TargetMissing => 400,
        Refusal::ChooseChild => 400,
        Refusal::PosterTooLarge => 413,
        Refusal::PosterEmpty => 400,
        Refusal::PosterNotImage => 400,
        Refusal::BadId => 400,
        Refusal::NoPosterField => 400,
        Refusal::UploadTooLarge => 413,
        Refusal::NoFileField => 400,
    }
}

/// The message of a refusal.
pub open spec fn refusal_text(r: Refusal) -> Seq<char> {
    match r {
        Refusal::FileNotListed => "archivo no listado"@,
        Refusal::CollectionMissing => "colección no existe"@,
        Refusal::ItemMissing => "item no existe"@,
        Refusal::JobUnknown => "job desconocido"@,
        Refusal::BadHash => "hash inválido"@,
        Refusal::HashNotListed => "hash no listado"@,
        Refusal::TargetMissing => "la colección destino no existe"@,
        Refusal::ChooseChild => "elige una temporada o película dentro de la serie"@,
        Refusal::PosterTooLarge => "portada demasiado grande (tope 10 MB)"@,
        Refusal::PosterEmpty => "portada vacía"@,
        Refusal::PosterNotImage => "la portada debe ser JPG/PNG/WebP"@,
        Refusal::BadId => "id inválido"@,
        Refusal::NoPosterField => "falta el campo `poster` (multipart/form-data)"@,
        Refusal::UploadTooLarge => "archivo demasiado grande (tope 8 GiB)"@,
        Refusal::NoFileField => "falta el campo `file` (multipart/form-data)"@,
    }
}

/// The answer is this refusal.
pub open spec fn is_refusal(r: Reply, why: Refusal) -> bool {
    is_error(r, refusal_status(why), refusal_text(why))
}

impl Refusal {
    /// The answer.
    pub fn reply(self) -> (r: Reply)
        ensures
            is_refusal(r, self),
    {
        let (status, msg): (u16, &'static str) = match self {
            Refusal::FileNotListed => (404, "archivo no listado"),
            Refusal::CollectionMissing => (404, "colección no existe"),
            Refusal::ItemMissing => (404, "item no existe"),
            Refusal::JobUnknown => (404, "job desconocido"),
            Refusal::BadHash => (400, "hash inválido"),
            Refusal::HashNotListed => (404, "hash no listado"),
            Refusal::TargetMissing => (400, "la colección destino no existe"),
            Refusal::ChooseChild => (400, "elige una temporada o película dentro de la serie"),
            Refusal::PosterTooLarge => (413, "portada demasiado grande (tope 10 MB)"),
            Refusal::PosterEmpty => (400, "portada vacía"),
            Refusal::PosterNotImage => (400, "la portada debe ser JPG/PNG/WebP"),
            Refusal::BadId => (400, "id inválido"),
            Refusal::NoPosterField => (400, "falta el campo `poster` (multipart/form-data)"),
            Refusal::UploadTooLarge => (413, "archivo demasiado grande (tope 8 GiB)"),
            Refusal::NoFileField => (400, "falta el campo `file` (multipart/form-data)"),
        };
        error(status, msg.to_owned())
    }
}

// ---------------------------------------------------------------------------
// Files
// ---------------------------------------------------------------------------
/// `GET /api/files`: all files.
pub fn api_files(db: &Db) -> (r: Reply)
    requires
        db.wf(),
    ensures
        r.status == 200,
        r.body matches Body::Files(v) && table::recs(v@) == catalog::file_listing(
            db@.files,
            catalog::any_file(),
        ),
{
    Reply { status: 200, body: Body::Files(db.list_files()) }
}

/// `GET /api/info`: who serves, how many files, and the version.
pub fn api_info(db: &Db, endpoint_id: &str, version: &str) -> (r: Reply)
    requires
        db.wf(),
    ensures
        r.status == 200,
        r.body matches Body::Info { endpoint_id: e, files, version: v } && e@ == endpoint_id@
            && files == db@.files.dom().len() && v@ == version@,
{
    Reply {
        status: 200,
        body: Body::Info {
            endpoint_id: endpoint_id.to_owned(),
            files: db.file_count(),
            version: version.to_owned(),
        },
    }
}

/// `PATCH /api/files`: sets the title shown for a file.
pub fn api_rename_file(db: &mut Db, path: &str, title: &str) -> (r: Reply)
    requires
        old(db).wf(),
    ensures
        final(db).wf(),
        final(db)@ == catalog::retitled(old(db)@, path@, title@),
        final(db).serial() == old(db).serial(),
        final(db).process() == old(db).process(),
        if old(db)@.files.contains_key(path@) {
            r.status == 200 && r.body is Renamed
        } else {
            is_refusal(r, Refusal::FileNotListed)
        },
{
    if db.set_title(path, title) {
        Reply { status: 200, body: Body::Renamed }
    } else {
        Refusal::FileNotListed.reply()
    }
}

/// The answer to `DELETE /api/files/:hash`, and what is to be unpinned and unpublished.
pub struct RemovedFile {
    pub reply: Reply,
    pub removal: Option<Removal>,
}

/// `DELETE /api/files/:hash`: takes the files with a content hash out of the list.
pub fn api_remove_file(library: &Library, db: &mut Db, hash: &str) -> (r: RemovedFile)
    requires
        old(db).wf(),
    ensures
        final(db).wf(),
        final(db).serial() == old(db).serial(),
        final(db).process() == old(db).process(),
        if !hashes::is_hash(hash@) {
            &&& final(db)@ == old(db)@
            &&& is_refusal(r.reply, Refusal::BadHash)
            &&& r.removal is None
        } else {
            &&& final(db)@ == catalog::without_hash(old(db)@, hash@)
            &&& if catalog::hash_listed(old(db)@, hash@) {
                r.reply.status == 200 && r.reply.body is Removed
            } else {
                is_refusal(r.reply, Refusal::HashNotListed)
            }
            &&& r.removal is Some
            &&& exists|rows: Seq<FileRec>|
                #![trigger library::tags_of(rows)]
                {
                    &&& catalog::lists(rows, old(db)@.files, catalog::file_of_hash(hash@))
                    &&& rows.no_duplicates()
                    &&& catalog::text_views(r.removal->0.unpin@) == library::tags_of(rows)
                    &&& catalog::text_views(r.removal->0.unpublish@) == rows.map_values(
                        |f: FileRec| f.path,
                    )
                }
        },
{
    if !hash_valid(hash) {
        return RemovedFile { reply: Refusal::BadHash.reply(), removal: None };
    }
    let removal = library.remove_by_hash(db, hash);
    let reply = if removal.existed {
        Reply { status: 200, body: Body::Removed }
    } else {
        Refusal::HashNotListed.reply()
    };
    RemovedFile { reply, removal: Some(removal) }
}

/// The answer for a file that was added.
pub fn added_reply(added: AddedFile) -> (r: Reply)
    ensures
        r.status == 200,
        r.body == Body::File(added),
{
    Reply { status: 200, body: Body::File(added) }
}

/// The answer for a file that could not be added.
pub fn not_added_reply(message: String) -> (r: Reply)
    ensures
        is_error(r, 400, message@),
{
    error(400, message)
}

// ---------------------------------------------------------------------------
// Collections
// ---------------------------------------------------------------------------
/// `GET /api/collections`: all collections with their counts.
pub fn api_collections(db: &Db) -> (r: Reply)
    requires
        db.wf(),
        catalog::countable(db@),
    ensures
        r.status == 200,
        r.body matches Body::Collections(v) && {
            &&& catalog::is_collection_listing(
                v@.map_values(|l: CollectionLine| l.collection@),
                db@.collections,
                catalog::any_collection(),
            )
            &&& forall|i: int|
                0 <= i < v@.len() ==> {
                    let l = #[trigger] v@[i];
                    &&& l.items == catalog::visible_counts(db@, l.collection@.id).0
                    &&& l.children == catalog::visible_counts(db@, l.collection@.id).1
                }
        },
{
    Reply { status: 200, body: Body::Collections(db.collection_lines()) }
}

/// The answer to making a collection.
pub open spec fn answers_create(r: Reply, outcome: Result<CollectionRec, DbError>) -> bool {
    match outcome {
        Ok(c) => r.status == 201 && (r.body matches Body::Collection(x) && x@ == c),
        Err(e) => is_error(r, 400, catalog::error_text(e)),
    }
}

/// `POST /api/collections`: makes a collection.
pub fn api_create_collection(
    db: &mut Db,
    kind: &str,
    title: &str,
    parent_id: &str,
    now: i64,
) -> (r: Reply)
    requires
        old(db).wf(),
        catalog::create_outcome(
            old(db)@,
            kind@,
            title@,
            parent_id@,
            now,
            old(db).serial(),
            old(db).process(),
        ) is Ok ==> catalog::child_fits(old(db)@, text::trimmed(parent_id@)),
    ensures
        final(db).wf(),
        ({
            let outcome = catalog::create_outcome(
                old(db)@,
                kind@,
                title@,
                parent_id@,
                now,
                old(db).serial(),
                old(db).process(),
            );
            &&& final(db)@ == catalog::created(old(db)@, outcome)
            &&& answers_create(r, outcome)
        }),
        final(db).serial() == catalog::serial_after(old(db).serial(), title@),
        final(db).process() == old(db).process(),
{
    match db.create_collection(kind, title, parent_id, now) {
        Ok(c) => Reply { status: 201, body: Body::Collection(c) },
        Err(e) => error(400, e.message()),
    }
}

/// `POST /api/collections/:id/children`: makes a collection below another.
pub fn api_create_child(db: &mut Db, id: &str, kind: &str, title: &str, now: i64) -> (r: Reply)
    requires
        old(db).wf(),
        catalog::create_outcome(
            old(db)@,
            kind@,
            title@,
            id@,
            now,
            old(db).serial(),
            old(db).process(),
        ) is Ok ==> catalog::child_fits(old(db)@, text::trimmed(id@)),
    ensures
        final(db).wf(),
        ({
            let outcome = catalog::create_outcome(
                old(db)@,
                kind@,
                title@,
                id@,
                now,
                old(db).serial(),
                old(db).process(),
            );
            &&& final(db)@ == catalog::created(old(db)@, outcome)
            &&& answers_create(r, outcome)
        }),
        final(db).serial() == catalog::serial_after(old(db).serial(), title@),
        final(db).process() == old(db).process(),
{
    api_create_collection(db, kind, title, id, now)
}

/// `GET /api/collections/:id`: a collection with its entries.
pub fn api_collection_detail(db: &Db, id: &str) -> (r: Reply)
    requires
        db.wf(),
    ensures
        if db@.collections.contains_key(id@) {
            r.status == 200 && (r.body matches Body::Detail(d) && catalog::is_detail(d, db@, id@))
        } else {
            is_refusal(r, Refusal::CollectionMissing)
        },
{
    match db.collection_detail(id) {
        Some(d) => Reply { status: 200, body: Body::Detail(d) },
        None => Refusal::CollectionMissing.reply(),
    }
}

/// What changing one field of a collection gives: the catalog, and the answer where the
/// change stops there.
pub open spec fn field_changed(
    t: Tables,
    id: Seq<char>,
    title: Option<Seq<char>>,
    poster_url: Option<Seq<char>>,
    kind: Option<Seq<char>>,
) -> (Tables, Option<Result<(), DbError>>) {
    let u = catalog::updated(t, id, title, poster_url, kind);
    if title is None && poster_url is None && kind is None {
        (t, None)
    } else {
        match catalog::update_outcome(t, id, title, poster_url, kind) {
            Ok(known) => if known {
                (u, None)
            } else {
                (u, Some(Ok(())))
            },
            Err(e) => (u, Some(Err(e))),
        }
    }
}

/// What changing the fields of a collection one after the other gives: title, poster
/// address, kind. The first one that is refused stops it; what came before stays.
pub open spec fn fields_changed(
    t: Tables,
    id: Seq<char>,
    title: Option<Seq<char>>,
    poster_url: Option<Seq<char>>,
    kind: Option<Seq<char>>,
) -> (Tables, Option<Result<(), DbError>>) {
    let a = field_changed(t, id, title, None, None);
    if a.1 is Some {
        a
    } else {
        let b = field_changed(a.0, id, None, poster_url, None);
        if b.1 is Some {
            b
        } else {
            field_changed(b.0, id, None, None, kind)
        }
    }
}

/// The answer to changing a collection.
pub open spec fn answers_update(
    r: Reply,
    t: Tables,
    id: Seq<char>,
    stopped: Option<Result<(), DbError>>,
) -> bool {
    match stopped {
        Some(Err(e)) => is_error(r, 400, catalog::error_text(e)),
        Some(Ok(_)) => is_refusal(r, Refusal::CollectionMissing),
        None => if t.collections.contains_key(id) {
            r.status == 200 && (r.body matches Body::Collection(c) && c@ == t.collections[id])
        } else {
            is_refusal(r, Refusal::CollectionMissing)
        },
    }
}

/// Changes one field; the answer where the change stops there.
fn change_field(
    db: &mut Db,
    id: &str,
    title: Option<&str>,
    poster_url: Option<&str>,
    kind: Option<&str>,
) -> (r: Option<Reply>)
    requires
        old(db).wf(),
    ensures
        final(db).wf(),
        final(db).serial() == old(db).serial(),
        final(db).process() == old(db).process(),
        ({
            let f = field_changed(
                old(db)@,
                id@,
                catalog::opt_view(title),
                catalog::opt_view(poster_url),
                catalog::opt_view(kind),
            );
            &&& final(db)@ == f.0
            &&& r is Some <==> f.1 is Some
            &&& r is Some ==> answers_update(r->0, f.0, id@, f.1)
        }),
{
    if title.is_none() && poster_url.is_none() && kind.is_none() {
        return None;
    }
    match db.update_collection(id, title, poster_url, kind) {
        Ok(true) => None,
        Ok(false) => Some(Refusal::CollectionMissing.reply()),
        Err(e) => Some(error(400, e.message())),
    }
}

/// `PATCH /api/collections/:id`: changes the fields that are given, one after the other.
pub fn api_update_collection(
    db: &mut Db,
    id: &str,
    title: Option<&str>,
    poster_url: Option<&str>,
    kind: Option<&str>,
) -> (r: Reply)
    requires
        old(db).wf(),
    ensures
        final(db).wf(),
        final(db).serial() == old(db).serial(),
        final(db).process() == old(db).process(),
        ({
            let f = fields_changed(
                old(db)@,
                id@,
                catalog::opt_view(title),
                catalog::opt_view(poster_url),
                catalog::opt_view(kind),
            );
            &&& final(db)@ == f.0
            &&& answers_update(r, f.0, id@, f.1)
        }),
{
    if let Some(r) = change_field(db, id, title, None, None) {
        return r;
    }
    if let Some(r) = change_field(db, id, None, poster_url, None) {
        return r;
    }
    if let Some(r) = change_field(db, id, None, None, kind) {
        return r;
    }
    match db.get_collection(id) {
        Some(c) => Reply { status: 200, body: Body::Collection(c) },
        None => Refusal::CollectionMissing.reply(),
    }
}

/// `DELETE /api/collections/:id`: takes out a collection, but no file.
pub fn api_delete_collection(db: &mut Db, id: &str) -> (r: Reply)
    requires
        old(db).wf(),
    ensures
        final(db).wf(),
        final(db)@ == catalog::without_collection(old(db)@, id@),
        final(db).serial() == old(db).serial(),
        final(db).process() == old(db).process(),
        if old(db)@.collections.contains_key(id@) {
            r.status == 200 && r.body is Removed
        } else {
            is_refusal(r, Refusal::CollectionMissing)
        },
{
    if db.delete_collection(id) {
        Reply { status: 200, body: Body::Removed }
    } else {
        Refusal::CollectionMissing.reply()
    }
}

/// `POST /api/collections/:id/items`: moves a file into a collection.
pub fn api_add_item(
    db: &mut Db,
    id: &str,
    file_path: &str,
    season: &str,
    label: &str,
    pos: i64,
) -> (r: Reply)
    requires
        old(db).wf(),
        pos <= 0 && catalog::add_outcome(old(db)@, id@, file_path@) is Ok ==> catalog::item_fits(
            old(db)@,
            id@,
        ),
    ensures
        final(db).wf(),
        final(db)@ == catalog::with_item(old(db)@, id@, file_path@, season@, label@, pos),
        final(db).serial() == old(db).serial(),
        final(db).process() == old(db).process(),
        match catalog::add_outcome(old(db)@, id@, file_path@) {
            Ok(_) => r.status == 200 && r.body is ItemAdded,
            Err(e) => is_error(r, 400, catalog::error_text(e)),
        },
{
    match db.add_item(id, file_path, season, label, pos) {
        Ok(_) => Reply { status: 200, body: Body::ItemAdded },
        Err(e) => error(400, e.message()),
    }
}

/// `DELETE /api/collections/:id/items`: takes a file out of a collection.
pub fn api_remove_item(db: &mut Db, id: &str, path: &str) -> (r: Reply)
    requires
        old(db).wf(),
    ensures
        final(db).wf(),
        final(db)@ == catalog::without_item(old(db)@, id@, path@),
        final(db).serial() == old(db).serial(),
        final(db).process() == old(db).process(),
        if old(db)@.items.contains_key((id@, path@)) {
            r.status == 200 && r.body is Removed
        } else {
            is_refusal(r, Refusal::ItemMissing)
        },
{
    if db.remove_item(id, path) {
        Reply { status: 200, body: Body::Removed }
    } else {
        Refusal::ItemMissing.reply()
    }
}

/// The answer to putting something in order.
pub open spec fn answers_reorder(r: Reply, outcome: Result<(), DbError>) -> bool {
    match outcome {
        Ok(_) => r.status == 200 && r.body is Reordered,
        Err(e) => is_error(r, 400, catalog::error_text(e)),
    }
}

/// `PUT /api/collections/:id/items/order`: puts the entries of a collection in order.
pub fn api_reorder_items(db: &mut Db, id: &str, order: &[String]) -> (r: Reply)
    requires
        old(db).wf(),
        order@.len() <= i64::MAX,
    ensures
        final(db).wf(),
        final(db)@ == catalog::items_reordered(old(db)@, id@, catalog::text_views(order@)),
        final(db).serial() == old(db).serial(),
        final(db).process() == old(db).process(),
        answers_reorder(r, catalog::reorder_outcome(old(db)@, id@)),
{
    match db.reorder_items(id, order) {
        Ok(_) => Reply { status: 200, body: Body::Reordered },
        Err(e) => error(400, e.message()),
    }
}

/// `PUT /api/collections/:id/children/order`: puts the collections below a root in order.
pub fn api_reorder_children(db: &mut Db, id: &str, order: &[String]) -> (r: Reply)
    requires
        old(db).wf(),
        order@.len() <= i64::MAX,
    ensures
        final(db).wf(),
        final(db)@ == catalog::children_reordered(old(db)@, id@, catalog::text_views(order@)),
        final(db).serial() == old(db).serial(),
        final(db).process() == old(db).process(),
        answers_reorder(r, catalog::reorder_outcome(old(db)@, id@)),
{
    match db.reorder_children(id, order) {
        Ok(_) => Reply { status: 200, body: Body::Reordered },
        Err(e) => error(400, e.message()),
    }
}

/// `GET /api/library/jobs/:id`: the progress of a scan.
pub fn api_job(jobs: &Jobs, id: &str) -> (r: Reply)
    requires
        jobs.wf(),
    ensures
        r.status == 200 && (r.body matches Body::Job(j) && j@.id == id@ && jobs@.contains(j@)) || (
        is_refusal(r, Refusal::JobUnknown) && !jobs::is_kept(jobs@, id@)),
{
    match jobs.get(id) {
        Some(j) => Reply { status: 200, body: Body::Job(j) },
        None => Refusal::JobUnknown.reply(),
    }
}

// ---------------------------------------------------------------------------
// Scans
// ---------------------------------------------------------------------------
/// Where the files of a scan go: an existing collection, or a new one with a title and
/// maybe a season.
#[derive(Debug)]
pub struct ScanRequest {
    pub collection_title: String,
    pub collection_kind: String,
    pub season: String,
    pub target_collection_id: String,
}

/// The collection that the files of a scan go to, and its root.
#[verifier::ext_equal]
pub struct TargetRec {
    pub id: Seq<char>,
    pub root: Seq<char>,
}

/// What choosing the target of a scan gives.
#[verifier::ext_equal]
pub struct TargetChoice {
    pub tables: Tables,
    pub serial: u64,
    pub target: Result<Option<TargetRec>, Refusal>,
}

/// The kind of the season that a scan makes.
pub open spec fn season_kind(kind: Seq<char>) -> Seq<char> {
    if catalog::collection_kind(kind) == "movie"@ {
        "movie"@
    } else {
        "season"@
    }
}

/// A new collection as the target: the root, or the season below it. Where the root is
/// refused there is no target; where the season is, the root is the target.
pub open spec fn new_target(
    t: Tables,
    req: ScanRequest,
    now_root: i64,
    now_season: i64,
    serial: u64,
    process: u32,
) -> TargetChoice {
    let outcome = catalog::create_outcome(
        t,
        req.collection_kind@,
        req.collection_title@,
        Seq::empty(),
        now_root,
        serial,
        process,
    );
    let made = catalog::created(t, outcome);
    let after = catalog::serial_after(serial, req.collection_title@);
    match outcome {
        Err(_) => TargetChoice { tables: made, serial: after, target: Ok(None) },
        Ok(root) => if text::trimmed(req.season@).len() == 0 {
            TargetChoice {
                tables: made,
                serial: after,
                target: Ok(Some(TargetRec { id: root.id, root: root.id })),
            }
        } else {
            let season = catalog::create_outcome(
                made,
                season_kind(req.collection_kind@),
                req.season@,
                root.id,
                now_season,
                after,
                process,
            );
            TargetChoice {
                tables: catalog::created(made, season),
                serial: catalog::serial_after(after, req.season@),
                target: Ok(
                    Some(
                        TargetRec {
                            id: match season {
                                Ok(kid) => kid.id,
                                Err(_) => root.id,
                            },
                            root: root.id,
                        },
                    ),
                ),
            }
        },
    }
}

/// The target of a scan. One that is named must exist and have no children; otherwise a
/// title makes a new one.
pub open spec fn target_choice(
    t: Tables,
    req: ScanRequest,
    now_root: i64,
    now_season: i64,
    serial: u64,
    process: u32,
) -> TargetChoice {
    let id = text::trimmed(req.target_collection_id@);
    if id.len() > 0 {
        TargetChoice {
            tables: t,
            serial,
            target: if !t.collections.contains_key(id) {
                Err(Refusal::TargetMissing)
            } else if catalog::has_children(t, id) {
                Err(Refusal::ChooseChild)
            } else if t.collections[id].parent_id.len() == 0 {
                Ok(Some(TargetRec { id, root: id }))
            } else {
                Ok(Some(TargetRec { id, root: t.collections[id].parent_id }))
            },
        }
    } else if text::trimmed(req.collection_title@).len() > 0 {
        new_target(t, req, now_root, now_season, serial, process)
    } else {
        TargetChoice { tables: t, serial, target: Ok(None) }
    }
}

/// The collection that the files of a scan go to, and its root.
pub struct ScanTarget {
    pub id: String,
    pub root: String,
}

/// `r` is the target.
pub open spec fn is_target(
    r: Result<Option<ScanTarget>, Refusal>,
    target: Result<Option<TargetRec>, Refusal>,
) -> bool {
    match r {
        Ok(None) => target == Ok::<Option<TargetRec>, Refusal>(None),
        Ok(Some(x)) => target == Ok::<Option<TargetRec>, Refusal>(
            Some(TargetRec { id: x.id@, root: x.root@ }),
        ),
        Err(e) => target == Err::<Option<TargetRec>, Refusal>(e),
    }
}

/// The scan makes a collection of its own.
pub open spec fn makes_collection(req: ScanRequest) -> bool {
    text::trimmed(req.target_collection_id@).len() == 0 && text::trimmed(
        req.collection_title@,
    ).len() > 0
}

/// The collections that the scan makes fit behind the others of their levels.
pub open spec fn target_fits(
    t: Tables,
    req: ScanRequest,
    now_root: i64,
    serial: u64,
    process: u32,
) -> bool {
    makes_collection(req) ==> catalog::child_fits(t, Seq::empty()) && catalog::child_fits(
        t,
        catalog::collection_id(now_root, serial, process),
    )
}

/// Whether the collections that the scan makes fit behind the others of their levels.
pub fn scan_fits(db: &Db, req: &ScanRequest, now_root: i64) -> (r: bool)
    requires
        db.wf(),
    ensures
        r == target_fits(db@, *req, now_root, db.serial(), db.process()),
{
    if !req.target_collection_id.as_str().trim().is_empty()
        || req.collection_title.as_str().trim().is_empty() {
        return true;
    }
    let id = db.next_id(now_root);
    proof {
        reveal_strlit("");
        assert(""@ =~= Seq::<char>::empty());
        assert(text::trimmed(Seq::empty()) =~= Seq::<char>::empty());
        crate::consistency::lemma_ids_are_trimmed(now_root, db.serial(), db.process());
    }
    db.child_fits("") && db.child_fits(id.as_str())
}

/// A new root takes no position below itself.
proof fn lemma_new_root_has_room(t: Tables, root: CollectionRec)
    requires
        root.parent_id.len() == 0,
        root.id.len() > 0,
        !t.collections.contains_key(root.id),
        catalog::child_fits(t, root.id),
    ensures
        catalog::child_fits(
            Tables { collections: t.collections.insert(root.id, root), ..t },
            root.id,
        ),
{
    let made = Tables { collections: t.collections.insert(root.id, root), ..t };
    assert forall|x: int|
        catalog::child_positions(made, root.id).contains(x) <==> catalog::child_positions(
            t,
            root.id,
        ).contains(x) by {
        if catalog::child_positions(made, root.id).contains(x) {
            let c = choose|c: Seq<char>| #[trigger]
                made.collections.contains_key(c) && made.collections[c].parent_id == root.id
                    && made.collections[c].pos == x;
            assert(t.collections.contains_key(c));
        }
        if catalog::child_positions(t, root.id).contains(x) {
            let c = choose|c: Seq<char>| #[trigger]
                t.collections.contains_key(c) && t.collections[c].parent_id == root.id
                    && t.collections[c].pos == x;
            assert(made.collections.contains_key(c));
        }
    }
    assert(catalog::child_positions(made, root.id) =~= catalog::child_positions(t, root.id));
}

/// Chooses the target of a scan.
pub fn scan_target(db: &mut Db, req: &ScanRequest, now_root: i64, now_season: i64) -> (r: Result<
    Option<ScanTarget>,
    Refusal,
>)
    requires
        old(db).wf(),
        target_fits(old(db)@, *req, now_root, old(db).serial(), old(db).process()),
    ensures
        final(db).wf(),
        final(db).process() == old(db).process(),
        ({
            let choice = target_choice(
                old(db)@,
                *req,
                now_root,
                now_season,
                old(db).serial(),
                old(db).process(),
            );
            &&& final(db)@ == choice.tables
            &&& final(db).serial() == choice.serial
            &&& is_target(r, choice.target)
        }),
{
    let id = req.target_collection_id.as_str().trim();
    if !id.is_empty() {
        return match db.get_collection(id) {
            None => Err(Refusal::TargetMissing),
            Some(col) => {
                proof {
                    db.lemma_keys();
                }
                if db.has_children(col.id.as_str()) {
                    Err(Refusal::ChooseChild)
                } else {
                    let root = if col.parent_id.as_str().is_empty() {
                        col.id.clone()
                    } else {
                        col.parent_id
                    };
                    Ok(Some(ScanTarget { id: col.id, root }))
                }
            },
        };
    }
    if req.collection_title.as_str().trim().is_empty() {
        return Ok(None);
    }
    let ghost t = db@;
    proof {
        reveal_strlit("");
        assert(""@ =~= Seq::<char>::empty());
        assert(text::trimmed(Seq::empty()) =~= Seq::<char>::empty());
    }
    let root = match db.create_collection(
        req.collection_kind.as_str(),
        req.collection_title.as_str(),
        "",
        now_root,
    ) {
        Ok(c) => c,
        Err(_) => {
            return Ok(None);
        },
    };
    if req.season.as_str().trim().is_empty() {
        return Ok(Some(ScanTarget { id: root.id.clone(), root: root.id }));
    }
    let kind = if same(Db::normalize_kind(req.collection_kind.as_str()).as_str(), "movie") {
        "movie"
    } else {
        "season"
    };
    proof {
        crate::consistency::lemma_ids_are_trimmed(now_root, old(db).serial(), old(db).process());
        lemma_new_root_has_room(t, root@);
    }
    let target = match db.create_collection(
        kind,
        req.season.as_str(),
        root.id.as_str(),
        now_season,
    ) {
        Ok(kid) => kid.id,
        Err(_) => root.id.clone(),
    };
    Ok(Some(ScanTarget { id: target, root: root.id }))
}

/// A scan that was begun: the answer, the job, and the collection that its files go to.
pub struct ScanStart {
    pub reply: Reply,
    pub job_id: String,
    pub target: Option<String>,
}

/// `POST /api/library/scan-folder`: begins the job of a scan that found `found` files, and
/// chooses where they go.
pub fn api_scan_folder(
    db: &mut Db,
    jobs: &mut Jobs,
    found: usize,
    req: &ScanRequest,
    now_root: i64,
    now_season: i64,
) -> (r: ScanStart)
    requires
        old(db).wf(),
        found > 0 ==> target_fits(
            old(db)@,
            *req,
            now_root,
            old(db).serial(),
            old(db).process(),
        ),
        old(jobs).wf(),
        old(jobs).next() < u64::MAX,
    ensures
        final(db).wf(),
        final(db).process() == old(db).process(),
        final(jobs).wf(),
        final(jobs)@ == jobs::with_job(old(jobs)@, old(jobs).next(), found),
        final(jobs).next() == old(jobs).next() + 1,
        r.job_id@ == numbers::decimal_text(old(jobs).next() as nat),
        found == 0 ==> {
            &&& final(db)@ == old(db)@
            &&& final(db).serial() == old(db).serial()
            &&& r.target is None
            &&& r.reply.status == 202
            &&& r.reply.body matches Body::ScanStarted { job_id, found: n, collection_id }
                && job_id@ == r.job_id@ && n == 0 && collection_id is None
        },
        found > 0 ==> {
            let choice = target_choice(
                old(db)@,
                *req,
                now_root,
                now_season,
                old(db).serial(),
                old(db).process(),
            );
            &&& final(db)@ == choice.tables
            &&& final(db).serial() == choice.serial
            &&& match choice.target {
                Err(e) => is_refusal(r.reply, e) && r.target is None,
                Ok(target) => {
                    &&& r.reply.status == 202
                    &&& r.reply.body matches Body::ScanStarted { job_id, found: n, collection_id }
                        && job_id@ == r.job_id@ && n == found && collection_id is Some
                        && collection_id->0@ == (match target {
                        Some(x) => x.root,
                        None => Seq::empty(),
                    })
                    &&& jobs::opt_text(r.target) == match target {
                        Some(x) => Some(x.id),
                        None => None,
                    }
                },
            }
        },
{
    let job_id = jobs.create(found);
    if found == 0 {
        return ScanStart {
            reply: Reply {
                status: 202,
                body: Body::ScanStarted { job_id: job_id.clone(), found, collection_id: None },
            },
            job_id,
            target: None,
        };
    }
    match scan_target(db, req, now_root, now_season) {
        Err(e) => ScanStart { reply: e.reply(), job_id, target: None },
        Ok(target) => {
            let (id, root) = match target {
                Some(x) => (Some(x.id), x.root),
                None => {
                    let e = String::new();
                    assert(e@ =~= Seq::<char>::empty());
                    (None, e)
                },
            };
            ScanStart {
                reply: Reply {
                    status: 202,
                    body: Body::ScanStarted {
                        job_id: job_id.clone(),
                        found,
                        collection_id: Some(root),
                    },
                },
                job_id,
                target: id,
            }
        },
    }
}

/// Puts the `pos`-th file that a scan added into the target, if there is one. A file that the
/// target does not take stays where it is.
pub fn scan_placed(db: &mut Db, target: Option<&str>, pos: i64, path: &str)
    requires
        old(db).wf(),
        pos > 0,
    ensures
        final(db).wf(),
        final(db).serial() == old(db).serial(),
        final(db).process() == old(db).process(),
        final(db)@ == match target {
            Some(id) => catalog::with_item(
                old(db)@,
                id@,
                path@,
                Seq::empty(),
                Seq::empty(),
                pos,
            ),
            None => old(db)@,
        },
{
    if let Some(id) = target {
        proof {
            reveal_strlit("");
            assert(""@ =~= Seq::<char>::empty());
        }
        let _ = db.add_item(id, path, "", "", pos);
    }
}

/// Notes that a scan added a file.
pub fn scan_added(jobs: &mut Jobs, job_id: &str, path: String)
    requires
        old(jobs).wf(),
        forall|i: int|
            0 <= i < old(jobs)@.len() && (#[trigger] old(jobs)@[i]).id == job_id@ ==> old(
                jobs,
            )@[i].done < usize::MAX,
    ensures
        final(jobs).wf(),
        final(jobs).next() == old(jobs).next(),
        final(jobs)@ == old(jobs)@.map_values(
            |j: jobs::JobRec|
                if j.id == job_id@ {
                    jobs::progressed(j, Some(path@), None)
                } else {
                    j
                },
        ),
{
    jobs.progress(job_id, Some(path), None);
}

/// The note of a file that a scan could not add: its name and the error.
pub open spec fn failure_note(path: Seq<char>, error: Seq<char>) -> Seq<char> {
    (match paths::base_name(path) {
        Some(n) => n,
        None => Seq::empty(),
    }) + ": "@ + error
}

/// Notes that a scan could not add a file.
pub fn scan_failed(jobs: &mut Jobs, job_id: &str, path: &str, error: &str)
    requires
        old(jobs).wf(),
        forall|i: int|
            0 <= i < old(jobs)@.len() && (#[trigger] old(jobs)@[i]).id == job_id@ ==> old(
                jobs,
            )@[i].done < usize::MAX,
    ensures
        final(jobs).wf(),
        final(jobs).next() == old(jobs).next(),
        final(jobs)@ == old(jobs)@.map_values(
            |j: jobs::JobRec|
                if j.id == job_id@ {
                    jobs::progressed(j, None, Some(failure_note(path@, error@)))
                } else {
                    j
                },
        ),
{
    let mut note = match file_name(path) {
        Some(n) => n,
        None => {
            let e = String::new();
            assert(e@ =~= Seq::<char>::empty());
            e
        },
    };
    note.append(": ");
    note.append(error);
    assert(note@ =~= failure_note(path@, error@));
    jobs.progress(job_id, None, Some(note));
}

// ---------------------------------------------------------------------------
// Uploads
// ---------------------------------------------------------------------------
/// The largest upload, in bytes.
pub const MAX_UPLOAD: u64 = 8 * 1024 * 1024 * 1024;

/// How much was received after another piece, unless it is more than `limit`.
pub fn received_after(received: u64, piece: u64, limit: u64) -> (r: Option<u64>)
    requires
        received <= limit,
    ensures
        match r {
            Some(n) => n == received + piece && n <= limit,
            None => received + piece > limit,
        },
{
    if piece > limit - received {
        None
    } else {
        Some(received + piece)
    }
}

/// The name under which an upload is received: the instant, a number, and its own name.
pub open spec fn received_name(now: u128, count: u64, name: Seq<char>) -> Seq<char> {
    numbers::decimal_text(now as nat) + "-"@ + numbers::decimal_text(count as nat) + "-"@
        + library::own_name(name)
}

/// The name under which an upload is received.
pub fn staged_name(now: u128, count: u64, name: &str) -> (r: String)
    ensures
        r@ == received_name(now, count, name@),
{
    let own = match file_name(name) {
        Some(n) => n,
        None => "archivo".to_owned(),
    };
    let mut r = decimal_wide(now);
    r.append("-");
    r.append(decimal(count).as_str());
    r.append("-");
    r.append(own.as_str());
    r
}

// ---------------------------------------------------------------------------
// Posters
// ---------------------------------------------------------------------------
/// Why an uploaded poster is refused; none where it is taken.
pub open spec fn poster_refusal(id: Seq<char>, bytes: Seq<u8>) -> Option<Refusal> {
    if bytes.len() > posters::MAX_POSTER {
        Some(Refusal::PosterTooLarge)
    } else if bytes.len() == 0 {
        Some(Refusal::PosterEmpty)
    } else if !posters::is_image(bytes) {
        Some(Refusal::PosterNotImage)
    } else if posters::id_part(id).len() == 0 {
        Some(Refusal::BadId)
    } else {
        None
    }
}

/// The file name for an uploaded poster, unless it is refused.
pub fn check_poster(id: &str, file_name: &str, bytes: &[u8]) -> (r: Result<String, Refusal>)
    ensures
        match r {
            Ok(name) => poster_refusal(id@, bytes@) is None && name@ == posters::poster_name(
                id@,
                file_name@,
            ),
            Err(e) => poster_refusal(id@, bytes@) == Some(e),
        },
{
    if bytes.len() as u64 > posters::MAX_POSTER {
        return Err(Refusal::PosterTooLarge);
    }
    if bytes.len() == 0 {
        return Err(Refusal::PosterEmpty);
    }
    if !looks_like_image(bytes) {
        return Err(Refusal::PosterNotImage);
    }
    let mut name = safe_id(id);
    if name.as_str().is_empty() {
        return Err(Refusal::BadId);
    }
    name.append(".");
    name.append(poster_extension(file_name));
    Ok(name)
}

/// The catalog after a poster was uploaded: it takes the place of a web address.
pub open spec fn with_uploaded_poster(t: Tables, id: Seq<char>, name: Seq<char>) -> Tables {
    catalog::updated(
        catalog::with_poster(t, id, posters::public_path(name)),
        id,
        None,
        Some(Seq::empty()),
        None,
    )
}

/// `POST /api/collections/:id/poster`: notes the poster that was saved as `name`.
pub fn api_upload_poster(db: &mut Db, id: &str, name: &str) -> (r: Reply)
    requires
        old(db).wf(),
    ensures
        final(db).wf(),
        final(db)@ == with_uploaded_poster(old(db)@, id@, name@),
        final(db).serial() == old(db).serial(),
        final(db).process() == old(db).process(),
        r.status == 200,
        r.body matches Body::Poster(p) && p@ == posters::public_path(name@),
{
    let mut public = "/posters/".to_owned();
    public.append(name);
    let _ = db.set_poster_file(id, public.as_str());
    proof {
        reveal_strlit("");
        assert(""@ =~= Seq::<char>::empty());
    }
    let _ = db.update_collection(id, None, Some(""), None);
    Reply { status: 200, body: Body::Poster(public) }
}

/// An uploaded poster is the poster of its collection, which has no web address any more.
pub proof fn law_an_uploaded_poster_is_shown(t: Tables, id: Seq<char>, name: Seq<char>)
    requires
        t.collections.contains_key(id),
    ensures
        with_uploaded_poster(t, id, name).collections[id].poster_file == posters::public_path(name),
        with_uploaded_poster(t, id, name).collections[id].poster_url.len() == 0,
{
    assert(text::trimmed(Seq::empty()) =~= Seq::<char>::empty());
}

/// The headers of a poster.
pub struct ServedPoster {
    pub content_type: &'static str,
    pub cache_control: &'static str,
}

/// `GET /posters/:file`: the headers of a poster that may be served.
pub fn serve_poster(file: &str) -> (r: Result<ServedPoster, Reply>)
    ensures
        match r {
            Ok(s) => {
                &&& posters::stays_inside(file@)
                &&& posters::poster_type(file@) == Some(s.content_type@)
                &&& s.cache_control@ == "public, max-age=86400"@
            },
            Err(e) => {
                &&& e.status == 400
                &&& e.body matches Body::Text(m) && m@ == (if !posters::stays_inside(file@) {
                    "nombre inválido"@
                } else {
                    "solo portadas"@
                })
                &&& !posters::stays_inside(file@) || posters::poster_type(file@) is None
            },
        },
{
    if !name_stays_inside(file) {
        return Err(Reply { status: 400, body: Body::Text("nombre inválido".to_owned()) });
    }
    match poster_mime(file) {
        Some(m) => Ok(ServedPoster { content_type: m, cache_control: "public, max-age=86400" }),
        None => Err(Reply { status: 400, body: Body::Text("solo portadas".to_owned()) }),
    }
}

} // verus!
