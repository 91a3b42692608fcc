//! The gateway: each request does what the catalog does, and is answered accordingly.

use crate::catalog;
use crate::catalog::{DbError, Tables};
use crate::consistency;
use crate::db::Db;
use crate::gateway::{
    added_reply, api_add_item, api_collection_detail, api_collections, api_create_child,
    api_create_collection, api_delete_collection, api_files, api_info, api_job, api_remove_file,
    api_remove_item, api_rename_file, api_reorder_children, api_reorder_items, api_scan_folder,
    api_update_collection, api_upload_poster, check_poster, not_added_reply, received_after,
    scan_added, scan_failed, scan_fits, scan_placed, scan_target, serve_poster, staged_name, Body,
    Refusal, RemovedFile, Reply, ScanRequest, ScanStart, ScanTarget, ServedPoster,
};
use crate::hashes::hash_valid;
use crate::jobs::{JobState, Jobs};
use crate::laws::collections::{means_film, room_below};
use crate::laws::jobs::counts_one_more;
use crate::laws::library::{has_content, is_pin_of};
use crate::laws::listings::{
    children_of, collection_shows, collections_show, detail_shows, entries_shown, files_show,
};
use crate::library::{AddedFile, Library, Removal};
use crate::numbers;
use crate::paths::file_name;
use crate::posters;
use crate::records::Collection;
use crate::text;
use vstd::prelude::*;
use vstd::string::*;

verus! {

/// The answer is an error with this status and message.
pub open spec fn says(r: Reply, status: int, msg: Seq<char>) -> bool {
    r.status == status && (r.body matches Body::Error(m) && m@ == msg)
}

/// What each refusal is answered with.
pub proof fn law_what_refusals_say(why: Refusal, r: Reply)
    requires
        call_ensures(Refusal::reply, (why,), r),
    ensures
        why is FileNotListed ==> says(r, 404, "archivo no listado"@),
        why is CollectionMissing ==> says(r, 404, "colección no existe"@),
        why is ItemMissing ==> says(r, 404, "item no existe"@),
        why is JobUnknown ==> says(r, 404, "job desconocido"@),
        why is BadHash ==> says(r, 400, "hash inválido"@),
        why is HashNotListed ==> says(r, 404, "hash no listado"@),
        why is TargetMissing ==> says(r, 400, "la colección destino no existe"@),
        why is ChooseChild ==> says(r, 400, "elige una temporada o película dentro de la serie"@),
        why is PosterTooLarge ==> says(r, 413, "portada demasiado grande (tope 10 MB)"@),
        why is PosterEmpty ==> says(r, 400, "portada vacía"@),
        why is PosterNotImage ==> says(r, 400, "la portada debe ser JPG/PNG/WebP"@),
        why is BadId ==> says(r, 400, "id inválido"@),
        why is NoPosterField ==> says(r, 400, "falta el campo `poster` (multipart/form-data)"@),
        why is UploadTooLarge ==> says(r, 413, "archivo demasiado grande (tope 8 GiB)"@),
        why is NoFileField ==> says(r, 400, "falta el campo `file` (multipart/form-data)"@),
{
}

/// What is said of each reason for which the catalog refuses something.
pub proof fn law_what_the_catalog_says(e: DbError, r: String)
    requires
        call_ensures(DbError::message, (e,), r),
    ensures
        e is EmptyTitle ==> r@ == "título vacío"@,
        e is ParentMissing ==> r@ == "la colección padre no existe"@,
        e is TooDeep ==> r@ == "solo hay 2 niveles: la temporada no puede tener hijas"@,
        e is DuplicateId ==> r@ == "UNIQUE constraint failed: collections.id"@,
        e is InvalidPosterUrl ==> r@ == "URL de portada inválida (http(s):// o /posters/…)"@,
        e is KindNotAllowed ==> r@ == "tipo inválido para este nivel"@,
        e is CollectionMissing ==> r@ == "colección no existe"@,
        e is ChooseChild ==> r@ == "elige una temporada o película dentro de la serie"@,
        e is FileNotListed ==> r@ == "archivo no listado"@,
        e is MovieTaken ==> r@ == "la película ya tiene un archivo: sácalo antes de mover otro"@,
{
}

/// All files are answered, as they are listed.
pub proof fn law_all_files_are_answered(db: &Db, r: Reply)
    requires
        call_ensures(api_files, (db,), r),
        db.wf(),
    ensures
        r.status == 200,
        r.body is Files,
        files_show(r.body->Files_0@, db@),
        forall|p: Seq<char>| #[trigger]
            db@.files.contains_key(p) ==> exists|n: int|
                0 <= n < r.body->Files_0@.len() && (#[trigger] r.body->Files_0@[n]).path@ == p,
{
    db.lemma_keys();
    consistency::law_files_are_listed_in_order(db@, catalog::any_file());
    let v = r.body->Files_0@;
    crate::laws::listings::lemma_all_files(db@, v);
}

/// The info tells who serves, how many files there are, and the version.
pub proof fn law_the_info_is_told(db: &Db, endpoint_id: &str, version: &str, r: Reply)
    requires
        call_ensures(api_info, (db, endpoint_id, version), r),
        db.wf(),
    ensures
        r.status == 200,
        r.body matches Body::Info { endpoint_id: e, files: n, version: v } && e@ == endpoint_id@
            && v@ == version@ && n == db@.files.dom().len(),
{
}

/// A file is renamed as the catalog sets a title.
pub proof fn law_a_file_is_renamed(
    db: &mut Db,
    other: &mut Db,
    path: &str,
    title: &str,
    r: Reply,
    s: bool,
)
    requires
        call_ensures(api_rename_file, (db, path, title), r),
        call_ensures(Db::set_title, (other, path, title), s),
        old(db).wf(),
        old(other).wf(),
        old(db)@ == old(other)@,
    ensures
        final(db)@ == final(other)@,
        s ==> r.status == 200 && r.body is Renamed,
        !s ==> says(r, 404, "archivo no listado"@),
{
}

/// A content is removed as the library removes it; something that is no hash, or is not listed,
/// changes nothing.
pub proof fn law_a_content_is_removed(
    lib: &Library,
    db: &mut Db,
    other: &mut Db,
    hash: &str,
    valid: bool,
    r: RemovedFile,
    s: Removal,
)
    requires
        call_ensures(api_remove_file, (lib, db, hash), r),
        call_ensures(Library::remove_by_hash, (lib, other, hash), s),
        call_ensures(hash_valid, (hash,), valid),
        old(db).wf(),
        old(other).wf(),
        old(db)@ == old(other)@,
    ensures
        !valid ==> final(db)@ == old(db)@ && r.removal is None && says(
            r.reply,
            400,
            "hash inválido"@,
        ),
        valid ==> final(db)@ == final(other)@ && r.removal is Some,
        valid && s.existed ==> r.reply.status == 200 && r.reply.body is Removed,
        valid && !s.existed ==> says(r.reply, 404, "hash no listado"@),
        valid ==> forall|p: Seq<char>| #[trigger]
            has_content(old(db)@, p, hash@) <==> exists|i: int|
                0 <= i < r.removal->0.unpublish@.len() && (#[trigger] r.removal->0.unpublish@[i])@
                    == p,
        valid ==> forall|p: Seq<char>| #[trigger]
            has_content(old(db)@, p, hash@) && old(db)@.files[p].tag.len() > 0 ==> exists|i: int|
                0 <= i < r.removal->0.unpin@.len() && (#[trigger] r.removal->0.unpin@[i])@ == old(
                    db,
                )@.files[p].tag,
        valid ==> forall|i: int|
            0 <= i < r.removal->0.unpin@.len() ==> is_pin_of(
                old(db)@,
                hash@,
                (#[trigger] r.removal->0.unpin@[i])@,
            ),
{
    old(db).lemma_keys();
    if valid {
        let x = r.removal->0;
        crate::laws::library::lemma_unpinned(old(db)@, hash@, x.unpin@, x.unpublish@);
    }
}

/// A file that was added is answered, and why one was not.
pub proof fn law_adding_is_answered(added: AddedFile, msg: String, r: Reply, s: Reply)
    requires
        call_ensures(added_reply, (added,), r),
        call_ensures(not_added_reply, (msg,), s),
    ensures
        r.status == 200,
        r.body matches Body::File(x) && x.path@ == added.path@ && x.hash@ == added.hash@ && x.size
            == added.size && x.mime@ == added.mime@,
        says(s, 400, msg@),
{
}

/// All collections are answered, with how many entries and collections each one has.
pub proof fn law_all_collections_are_answered(db: &Db, r: Reply)
    requires
        call_ensures(api_collections, (db,), r),
        db.wf(),
        consistency::ids_given(db@),
    ensures
        r.status == 200,
        r.body is Collections,
        ({
            let v = r.body->Collections_0@;
            &&& collections_show(Seq::new(v.len(), |n: int| v[n].collection), db@)
            &&& forall|c: Seq<char>| #[trigger]
                db@.collections.contains_key(c) ==> exists|n: int|
                    0 <= n < v.len() && (#[trigger] v[n]).collection.id@ == c
            &&& forall|n: int|
                0 <= n < v.len() ==> {
                    let id = (#[trigger] v[n]).collection.id@;
                    &&& v[n].items == entries_shown(db@, id).len()
                    &&& v[n].children == if db@.collections[id].parent_id.len() == 0 {
                        children_of(db@, id).len()
                    } else {
                        0
                    }
                }
        }),
{
    db.lemma_keys();
    crate::laws::listings::lemma_lines(db@, r.body->Collections_0@);
}

/// A collection is made as the catalog makes it, and answered.
pub proof fn law_making_a_collection_is_answered(
    db: &mut Db,
    other: &mut Db,
    kind: &str,
    title: &str,
    parent: &str,
    now: i64,
    r: Reply,
    s: Result<Collection, DbError>,
)
    requires
        call_ensures(api_create_collection, (db, kind, title, parent, now), r) || call_ensures(
            api_create_child,
            (db, parent, kind, title, now),
            r,
        ),
        call_ensures(Db::create_collection, (other, kind, title, parent, now), s),
        old(db).wf(),
        old(other).wf(),
        old(db)@ == old(other)@,
        old(db).serial() == old(other).serial(),
        old(db).process() == old(other).process(),
    ensures
        final(db)@ == final(other)@,
        final(db).serial() == final(other).serial(),
        s is Ok ==> r.status == 201 && (r.body matches Body::Collection(c) && c@ == s->Ok_0@),
        forall|m: String|
            s is Err && #[trigger] call_ensures(DbError::message, (s->Err_0,), m) ==> says(
                r,
                400,
                m@,
            ),
{
}

/// A collection is answered with its entries, each as the catalog lists its file.
pub proof fn law_a_detail_is_answered(db: &Db, id: &str, r: Reply)
    requires
        call_ensures(api_collection_detail, (db, id), r),
        db.wf(),
    ensures
        db@.collections.contains_key(id@) ==> r.status == 200 && (r.body matches Body::Detail(d)
            && detail_shows(d, db@, id@)),
        !db@.collections.contains_key(id@) ==> says(r, 404, "colección no existe"@),
{
    db.lemma_keys();
    if db@.collections.contains_key(id@) {
        crate::laws::listings::lemma_detail_shows(r.body->Detail_0, db@, id@);
    }
}

/// Changing the title of a collection alone is what the catalog does, and the collection is
/// answered as it is then.
pub proof fn law_a_new_title_is_answered(
    db: &mut Db,
    other: &mut Db,
    id: &str,
    title: &str,
    r: Reply,
    s: Result<bool, DbError>,
)
    requires
        call_ensures(
            api_update_collection,
            (db, id, Some(title), None::<&str>, None::<&str>),
            r,
        ),
        call_ensures(
            Db::update_collection,
            (other, id, Some(title), None::<&str>, None::<&str>),
            s,
        ),
        old(db).wf(),
        old(other).wf(),
        old(db)@ == old(other)@,
    ensures
        final(db)@ == final(other)@,
        answers_a_change(r, final(db)@, id@, s),
{
}

/// The same of the poster address.
pub proof fn law_a_new_poster_address_is_answered(
    db: &mut Db,
    other: &mut Db,
    id: &str,
    url: &str,
    r: Reply,
    s: Result<bool, DbError>,
)
    requires
        call_ensures(
            api_update_collection,
            (db, id, None::<&str>, Some(url), None::<&str>),
            r,
        ),
        call_ensures(
            Db::update_collection,
            (other, id, None::<&str>, Some(url), None::<&str>),
            s,
        ),
        old(db).wf(),
        old(other).wf(),
        old(db)@ == old(other)@,
    ensures
        final(db)@ == final(other)@,
        answers_a_change(r, final(db)@, id@, s),
{
}

/// The same of the kind.
pub proof fn law_a_new_kind_is_answered(
    db: &mut Db,
    other: &mut Db,
    id: &str,
    kind: &str,
    r: Reply,
    s: Result<bool, DbError>,
)
    requires
        call_ensures(
            api_update_collection,
            (db, id, None::<&str>, None::<&str>, Some(kind)),
            r,
        ),
        call_ensures(
            Db::update_collection,
            (other, id, None::<&str>, None::<&str>, Some(kind)),
            s,
        ),
        old(db).wf(),
        old(other).wf(),
        old(db)@ == old(other)@,
    ensures
        final(db)@ == final(other)@,
        answers_a_change(r, final(db)@, id@, s),
{
}

/// The answer to a change of a collection: the collection as it is then, that there is none, or
/// why it was refused.
pub open spec fn answers_a_change(
    r: Reply,
    t: Tables,
    id: Seq<char>,
    s: Result<bool, DbError>,
) -> bool {
    &&& s == Ok::<bool, DbError>(true) ==> r.status == 200 && t.collections.contains_key(id) && (
    r.body matches Body::Collection(c) && collection_shows(c, t.collections[id]))
    &&& s == Ok::<bool, DbError>(false) ==> says(r, 404, "colección no existe"@)
    &&& forall|m: String|
        s is Err && #[trigger] call_ensures(DbError::message, (s->Err_0,), m) ==> says(r, 400, m@)
}

/// Fields are changed one after the other: title, poster address, kind. Where one is refused
/// the later ones are not changed, and those before it are.
pub proof fn law_fields_are_changed_in_turn(
    db: &mut Db,
    a: &mut Db,
    b: &mut Db,
    c: &mut Db,
    id: &str,
    title: &str,
    url: &str,
    kind: &str,
    r: Reply,
    x: Result<bool, DbError>,
    y: Result<bool, DbError>,
    z: Result<bool, DbError>,
)
    requires
        call_ensures(api_update_collection, (db, id, Some(title), Some(url), Some(kind)), r),
        call_ensures(
            Db::update_collection,
            (a, id, Some(title), None::<&str>, None::<&str>),
            x,
        ),
        call_ensures(
            Db::update_collection,
            (b, id, None::<&str>, Some(url), None::<&str>),
            y,
        ),
        call_ensures(
            Db::update_collection,
            (c, id, None::<&str>, None::<&str>, Some(kind)),
            z,
        ),
        old(db).wf() && old(a).wf() && old(b).wf() && old(c).wf(),
        old(db)@ == old(a)@,
        old(b)@ == final(a)@,
        old(c)@ == final(b)@,
    ensures
        ({
            let done = Ok::<bool, DbError>(true);
            &&& x != done ==> final(db)@ == final(a)@ && answers_a_change(r, final(db)@, id@, x)
            &&& x == done && y != done ==> final(db)@ == final(b)@ && answers_a_change(
                r,
                final(db)@,
                id@,
                y,
            )
            &&& x == done && y == done ==> final(db)@ == final(c)@ && answers_a_change(
                r,
                final(db)@,
                id@,
                z,
            )
        }),
{
}

/// With nothing to change the collection is answered as it is.
pub proof fn law_without_a_change_it_is_answered(db: &mut Db, id: &str, r: Reply)
    requires
        call_ensures(
            api_update_collection,
            (db, id, None::<&str>, None::<&str>, None::<&str>),
            r,
        ),
        old(db).wf(),
    ensures
        final(db)@ == old(db)@,
        answers_a_change(
            r,
            old(db)@,
            id@,
            Ok::<bool, DbError>(old(db)@.collections.contains_key(id@)),
        ),
{
}

/// A collection is taken out as the catalog does it, and that is answered.
pub proof fn law_taking_out_a_collection_is_answered(
    db: &mut Db,
    other: &mut Db,
    id: &str,
    r: Reply,
    s: bool,
)
    requires
        call_ensures(api_delete_collection, (db, id), r),
        call_ensures(Db::delete_collection, (other, id), s),
        old(db).wf(),
        old(other).wf(),
        old(db)@ == old(other)@,
    ensures
        final(db)@ == final(other)@,
        s ==> r.status == 200 && r.body is Removed,
        !s ==> says(r, 404, "colección no existe"@),
{
}

/// A file is moved as the catalog does it, with all that was given, and that is answered.
pub proof fn law_moving_a_file_is_answered(
    db: &mut Db,
    other: &mut Db,
    id: &str,
    path: &str,
    season: &str,
    label: &str,
    pos: i64,
    r: Reply,
    s: Result<(), DbError>,
)
    requires
        call_ensures(api_add_item, (db, id, path, season, label, pos), r),
        call_ensures(Db::add_item, (other, id, path, season, label, pos), s),
        old(db).wf(),
        old(other).wf(),
        old(db)@ == old(other)@,
    ensures
        final(db)@ == final(other)@,
        s is Ok ==> r.status == 200 && r.body is ItemAdded,
        forall|m: String|
            s is Err && #[trigger] call_ensures(DbError::message, (s->Err_0,), m) ==> says(
                r,
                400,
                m@,
            ),
{
}

/// An entry is taken out as the catalog does it, and that is answered.
pub proof fn law_taking_out_an_entry_is_answered(
    db: &mut Db,
    other: &mut Db,
    id: &str,
    path: &str,
    r: Reply,
    s: bool,
)
    requires
        call_ensures(api_remove_item, (db, id, path), r),
        call_ensures(Db::remove_item, (other, id, path), s),
        old(db).wf(),
        old(other).wf(),
        old(db)@ == old(other)@,
    ensures
        final(db)@ == final(other)@,
        s ==> r.status == 200 && r.body is Removed,
        !s ==> says(r, 404, "item no existe"@),
{
}

/// Entries and collections are put in order as the catalog does it, and that is answered.
pub proof fn law_putting_in_order_is_answered(
    db: &mut Db,
    other: &mut Db,
    id: &str,
    order: &[String],
    r: Reply,
    s: Result<(), DbError>,
)
    requires
        call_ensures(api_reorder_items, (db, id, order), r) && call_ensures(
            Db::reorder_items,
            (other, id, order),
            s,
        ) || call_ensures(api_reorder_children, (db, id, order), r) && call_ensures(
            Db::reorder_children,
            (other, id, order),
            s,
        ),
        old(db).wf(),
        old(other).wf(),
        old(db)@ == old(other)@,
    ensures
        final(db)@ == final(other)@,
        s is Ok ==> r.status == 200 && r.body is Reordered,
        s is Err ==> says(r, 400, "colección no existe"@),
{
}

/// A job is answered as it is kept.
pub proof fn law_a_job_is_answered(jobs: &Jobs, id: &str, r: Reply, s: Option<JobState>)
    requires
        call_ensures(api_job, (jobs, id), r),
        call_ensures(Jobs::get, (jobs, id), s),
        jobs.wf(),
    ensures
        s is Some ==> r.status == 200 && (r.body matches Body::Job(j) && j@ == s->0@),
        s is None ==> says(r, 404, "job desconocido"@),
{
    if s is Some {
        let k = choose|k: int| 0 <= k < jobs@.len() && jobs@[k] == s->0@;
        assert(jobs@[k].id == id@);
        let j = r.body->Job_0;
        let i = choose|i: int| 0 <= i < jobs@.len() && jobs@[i] == j@;
        assert(jobs@[i].id == id@);
        jobs.lemma_ids_differ();
        if i < k {
            assert(jobs@[i].id != jobs@[k].id);
        }
        if k < i {
            assert(jobs@[k].id != jobs@[i].id);
        }
    } else if r.body is Job {
        let j = r.body->Job_0;
        let i = choose|i: int| 0 <= i < jobs@.len() && jobs@[i] == j@;
        assert(jobs@[i].id == id@);
    }
}

// ---------------------------------------------------------------------------
// Scans
// ---------------------------------------------------------------------------
/// A scan with a target that is named goes there, if it exists and has no collection below it;
/// its root is its parent, or itself. The catalog does not change.
pub proof fn law_a_scan_goes_where_it_is_sent(
    db: &mut Db,
    req: &ScanRequest,
    now_root: i64,
    now_season: i64,
    r: Result<Option<ScanTarget>, Refusal>,
)
    requires
        call_ensures(scan_target, (db, req, now_root, now_season), r),
        old(db).wf(),
        text::trimmed(req.target_collection_id@).len() > 0,
    ensures
        ({
            let t = old(db)@;
            let id = text::trimmed(req.target_collection_id@);
            let parent = exists|c: Seq<char>| #[trigger]
                t.collections.contains_key(c) && t.collections[c].parent_id == id;
            &&& final(db)@ == t
            &&& !t.collections.contains_key(id) ==> r == Err::<Option<ScanTarget>, Refusal>(
                Refusal::TargetMissing,
            )
            &&& t.collections.contains_key(id) && parent ==> r == Err::<
                Option<ScanTarget>,
                Refusal,
            >(Refusal::ChooseChild)
            &&& t.collections.contains_key(id) && !parent ==> {
                &&& r is Ok && r->Ok_0 is Some
                &&& r->Ok_0->0.id@ == id
                &&& t.collections[id].parent_id.len() == 0 ==> r->Ok_0->0.root@ == id
                &&& t.collections[id].parent_id.len() > 0 ==> r->Ok_0->0.root@
                    == t.collections[id].parent_id
            }
        }),
{
}

/// A scan without a target and without a title goes nowhere, and the catalog does not change.
pub proof fn law_a_scan_may_go_nowhere(
    db: &mut Db,
    req: &ScanRequest,
    now_root: i64,
    now_season: i64,
    r: Result<Option<ScanTarget>, Refusal>,
)
    requires
        call_ensures(scan_target, (db, req, now_root, now_season), r),
        old(db).wf(),
        text::trimmed(req.target_collection_id@).len() == 0,
        text::trimmed(req.collection_title@).len() == 0,
    ensures
        final(db)@ == old(db)@,
        r is Ok && r->Ok_0 is None,
{
}

/// A scan with a title makes a root with that title and kind, as the catalog makes it, and with
/// a season another collection below it: a film below a film, else a season. Its files go to
/// the last one that was made.
pub proof fn law_a_scan_makes_its_collection(
    db: &mut Db,
    a: &mut Db,
    b: &mut Db,
    req: &ScanRequest,
    now_root: i64,
    now_season: i64,
    none: &str,
    kind: &str,
    r: Result<Option<ScanTarget>, Refusal>,
    x: Result<Collection, DbError>,
    y: Result<Collection, DbError>,
    title: &str,
    root_kind: &str,
    season: &str,
    root_id: &str,
)
    requires
        call_ensures(scan_target, (db, req, now_root, now_season), r),
        call_ensures(Db::create_collection, (a, root_kind, title, none, now_root), x),
        call_ensures(Db::create_collection, (b, kind, season, root_id, now_season), y),
        old(db).wf() && old(a).wf() && old(b).wf(),
        text::trimmed(req.target_collection_id@).len() == 0,
        text::trimmed(req.collection_title@).len() > 0,
        none@.len() == 0,
        title@ == req.collection_title@,
        root_kind@ == req.collection_kind@,
        season@ == req.season@,
        kind@ == (if means_film(req.collection_kind@) {
            "movie"@
        } else {
            "season"@
        }),
        x is Ok ==> root_id@ == x->Ok_0.id@,
        old(db)@ == old(a)@,
        old(db).serial() == old(a).serial(),
        old(db).process() == old(a).process(),
        old(b)@ == final(a)@,
        old(b).serial() == final(a).serial(),
        old(b).process() == final(a).process(),
    ensures
        r is Ok,
        x is Err ==> final(db)@ == final(a)@ && r->Ok_0 is None,
        x is Ok && text::trimmed(season@).len() > 0 ==> final(db).serial() == final(b).serial(),
        x is Err || text::trimmed(season@).len() == 0 ==> final(db).serial() == final(a).serial(),
        x is Ok ==> r->Ok_0 is Some && r->Ok_0->0.root@ == x->Ok_0.id@,
        x is Ok && text::trimmed(season@).len() == 0 ==> final(db)@ == final(a)@ && r->Ok_0->0.id@
            == x->Ok_0.id@,
        x is Ok && text::trimmed(season@).len() > 0 ==> final(db)@ == final(b)@ && r->Ok_0->0.id@
            == (match y {
            Ok(c) => c.id@,
            Err(_) => x->Ok_0.id@,
        }),
{
    assert(none@ =~= Seq::<char>::empty());
    crate::laws::collections::lemma_kinds_differ();
}

/// A scan fits where it makes no collection, or where there is room for its root and its season.
pub proof fn law_where_a_scan_fits(
    db: &Db,
    req: &ScanRequest,
    now: i64,
    id: String,
    r: bool,
)
    requires
        call_ensures(scan_fits, (db, req, now), r),
        call_ensures(Db::next_id, (db, now), id),
        db.wf(),
    ensures
        r <==> text::trimmed(req.target_collection_id@).len() > 0 || text::trimmed(
            req.collection_title@,
        ).len() == 0 || room_below(db@, Seq::empty()) && room_below(db@, id@),
{
    db.lemma_keys();
    crate::laws::collections::lemma_room(db@, Seq::empty(), Seq::empty());
    crate::laws::collections::lemma_room(db@, id@, Seq::empty());
}

/// A scan begins with a job of as many files as were found. Where there are some its target is
/// chosen, and its root is answered; else nothing is chosen.
pub proof fn law_a_scan_begins(
    db: &mut Db,
    jobs: &mut Jobs,
    other: &mut Db,
    others: &mut Jobs,
    found: usize,
    req: &ScanRequest,
    now_root: i64,
    now_season: i64,
    r: ScanStart,
    s: Result<Option<ScanTarget>, Refusal>,
    id: String,
    why: Reply,
)
    requires
        call_ensures(api_scan_folder, (db, jobs, found, req, now_root, now_season), r),
        call_ensures(scan_target, (other, req, now_root, now_season), s),
        call_ensures(Jobs::create, (others, found), id),
        s is Err ==> call_ensures(Refusal::reply, (s->Err_0,), why),
        old(db).wf() && old(other).wf(),
        old(jobs).wf() && old(others).wf(),
        old(db)@ == old(other)@,
        old(db).serial() == old(other).serial(),
        old(db).process() == old(other).process(),
        old(jobs)@ == old(others)@,
        old(jobs).next() == old(others).next(),
    ensures
        final(jobs)@ == final(others)@,
        r.job_id@ == id@,
        found == 0 ==> final(db)@ == old(db)@ && r.target is None,
        found > 0 ==> final(db)@ == final(other)@,
        found > 0 && s is Err ==> r.reply.status == why.status && r.target is None && (
        r.reply.body matches Body::Error(m) && (why.body matches Body::Error(n) && m@ == n@)),
        found == 0 || s is Ok ==> {
            &&& r.reply.status == 202
            &&& r.reply.body matches Body::ScanStarted { job_id: j, found: n, collection_id: c }
                && j@ == id@ && n == found && {
                &&& found == 0 ==> c is None
                &&& found > 0 && s->Ok_0 is None ==> c is Some && c->0@.len() == 0
                    && r.target is None
                &&& found > 0 && s->Ok_0 is Some ==> c is Some && c->0@ == s->Ok_0->0.root@
                    && r.target is Some && r.target->0@ == s->Ok_0->0.id@
            }
        },
{
}

/// A file that a scan added is put into the target, without season and label, at its place. It
/// stays where it is where there is no target, or the target does not take it.
pub proof fn law_a_scanned_file_is_placed(
    db: &mut Db,
    other: &mut Db,
    none: &mut Db,
    target: &str,
    pos: i64,
    path: &str,
    blank: &str,
    s: Result<(), DbError>,
)
    requires
        call_ensures(scan_placed, (db, Some(target), pos, path), ()),
        call_ensures(scan_placed, (none, None::<&str>, pos, path), ()),
        call_ensures(Db::add_item, (other, target, path, blank, blank, pos), s),
        old(db).wf() && old(other).wf() && old(none).wf(),
        old(db)@ == old(other)@,
        blank@.len() == 0,
    ensures
        final(db)@ == final(other)@,
        final(none)@ == old(none)@,
{
    assert(blank@ =~= Seq::<char>::empty());
}

/// A file that a scan added, and one that it could not add, counts for its job: the one under
/// its path, the other with its name and the reason.
pub proof fn law_a_scanned_file_counts(
    jobs: &mut Jobs,
    others: &mut Jobs,
    job_id: &str,
    path: String,
    at: &str,
    reason: &str,
    i: int,
    name: Option<String>,
)
    requires
        call_ensures(file_name, (at,), name),
        call_ensures(scan_added, (jobs, job_id, path), ()),
        call_ensures(scan_failed, (others, job_id, at, reason), ()),
        old(jobs).wf() && old(others).wf(),
        old(jobs)@ == old(others)@,
        0 <= i < old(jobs)@.len(),
        old(jobs)@[i].done < usize::MAX,
    ensures
        final(jobs)@.len() == old(jobs)@.len() && final(others)@.len() == old(jobs)@.len(),
        old(jobs)@[i].id != job_id@ ==> final(jobs)@[i] == old(jobs)@[i] && final(others)@[i]
            == old(jobs)@[i],
        old(jobs)@[i].id == job_id@ ==> counts_one_more(
            old(jobs)@[i],
            final(jobs)@[i],
            Some(path@),
            None,
        ) && counts_one_more(
            old(jobs)@[i],
            final(others)@[i],
            None,
            Some(
                (match name {
                    Some(n) => n@,
                    None => Seq::empty(),
                }) + ": "@ + reason@,
            ),
        ),
{
}

// ---------------------------------------------------------------------------
// Uploads and posters
// ---------------------------------------------------------------------------
/// Pieces are taken while all that was received is within the limit.
pub proof fn law_pieces_add_up(received: u64, piece: u64, limit: u64, r: Option<u64>)
    requires
        call_ensures(received_after, (received, piece, limit), r),
        received <= limit,
    ensures
        r is Some <==> received + piece <= limit,
        r is Some ==> r->0 == received + piece,
{
}

/// An upload is received under the instant, its number and its own name. Uploads with another
/// instant or number are received under another name.
pub proof fn law_uploads_are_received_apart(
    now: u128,
    count: u64,
    name: &str,
    own: Option<String>,
    r: String,
)
    requires
        call_ensures(staged_name, (now, count, name), r),
        call_ensures(file_name, (name,), own),
    ensures
        exists|a: Seq<char>, b: Seq<char>|
            #![trigger numbers::digits_value(a), numbers::digits_value(b)]
            r@ == a + "-"@ + b + "-"@ + (match own {
                Some(n) => n@,
                None => "archivo"@,
            }) && numbers::all_digits(a) && numbers::all_digits(b)
                && numbers::digits_value(a) == now && numbers::digits_value(b) == count,
{
    numbers::lemma_decimal_reads_back(now as nat);
    numbers::lemma_decimal_reads_back(count as nat);
    let (a, b) = (numbers::decimal_text(now as nat), numbers::decimal_text(count as nat));
    let n = match own {
        Some(n) => n@,
        None => "archivo"@,
    };
    assert(r@ == a + "-"@ + b + "-"@ + n);
    assert(numbers::digits_value(a) == now && numbers::digits_value(b) == count);
}

/// A poster is taken where it is not too large, not empty, an image, and something is left of
/// the id. Otherwise the first of these that fails is told.
pub proof fn law_which_posters_are_taken(
    id: &str,
    file_name: &str,
    bytes: &[u8],
    r: Result<String, Refusal>,
    image: bool,
    safe: String,
    ext: &'static str,
)
    requires
        call_ensures(check_poster, (id, file_name, bytes), r),
        call_ensures(posters::looks_like_image, (bytes,), image),
        call_ensures(posters::safe_id, (id,), safe),
        call_ensures(posters::poster_extension, (file_name,), ext),
    ensures
        ({
            let large = bytes@.len() > 10 * 1024 * 1024;
            let empty = bytes@.len() == 0;
            let bad = safe@.len() == 0;
            &&& large ==> r == Err::<String, Refusal>(Refusal::PosterTooLarge)
            &&& empty ==> r == Err::<String, Refusal>(Refusal::PosterEmpty)
            &&& !large && !empty && !image ==> r == Err::<String, Refusal>(Refusal::PosterNotImage)
            &&& !large && !empty && image && bad ==> r == Err::<String, Refusal>(Refusal::BadId)
            &&& !large && !empty && image && !bad ==> r is Ok && r->Ok_0@ == safe@ + "."@ + ext@
        }),
{
}

/// An uploaded poster is that of its collection, which has no web address any more. Nothing
/// else changes.
pub proof fn law_an_uploaded_poster_is_noted(db: &mut Db, id: &str, name: &str, r: Reply)
    requires
        call_ensures(api_upload_poster, (db, id, name), r),
        old(db).wf(),
    ensures
        r.status == 200,
        r.body matches Body::Poster(p) && p@ == "/posters/"@ + name@,
        !old(db)@.collections.contains_key(id@) ==> final(db)@ == old(db)@,
        old(db)@.collections.contains_key(id@) ==> {
            let (c, d) = (final(db)@.collections[id@], old(db)@.collections[id@]);
            &&& final(db)@.collections == old(db)@.collections.insert(id@, c)
            &&& crate::laws::collections::only_collections_change(old(db)@, final(db)@)
            &&& c.poster_file == "/posters/"@ + name@
            &&& c.poster_url.len() == 0
            &&& c.id == d.id && c.kind == d.kind && c.title == d.title
            &&& c.created_at == d.created_at && c.parent_id == d.parent_id && c.pos == d.pos
        },
{
    assert(text::trimmed(Seq::empty()) =~= Seq::<char>::empty());
}

/// A poster is served under a name that stays inside and has the end of an image, with the type
/// of that end.
pub proof fn law_which_posters_are_served(
    file: &str,
    r: Result<ServedPoster, Reply>,
    inside: bool,
    mime: Option<&'static str>,
)
    requires
        call_ensures(serve_poster, (file,), r),
        call_ensures(posters::name_stays_inside, (file,), inside),
        call_ensures(posters::poster_mime, (file,), mime),
    ensures
        r is Ok <==> inside && mime is Some,
        r is Ok ==> r->Ok_0.content_type@ == mime->0@ && r->Ok_0.cache_control@
            == "public, max-age=86400"@,
        r is Err ==> r->Err_0.status == 400 && (r->Err_0.body matches Body::Text(m) && m@ == (
        if inside {
            "solo portadas"@
        } else {
            "nombre inválido"@
        })),
{
}

} // verus!
