//! Uploads: which field is received, where, how much of it, and what is answered.

use crate::db::Db;
use crate::gateway::{check_poster, staged_name, Body, Refusal, Reply};
use crate::laws::gateway::says;
use crate::library::{AddedFile, PathProblem, StagedProblem};
use crate::text;
use crate::uploads;
use crate::uploads::{poster_target, Failure, PosterStep, PosterUpload, Upload, UploadStep};
use vstd::prelude::*;
use vstd::string::*;

verus! {

/// What each failure is answered with.
pub proof fn law_what_failures_say(f: Failure, cause: &str, r: Reply)
    requires
        call_ensures(Failure::reply, (f, cause), r),
    ensures
        f is UploadFolder ==> says(r, 500, "no se pudo preparar la subida: "@ + cause@),
        f is UploadFile ==> says(r, 500, "no se pudo recibir la subida: "@ + cause@),
        f is UploadWrite ==> says(r, 500, "error al guardar la subida: "@ + cause@),
        f is Interrupted ==> says(r, 400, "subida interrumpida: "@ + cause@),
        f is PosterFolder ==> says(r, 500, "no se pudo preparar portadas: "@ + cause@),
        f is PosterFile ==> says(r, 500, "no se pudo guardar: "@ + cause@),
        f is ScanTask ==> says(r, 500, "error en tarea de escaneo: "@ + cause@),
{
}

/// What is said of a path that may not be added, and of an upload that cannot be imported.
pub proof fn law_what_is_said_of_paths(
    p: PathProblem,
    raw: &str,
    abs: &str,
    q: StagedProblem,
    r: String,
    s: String,
)
    requires
        call_ensures(PathProblem::message, (p, raw, abs), r),
        call_ensures(StagedProblem::message, (q,), s),
    ensures
        p is Blank ==> r@ == "path vacío"@,
        p is Missing ==> r@ == "no existe la ruta: "@ + text::trimmed(raw@),
        p is Outside ==> r@ == "ruta fuera de las carpetas permitidas: "@ + abs@,
        p is NotAFile ==> r@ == "no es un archivo: "@ + abs@,
        p is NotAFolder ==> r@ == "no es una carpeta: "@ + abs@,
        p is EmptyFile ==> r@ == "el archivo está vacío: "@ + abs@,
        q is Missing ==> s@ == "subida incompleta: temporal no encontrado"@,
        q is Empty ==> s@ == "el archivo subido está vacío"@,
{
}

/// The upload was sent under the name and is received at its staged name in the folder.
pub open spec fn is_received_as(
    u: Upload,
    folder: Seq<char>,
    name: Seq<char>,
    staged: Seq<char>,
) -> bool {
    &&& u.wf()
    &&& u.sent_as() == name
    &&& u.received() == 0
    &&& !u.imported()
    &&& folder.len() == 0 || folder.last() == '/' ==> u.at() == folder + staged
    &&& folder.len() > 0 && folder.last() != '/' ==> u.at() == folder + "/"@ + staged
}

proof fn lemma_path_in(folder: Seq<char>, name: Seq<char>)
    ensures
        folder.len() == 0 || folder.last() == '/' ==> uploads::path_in(folder, name) == folder
            + name,
        folder.len() > 0 && folder.last() != '/' ==> uploads::path_in(folder, name) == folder + "/"@
            + name,
{
    reveal_strlit("/");
    if folder.len() > 0 {
        let end = folder.subrange(folder.len() - 1, folder.len() as int);
        assert(end[0] == folder.last());
        if folder.last() == '/' {
            assert(end =~= "/"@);
        } else if "/"@.is_suffix_of(folder) {
            assert(end == "/"@);
            assert("/"@[0] == '/');
        }
    }
}

/// The field that is called `file` is received, in the folder for uploads, under the name that
/// it was sent with, or `archivo`. Other fields are passed over. A request without such a field
/// is answered.
pub proof fn law_the_file_is_received(
    field: Option<&str>,
    file_name: Option<&str>,
    folder: &str,
    now: u128,
    count: u64,
    name: &str,
    staged: String,
    r: UploadStep,
    b: Option<Upload>,
    n: UploadStep,
)
    requires
        call_ensures(Upload::next, (Some((field, file_name)), folder, now, count), r),
        call_ensures(Upload::begin, (field, file_name, folder, now, count), b),
        call_ensures(
            Upload::next,
            (None::<(Option<&str>, Option<&str>)>, folder, now, count),
            n,
        ),
        call_ensures(staged_name, (now, count, name), staged),
        name@ == (match file_name {
            Some(x) => x@,
            None => "archivo"@,
        }),
    ensures
        ({
            let taken = field is Some && field->0@ == "file"@;
            &&& taken ==> (r matches UploadStep::Receive(u) && is_received_as(
                u,
                folder@,
                name@,
                staged@,
            ))
            &&& !taken ==> r is Skip
            &&& b is Some <==> taken
            &&& b is Some ==> is_received_as(b->0, folder@, name@, staged@)
        }),
        n matches UploadStep::Answer(x) && says(
            x,
            400,
            "falta el campo `file` (multipart/form-data)"@,
        ),
{
    lemma_path_in(folder@, staged@);
}

/// An upload tells its name, its place, and what is left over until it was imported.
pub proof fn law_an_upload_tells_of_itself(u: &Upload, n: &str, p: &str, l: Option<&str>)
    requires
        call_ensures(Upload::name, (u,), n),
        call_ensures(Upload::path, (u,), p),
        call_ensures(Upload::leftover, (u,), l),
    ensures
        n@ == u.sent_as(),
        p@ == u.at(),
        l is Some <==> !u.imported(),
        l is Some ==> l->0@ == u.at(),
{
}

/// Pieces of an upload are taken up to 8 GiB; what is more is refused, and not counted.
pub proof fn law_pieces_of_an_upload(u: &mut Upload, len: u64, r: Option<Reply>)
    requires
        call_ensures(Upload::piece, (u, len), r),
        old(u).wf(),
    ensures
        ({
            let fits = old(u).received() + len <= 8 * 1024 * 1024 * 1024;
            &&& r is None <==> fits
            &&& fits ==> final(u).received() == old(u).received() + len
            &&& !fits ==> final(u).received() == old(u).received() && says(
                r->0,
                413,
                "archivo demasiado grande (tope 8 GiB)"@,
            )
            &&& final(u).sent_as() == old(u).sent_as() && final(u).at() == old(u).at()
            &&& final(u).imported() == old(u).imported()
        }),
{
}

/// An upload that was imported is answered with the file and is no longer left over; one that
/// was not is answered with the reason and still is.
pub proof fn law_an_upload_ends(
    u: &mut Upload,
    v: &mut Upload,
    added: AddedFile,
    msg: String,
    r: Reply,
    s: Reply,
)
    requires
        call_ensures(Upload::finish, (u, Ok::<AddedFile, String>(added)), r),
        call_ensures(Upload::finish, (v, Err::<AddedFile, String>(msg)), s),
        !old(v).imported(),
    ensures
        r.status == 200,
        r.body matches Body::File(x) && x == added,
        final(u).imported(),
        says(s, 400, msg@),
        !final(v).imported(),
        final(u).at() == old(u).at() && final(v).at() == old(v).at(),
{
}

/// A poster is received for a collection that exists.
pub proof fn law_a_poster_needs_its_collection(db: &Db, id: &str, r: Option<Reply>)
    requires
        call_ensures(poster_target, (db, id), r),
        db.wf(),
    ensures
        r is None <==> db@.collections.contains_key(id@),
        r is Some ==> says(r->0, 404, "colección no existe"@),
{
}

/// The poster is for the collection, was sent under the name, and nothing of it is there yet.
pub open spec fn is_begun(u: PosterUpload, id: Seq<char>, file_name: Option<&str>) -> bool {
    &&& u.wf()
    &&& u.collection() == id
    &&& u.received().len() == 0
    &&& file_name is Some ==> u.sent_as() == file_name->0@
    &&& file_name is None ==> u.sent_as().len() == 0
}

/// The field that is called `poster` is received. Other fields are passed over. A request
/// without such a field is answered.
pub proof fn law_the_poster_is_received(
    field: Option<&str>,
    file_name: Option<&str>,
    id: &str,
    r: PosterStep,
    b: Option<PosterUpload>,
    n: PosterStep,
)
    requires
        call_ensures(PosterUpload::next, (Some((field, file_name)), id), r),
        call_ensures(PosterUpload::begin, (field, id, file_name), b),
        call_ensures(PosterUpload::next, (None::<(Option<&str>, Option<&str>)>, id), n),
    ensures
        ({
            let taken = field is Some && field->0@ == "poster"@;
            &&& taken ==> (r matches PosterStep::Receive(u) && is_begun(u, id@, file_name))
            &&& !taken ==> r is Skip
            &&& b is Some <==> taken
            &&& b is Some ==> is_begun(b->0, id@, file_name)
        }),
        n matches PosterStep::Answer(x) && says(
            x,
            400,
            "falta el campo `poster` (multipart/form-data)"@,
        ),
{
}

/// Pieces of a poster are put together up to 10 MiB; what is more is refused.
pub proof fn law_pieces_of_a_poster(u: &mut PosterUpload, piece: &[u8], r: Option<Reply>)
    requires
        call_ensures(PosterUpload::piece, (u, piece), r),
        old(u).wf(),
    ensures
        ({
            let fits = old(u).received().len() + piece@.len() <= 10 * 1024 * 1024;
            &&& r is None <==> fits
            &&& fits ==> final(u).received() == old(u).received() + piece@
            &&& !fits ==> final(u).received() == old(u).received() && says(
                r->0,
                413,
                "portada demasiado grande (tope 10 MB)"@,
            )
            &&& final(u).collection() == old(u).collection()
            &&& final(u).sent_as() == old(u).sent_as()
        }),
{
}

/// A poster that was received is taken as its bytes, the name that it was sent under and its
/// collection have it, under the name that it then gets; or the refusal is answered.
pub proof fn law_a_poster_ends(
    u: &PosterUpload,
    id: &str,
    file_name: &str,
    bytes: &[u8],
    r: Result<String, Reply>,
    s: Result<String, Refusal>,
)
    requires
        call_ensures(PosterUpload::bytes, (u,), bytes),
        call_ensures(PosterUpload::finish, (u,), r),
        call_ensures(check_poster, (id, file_name, bytes), s),
        u.wf(),
        u.collection() == id@,
        u.sent_as() == file_name@,
    ensures
        bytes@ == u.received(),
        s is Ok ==> r is Ok && r->Ok_0@ == s->Ok_0@,
        s is Err ==> r is Err,
        forall|x: Reply|
            s is Err && #[trigger] call_ensures(Refusal::reply, (s->Err_0,), x) ==> (
            x.body matches Body::Error(m) && says(r->Err_0, x.status as int, m@)),
{
}

} // verus!
