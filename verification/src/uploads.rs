//! Receiving uploads, field by field and piece by piece.
//!
//! Reading the request and writing files is left to the caller: an upload says which fields
//! are taken, how much of them, and what is answered.

use crate::db::Db;
use crate::gateway;
use crate::gateway::{
    added_reply, check_poster, not_added_reply, received_after, staged_name, Body, Refusal, Reply,
    MAX_UPLOAD,
};
use crate::library::{AddedFile, TempStagedFile};
use crate::posters;
use crate::posters::MAX_POSTER;
use crate::text::{ends_with, same};
use vstd::prelude::*;
use vstd::string::*;

verus! {

/// What fails outside the library.
#[derive(Debug, Clone, Copy, PartialEq, Eq, Structural)]
pub enum Failure {
    /// The folder for uploads could not be made.
    UploadFolder,
    /// The file for an upload could not be made.
    UploadFile,
    /// A piece of an upload could not be written.
    UploadWrite,
    /// The request ended too early.
    Interrupted,
    /// The folder for posters could not be made.
    PosterFolder,
    /// A poster could not be written.
    PosterFile,
    /// A scan was given up.
    ScanTask,
}

/// The status that a failure is answered with.
pub open spec fn failure_status(f: Failure) -> u16 {
    if f == Failure::Interrupted {
        400
    } else {
        500
    }
}

/// What is said of a failure, before its cause.
pub open spec fn failure_text(f: Failure) -> Seq<char> {
    match f {
        Failure::UploadFolder => "no se pudo preparar la subida: "@,
        Failure::UploadFile => "no se pudo recibir la subida: "@,
        Failure::UploadWrite => "error al guardar la subida: "@,
        Failure::Interrupted => "subida interrumpida: "@,
        Failure::PosterFolder => "no se pudo preparar portadas: "@,
        Failure::PosterFile => "no se pudo guardar: "@,
        Failure::ScanTask => "error en tarea de escaneo: "@,
    }
}

impl Failure {
    /// The answer, with the cause.
    pub fn reply(self, cause: &str) -> (r: Reply)
        ensures
            gateway::is_error(r, failure_status(self), failure_text(self) + cause@),
    {
        let status: u16 = if self == Failure::Interrupted {
            400
        } else {
            500
        };
        let start = match self {
            Failure::UploadFolder => "no se pudo preparar la subida: ",
            Failure::UploadFile => "no se pudo recibir la subida: ",
            Failure::UploadWrite => "error al guardar la subida: ",
            Failure::Interrupted => "subida interrumpida: ",
            Failure::PosterFolder => "no se pudo preparar portadas: ",
            Failure::PosterFile => "no se pudo guardar: ",
            Failure::ScanTask => "error en tarea de escaneo: ",
        };
        let mut msg = start.to_owned();
        msg.append(cause);
        Reply { status, body: Body::Error(msg) }
    }
}

/// Whether a field is called `wanted`.
fn is_called(field: Option<&str>, wanted: &str) -> (r: bool)
    ensures
        r == (crate::catalog::opt_view(field) == Some(wanted@)),
{
    match field {
        Some(f) => same(f, wanted),
        None => false,
    }
}

/// The path of `name` in `folder`.
pub open spec fn path_in(folder: Seq<char>, name: Seq<char>) -> Seq<char> {
    if folder.len() == 0 || "/"@.is_suffix_of(folder) {
        folder + name
    } else {
        folder + "/"@ + name
    }
}

// ---------------------------------------------------------------------------
// Files
// ---------------------------------------------------------------------------
/// The name that an upload was sent under.
pub open spec fn sent_name(file_name: Option<Seq<char>>) -> Seq<char> {
    match file_name {
        Some(n) => n,
        None => "archivo"@,
    }
}

/// `POST /api/library/upload`: a file that is being received.
pub struct Upload {
    name: String,
    staged: TempStagedFile,
    received: u64,
}

/// What is done with the next field of a request that uploads a file.
pub enum UploadStep {
    /// It is received.
    Receive(Upload),
    /// It is passed over.
    Skip,
    /// There is none, and the request is answered.
    Answer(Reply),
}

impl Upload {
    /// The name that it was sent under.
    pub closed spec fn sent_as(self) -> Seq<char> {
        self.name@
    }

    /// Where it is received.
    pub closed spec fn at(self) -> Seq<char> {
        self.staged.at()
    }

    /// How much of it was received.
    pub closed spec fn received(self) -> u64 {
        self.received
    }

    /// Whether it was imported. Unless it was, what was received is to be removed.
    pub closed spec fn imported(self) -> bool {
        self.staged.committed()
    }

    /// No more was received than is taken.
    pub open spec fn wf(self) -> bool {
        self.received() <= MAX_UPLOAD
    }

    /// Begins to receive a field, unless it is not called `file`. It is received in
    /// `folder`, under a name with the instant `now` and the number `count`.
    pub fn begin(
        field: Option<&str>,
        file_name: Option<&str>,
        folder: &str,
        now: u128,
        count: u64,
    ) -> (r: Option<Self>)
        ensures
            match r {
                Some(u) => {
                    let name = sent_name(crate::catalog::opt_view(file_name));
                    &&& crate::catalog::opt_view(field) == Some("file"@)
                    &&& u.wf()
                    &&& u.sent_as() == name
                    &&& u.at() == path_in(folder@, gateway::received_name(now, count, name))
                    &&& u.received() == 0
                    &&& !u.imported()
                },
                None => crate::catalog::opt_view(field) != Some("file"@),
            },
    {
        if !is_called(field, "file") {
            return None;
        }
        let name = match file_name {
            Some(n) => n.to_owned(),
            None => "archivo".to_owned(),
        };
        let mut path = folder.to_owned();
        if !folder.is_empty() && !ends_with(folder, "/") {
            path.append("/");
        }
        path.append(staged_name(now, count, name.as_str()).as_str());
        Some(Upload { name, staged: TempStagedFile::new(path), received: 0 })
    }

    /// What is done with the next field of a request, given by its name and the name of its
    /// file: the first one that is called `file` is received. A request that has no field left
    /// is answered.
    pub fn next(
        field: Option<(Option<&str>, Option<&str>)>,
        folder: &str,
        now: u128,
        count: u64,
    ) -> (r: UploadStep)
        ensures
            match field {
                None => r matches UploadStep::Answer(x) && gateway::is_refusal(
                    x,
                    Refusal::NoFileField,
                ),
                Some((name, file_name)) => if crate::catalog::opt_view(name) == Some("file"@) {
                    let sent = sent_name(crate::catalog::opt_view(file_name));
                    &&& r matches UploadStep::Receive(u) && u.wf() && u.sent_as() == sent && u.at()
                        == path_in(folder@, gateway::received_name(now, count, sent))
                        && u.received() == 0 && !u.imported()
                } else {
                    r is Skip
                },
            },
    {
        match field {
            None => UploadStep::Answer(Refusal::NoFileField.reply()),
            Some((name, file_name)) => match Upload::begin(name, file_name, folder, now, count) {
                Some(u) => UploadStep::Receive(u),
                None => UploadStep::Skip,
            },
        }
    }

    /// The name that it was sent under.
    pub fn name(&self) -> (r: &str)
        ensures
            r@ == self.sent_as(),
    {
        self.name.as_str()
    }

    /// Where it is received.
    pub fn path(&self) -> (r: &str)
        ensures
            r@ == self.at(),
    {
        self.staged.path()
    }

    /// Takes another piece of `len` bytes, to be written; the answer where it is too much.
    pub fn piece(&mut self, len: u64) -> (r: Option<Reply>)
        requires
            old(self).wf(),
        ensures
            final(self).wf(),
            final(self).sent_as() == old(self).sent_as(),
            final(self).at() == old(self).at(),
            final(self).imported() == old(self).imported(),
            match r {
                None => final(self).received() == old(self).received() + len,
                Some(x) => {
                    &&& old(self).received() + len > MAX_UPLOAD
                    &&& final(self).received() == old(self).received()
                    &&& gateway::is_refusal(x, Refusal::UploadTooLarge)
                },
            },
    {
        match received_after(self.received, len, MAX_UPLOAD) {
            Some(n) => {
                self.received = n;
                None
            },
            None => Some(Refusal::UploadTooLarge.reply()),
        }
    }

    /// The answer to what came of importing what was received.
    pub fn finish(&mut self, outcome: Result<AddedFile, String>) -> (r: Reply)
        ensures
            final(self).sent_as() == old(self).sent_as(),
            final(self).at() == old(self).at(),
            final(self).received() == old(self).received(),
            match outcome {
                Ok(added) => {
                    &&& final(self).imported()
                    &&& r.status == 200
                    &&& r.body == Body::File(added)
                },
                Err(e) => {
                    &&& final(self).imported() == old(self).imported()
                    &&& gateway::is_error(r, 400, e@)
                },
            },
    {
        match outcome {
            Ok(added) => {
                self.staged.commit();
                added_reply(added)
            },
            Err(e) => not_added_reply(e),
        }
    }

    /// What is to be removed when the upload is dropped: nothing once it was imported.
    pub fn leftover(&self) -> (r: Option<&str>)
        ensures
            match r {
                Some(p) => !self.imported() && p@ == self.at(),
                None => self.imported(),
            },
    {
        self.staged.leftover()
    }
}

// ---------------------------------------------------------------------------
// Posters
// ---------------------------------------------------------------------------
/// The answer where a poster is uploaded for a collection that does not exist.
pub fn poster_target(db: &Db, id: &str) -> (r: Option<Reply>)
    requires
        db.wf(),
    ensures
        match r {
            Some(x) => !db@.collections.contains_key(id@) && gateway::is_refusal(
                x,
                Refusal::CollectionMissing,
            ),
            None => db@.collections.contains_key(id@),
        },
{
    match db.get_collection(id) {
        Some(_) => None,
        None => Some(Refusal::CollectionMissing.reply()),
    }
}

/// `POST /api/collections/:id/poster`: a poster that is being received.
pub struct PosterUpload {
    id: String,
    file_name: String,
    bytes: Vec<u8>,
}

/// What is done with the next field of a request that uploads a poster.
pub enum PosterStep {
    /// It is received.
    Receive(PosterUpload),
    /// It is passed over.
    Skip,
    /// There is none, and the request is answered.
    Answer(Reply),
}

impl PosterUpload {
    /// The collection that it is for.
    pub closed spec fn collection(self) -> Seq<char> {
        self.id@
    }

    /// The name that it was sent under; empty where it has none.
    pub closed spec fn sent_as(self) -> Seq<char> {
        self.file_name@
    }

    /// What was received.
    pub closed spec fn received(self) -> Seq<u8> {
        self.bytes@
    }

    /// No more was received than is taken.
    pub open spec fn wf(self) -> bool {
        self.received().len() <= MAX_POSTER
    }

    /// Begins to receive a field, unless it is not called `poster`.
    pub fn begin(field: Option<&str>, id: &str, file_name: Option<&str>) -> (r: Option<Self>)
        ensures
            match r {
                Some(u) => {
                    &&& crate::catalog::opt_view(field) == Some("poster"@)
                    &&& u.wf()
                    &&& u.collection() == id@
                    &&& u.sent_as() == (match file_name {
                        Some(n) => n@,
                        None => Seq::empty(),
                    })
                    &&& u.received().len() == 0
                },
                None => crate::catalog::opt_view(field) != Some("poster"@),
            },
    {
        if !is_called(field, "poster") {
            return None;
        }
        let file_name = match file_name {
            Some(n) => n.to_owned(),
            None => {
                let e = String::new();
                assert(e@ =~= Seq::<char>::empty());
                e
            },
        };
        Some(PosterUpload { id: id.to_owned(), file_name, bytes: Vec::new() })
    }

    /// What is done with the next field of a request, given by its name and the name of its
    /// file: the first one that is called `poster` is received. A request that has no field
    /// left is answered.
    pub fn next(field: Option<(Option<&str>, Option<&str>)>, id: &str) -> (r: PosterStep)
        ensures
            match field {
                None => r matches PosterStep::Answer(x) && gateway::is_refusal(
                    x,
                    Refusal::NoPosterField,
                ),
                Some((name, file_name)) => if crate::catalog::opt_view(name) == Some("poster"@) {
                    &&& r matches PosterStep::Receive(u) && u.wf() && u.collection() == id@
                        && u.sent_as() == (match file_name {
                        Some(n) => n@,
                        None => Seq::empty(),
                    }) && u.received().len() == 0
                } else {
                    r is Skip
                },
            },
    {
        match field {
            None => PosterStep::Answer(Refusal::NoPosterField.reply()),
            Some((name, file_name)) => match PosterUpload::begin(name, id, file_name) {
                Some(u) => PosterStep::Receive(u),
                None => PosterStep::Skip,
            },
        }
    }

    /// Takes another piece; the answer where it is too much.
    pub fn piece(&mut self, piece: &[u8]) -> (r: Option<Reply>)
        requires
            old(self).wf(),
        ensures
            final(self).wf(),
            final(self).collection() == old(self).collection(),
            final(self).sent_as() == old(self).sent_as(),
            match r {
                None => final(self).received() == old(self).received() + piece@,
                Some(x) => {
                    &&& old(self).received().len() + piece@.len() > MAX_POSTER
                    &&& final(self).received() == old(self).received()
                    &&& gateway::is_refusal(x, Refusal::PosterTooLarge)
                },
            },
    {
        match received_after(self.bytes.len() as u64, piece.len() as u64, MAX_POSTER) {
            Some(_) => {
                self.bytes.extend_from_slice(piece);
                assert(self.bytes@ =~= old(self).bytes@ + piece@);
                None
            },
            None => Some(Refusal::PosterTooLarge.reply()),
        }
    }

    /// What was received.
    pub fn bytes(&self) -> (r: &[u8])
        ensures
            r@ == self.received(),
    {
        self.bytes.as_slice()
    }

    /// The file name to save the poster under, or the answer where it is refused.
    pub fn finish(&self) -> (r: Result<String, Reply>)
        requires
            self.wf(),
        ensures
            match r {
                Ok(name) => {
                    &&& gateway::poster_refusal(self.collection(), self.received()) is None
                    &&& name@ == posters::poster_name(self.collection(), self.sent_as())
                },
                Err(x) => {
                    &&& gateway::poster_refusal(self.collection(), self.received()) is Some
                    &&& gateway::is_refusal(
                        x,
                        gateway::poster_refusal(self.collection(), self.received())->0,
                    )
                },
            },
    {
        match check_poster(self.id.as_str(), self.file_name.as_str(), self.bytes.as_slice()) {
            Ok(name) => Ok(name),
            Err(why) => Err(why.reply()),
        }
    }
}

} // verus!
