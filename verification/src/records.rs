//! The records of the catalog, each with the value that the contracts speak of.

use crate::paths;
use crate::paths::file_name;
use crate::policy::Policy;
use crate::table::Row;
use crate::text;
use crate::text::same;
use vstd::prelude::*;
use vstd::string::*;

verus! {

/// Kind of a row that is streamed.
pub const FILE_KIND_MEDIA: &'static str = "media";

/// Kind of a row that is only stored.
pub const FILE_KIND_FILE: &'static str = "file";

/// The value of a `FileRow`.
#[verifier::ext_equal]
pub struct FileRec {
    pub path: Seq<char>,
    pub hash: Seq<char>,
    pub size: u64,
    pub mime: Seq<char>,
    pub policy: Policy,
    pub host_id: Seq<char>,
    pub tag: Seq<char>,
    pub title: Seq<char>,
    pub watched: bool,
    pub kind: Seq<char>,
}

/// A listed file.
///
/// `tag` names the pin that keeps the content in the blob store. `title` is the title
/// shown, empty for the base name of `path`. `kind` tells what is streamed (`media`)
/// from what is only stored (`file`).
#[derive(Debug)]
pub struct FileRow {
    pub path: String,
    pub hash: String,
    pub size: u64,
    pub mime: String,
    pub policy: Policy,
    pub host_id: String,
    pub tag: String,
    pub title: String,
    pub watched: bool,
    pub kind: String,
}

impl View for FileRow {
    type V = FileRec;

    open spec fn view(&self) -> FileRec {
        FileRec {
            path: self.path@,
            hash: self.hash@,
            size: self.size,
            mime: self.mime@,
            policy: self.policy,
            host_id: self.host_id@,
            tag: self.tag@,
            title: self.title@,
            watched: self.watched,
            kind: self.kind@,
        }
    }
}

impl Row for FileRow {
    type Key = Seq<char>;

    type Rec = FileRec;

    open spec fn rec(self) -> FileRec {
        self@
    }

    open spec fn key(rec: FileRec) -> Seq<char> {
        rec.path
    }

    fn same_key(&self, other: &Self) -> (r: bool) {
        same(self.path.as_str(), other.path.as_str())
    }
}

impl Clone for FileRow {
    fn clone(&self) -> (r: Self)
        ensures
            r@ == self@,
    {
        FileRow {
            path: self.path.clone(),
            hash: self.hash.clone(),
            size: self.size,
            mime: self.mime.clone(),
            policy: self.policy,
            host_id: self.host_id.clone(),
            tag: self.tag.clone(),
            title: self.title.clone(),
            watched: self.watched,
            kind: self.kind.clone(),
        }
    }
}

/// The title to show: `title` unless it is blank, else the base name of the path, else
/// the path itself.
pub open spec fn shown_title(title: Seq<char>, path: Seq<char>) -> Seq<char> {
    if text::trimmed(title).len() > 0 {
        title
    } else {
        match paths::base_name(path) {
            Some(n) => n,
            None => path,
        }
    }
}

/// The title to show for a file.
pub fn title_to_show(title: &str, path: &str) -> (r: String)
    ensures
        r@ == shown_title(title@, path@),
{
    if !title.trim().is_empty() {
        return title.to_owned();
    }
    match file_name(path) {
        Some(n) => n,
        None => path.to_owned(),
    }
}

impl FileRow {
    /// The title to show: `title` if there is one, else the base name of the path.
    pub fn display_title(&self) -> (r: String)
        ensures
            r@ == shown_title(self@.title, self@.path),
    {
        title_to_show(self.title.as_str(), self.path.as_str())
    }
}

/// The columns of a stored file, as they are read back. A missing title, watched mark
/// or kind is `None`.
pub struct FileColumns {
    pub path: String,
    pub hash: String,
    pub size: i64,
    pub mime: String,
    pub policy: String,
    pub host_id: String,
    pub tag: String,
    pub title: Option<String>,
    pub watched: Option<i64>,
    pub kind: Option<String>,
}

/// The text of an optional column.
pub open spec fn column_or(c: Option<String>, other: Seq<char>) -> Seq<char> {
    match c {
        Some(s) => s@,
        None => other,
    }
}

/// The policy that a stored name stands for; `stream_only` for a name that is unknown.
pub open spec fn stored_policy(s: Seq<char>) -> Policy {
    if s == "host_only"@ {
        Policy::HostOnly
    } else if s == "mirror"@ {
        Policy::Mirror
    } else {
        Policy::StreamOnly
    }
}

/// The record of some columns, unless the size is negative.
pub open spec fn read_back(c: FileColumns) -> Option<FileRec> {
    if c.size < 0 {
        None
    } else {
        Some(
            FileRec {
                path: c.path@,
                hash: c.hash@,
                size: c.size as u64,
                mime: c.mime@,
                policy: stored_policy(c.policy@),
                host_id: c.host_id@,
                tag: c.tag@,
                title: column_or(c.title, Seq::empty()),
                watched: c.watched is Some && c.watched->0 != 0,
                kind: column_or(c.kind, "media"@),
            },
        )
    }
}

/// The row of some columns, unless the size is negative.
pub fn row_from(c: FileColumns) -> (r: Option<FileRow>)
    ensures
        match r {
            Some(row) => read_back(c) == Some(row@),
            None => read_back(c) is None,
        },
{
    if c.size < 0 {
        return None;
    }
    proof {
        reveal_strlit("host_only");
        reveal_strlit("stream_only");
        reveal_strlit("mirror");
        assert("host_only"@[0] != "mirror"@[0]);
        assert("host_only"@[0] != "stream_only"@[0]);
        assert("stream_only"@[0] != "mirror"@[0]);
    }
    let policy = match Policy::parse(c.policy.as_str()) {
        Ok(p) => p,
        Err(_) => {
            assert(c.policy@ != crate::policy::policy_name(Policy::HostOnly));
            assert(c.policy@ != crate::policy::policy_name(Policy::Mirror));
            Policy::default()
        },
    };
    let title = match c.title {
        Some(t) => t,
        None => {
            let t = String::new();
            assert(t@ =~= Seq::<char>::empty());
            t
        },
    };
    let watched = match c.watched {
        Some(w) => w != 0,
        None => false,
    };
    let kind = match c.kind {
        Some(k) => k,
        None => FILE_KIND_MEDIA.to_owned(),
    };
    Some(
        FileRow {
            path: c.path,
            hash: c.hash,
            size: c.size as u64,
            mime: c.mime,
            policy,
            host_id: c.host_id,
            tag: c.tag,
            title,
            watched,
            kind,
        },
    )
}

/// `c` are the columns that `f` is stored in.
pub open spec fn stores(c: FileColumns, f: FileRec) -> bool {
    &&& c.path@ == f.path
    &&& c.hash@ == f.hash
    &&& c.size == f.size
    &&& c.mime@ == f.mime
    &&& c.policy@ == crate::policy::policy_name(f.policy)
    &&& c.host_id@ == f.host_id
    &&& c.tag@ == f.tag
    &&& c.title is Some && c.title->0@ == f.title
    &&& c.watched == Some(
        if f.watched {
            1i64
        } else {
            0i64
        },
    )
    &&& c.kind is Some && c.kind->0@ == f.kind
}

/// The columns to store a row in.
pub fn columns_of(row: &FileRow) -> (r: FileColumns)
    requires
        row.size <= i64::MAX,
    ensures
        stores(r, row@),
{
    FileColumns {
        path: row.path.clone(),
        hash: row.hash.clone(),
        size: row.size as i64,
        mime: row.mime.clone(),
        policy: row.policy.as_str().to_owned(),
        host_id: row.host_id.clone(),
        tag: row.tag.clone(),
        title: Some(row.title.clone()),
        watched: Some(
            if row.watched {
                1
            } else {
                0
            },
        ),
        kind: Some(row.kind.clone()),
    }
}

/// A file that was stored is read back as it was.
pub proof fn law_a_stored_file_reads_back(c: FileColumns, f: FileRec)
    requires
        stores(c, f),
    ensures
        read_back(c) == Some(f),
{
    crate::policy::law_policy_names_differ(f.policy, Policy::HostOnly);
    crate::policy::law_policy_names_differ(f.policy, Policy::Mirror);
}

/// The value of a `Collection`.
#[verifier::ext_equal]
pub struct CollectionRec {
    pub id: Seq<char>,
    pub kind: Seq<char>,
    pub title: Seq<char>,
    pub poster_url: Seq<char>,
    pub poster_file: Seq<char>,
    pub created_at: i64,
    pub parent_id: Seq<char>,
    pub pos: i64,
}

/// A group of files: a series, a season of it, or a film. It is no folder on disk.
///
/// An empty `parent_id` marks a root; any other is the id of the root that the group
/// belongs to.
#[derive(Debug)]
pub struct Collection {
    pub id: String,
    pub kind: String,
    pub title: String,
    pub poster_url: String,
    pub poster_file: String,
    pub created_at: i64,
    pub parent_id: String,
    pub pos: i64,
}

impl View for Collection {
    type V = CollectionRec;

    open spec fn view(&self) -> CollectionRec {
        CollectionRec {
            id: self.id@,
            kind: self.kind@,
            title: self.title@,
            poster_url: self.poster_url@,
            poster_file: self.poster_file@,
            created_at: self.created_at,
            parent_id: self.parent_id@,
            pos: self.pos,
        }
    }
}

impl Row for Collection {
    type Key = Seq<char>;

    type Rec = CollectionRec;

    open spec fn rec(self) -> CollectionRec {
        self@
    }

    open spec fn key(rec: CollectionRec) -> Seq<char> {
        rec.id
    }

    fn same_key(&self, other: &Self) -> (r: bool) {
        same(self.id.as_str(), other.id.as_str())
    }
}

impl Clone for Collection {
    fn clone(&self) -> (r: Self)
        ensures
            r@ == self@,
    {
        Collection {
            id: self.id.clone(),
            kind: self.kind.clone(),
            title: self.title.clone(),
            poster_url: self.poster_url.clone(),
            poster_file: self.poster_file.clone(),
            created_at: self.created_at,
            parent_id: self.parent_id.clone(),
            pos: self.pos,
        }
    }
}

/// The columns of a stored collection, as they are read back. A missing parent or
/// position is `None`.
pub struct CollectionColumns {
    pub id: String,
    pub kind: String,
    pub title: String,
    pub poster_url: String,
    pub poster_file: String,
    pub created_at: i64,
    pub parent_id: Option<String>,
    pub pos: Option<i64>,
}

/// The collection of some columns.
pub fn collection_from(c: CollectionColumns) -> (r: Collection)
    ensures
        r@ == (CollectionRec {
            id: c.id@,
            kind: c.kind@,
            title: c.title@,
            poster_url: c.poster_url@,
            poster_file: c.poster_file@,
            created_at: c.created_at,
            parent_id: column_or(c.parent_id, Seq::empty()),
            pos: if c.pos is Some {
                c.pos->0
            } else {
                0
            },
        }),
{
    let parent_id = match c.parent_id {
        Some(p) => p,
        None => {
            let p = String::new();
            assert(p@ =~= Seq::<char>::empty());
            p
        },
    };
    let pos: i64 = match c.pos {
        Some(p) => p,
        None => 0,
    };
    Collection {
        id: c.id,
        kind: c.kind,
        title: c.title,
        poster_url: c.poster_url,
        poster_file: c.poster_file,
        created_at: c.created_at,
        parent_id,
        pos,
    }
}

/// The value of a `CollectionItem`.
#[verifier::ext_equal]
pub struct ItemRec {
    pub collection_id: Seq<char>,
    pub file_path: Seq<char>,
    pub season: Seq<char>,
    pub label: Seq<char>,
    pub pos: i64,
}

/// The entry of a file in a collection.
#[derive(Debug)]
pub struct CollectionItem {
    pub collection_id: String,
    pub file_path: String,
    pub season: String,
    pub label: String,
    pub pos: i64,
}

impl View for CollectionItem {
    type V = ItemRec;

    open spec fn view(&self) -> ItemRec {
        ItemRec {
            collection_id: self.collection_id@,
            file_path: self.file_path@,
            season: self.season@,
            label: self.label@,
            pos: self.pos,
        }
    }
}

impl Row for CollectionItem {
    type Key = (Seq<char>, Seq<char>);

    type Rec = ItemRec;

    open spec fn rec(self) -> ItemRec {
        self@
    }

    open spec fn key(rec: ItemRec) -> (Seq<char>, Seq<char>) {
        (rec.collection_id, rec.file_path)
    }

    fn same_key(&self, other: &Self) -> (r: bool) {
        same(self.collection_id.as_str(), other.collection_id.as_str()) && same(
            self.file_path.as_str(),
            other.file_path.as_str(),
        )
    }
}

impl Clone for CollectionItem {
    fn clone(&self) -> (r: Self)
        ensures
            r@ == self@,
    {
        CollectionItem {
            collection_id: self.collection_id.clone(),
            file_path: self.file_path.clone(),
            season: self.season.clone(),
            label: self.label.clone(),
            pos: self.pos,
        }
    }
}

/// The value of a `CollectionItemView`.
#[verifier::ext_equal]
pub struct ItemViewRec {
    pub file_path: Seq<char>,
    pub title: Seq<char>,
    pub hash: Seq<char>,
    pub size: u64,
    pub mime: Seq<char>,
    pub season: Seq<char>,
    pub label: Seq<char>,
    pub pos: i64,
    pub watched: bool,
}

/// An entry of a collection together with what is known of its file.
#[derive(Debug)]
pub struct CollectionItemView {
    pub file_path: String,
    pub title: String,
    pub hash: String,
    pub size: u64,
    pub mime: String,
    pub season: String,
    pub label: String,
    pub pos: i64,
    pub watched: bool,
}

impl View for CollectionItemView {
    type V = ItemViewRec;

    open spec fn view(&self) -> ItemViewRec {
        ItemViewRec {
            file_path: self.file_path@,
            title: self.title@,
            hash: self.hash@,
            size: self.size,
            mime: self.mime@,
            season: self.season@,
            label: self.label@,
            pos: self.pos,
            watched: self.watched,
        }
    }
}

/// A collection with its entries. Only a root has children, and they have none.
#[derive(Debug)]
pub struct CollectionDetail {
    pub collection: Collection,
    pub items: Vec<CollectionItemView>,
    pub children: Vec<CollectionDetail>,
}

/// A collection with how many entries its detail shows, and how many children.
#[derive(Debug)]
pub struct CollectionLine {
    pub collection: Collection,
    pub items: i64,
    pub children: i64,
}

/// A setting.
#[derive(Debug)]
pub struct Setting {
    pub key: String,
    pub val: String,
}

impl Row for Setting {
    type Key = Seq<char>;

    type Rec = (Seq<char>, Seq<char>);

    open spec fn rec(self) -> (Seq<char>, Seq<char>) {
        (self.key@, self.val@)
    }

    open spec fn key(rec: (Seq<char>, Seq<char>)) -> Seq<char> {
        rec.0
    }

    fn same_key(&self, other: &Self) -> (r: bool) {
        same(self.key.as_str(), other.key.as_str())
    }
}

/// What is published of a shared file.
#[derive(Debug)]
pub struct SharedFile {
    pub path: String,
    pub hash: String,
    pub size: u64,
    pub mime: String,
    pub policy: Policy,
    pub host_id: String,
}

} // verus!
