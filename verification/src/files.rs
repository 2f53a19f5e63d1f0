//! The file index: the applications and the user's files that the launcher
//! can find by name, and the rules that say what counts as an application.

use std::path::PathBuf;
use vstd::prelude::*;
use vstd::string::*;
use crate::platform::Platform;
use crate::text::{
    is_substring, lowercase, lowercase_text, opt_text, same_text, text_contains,
};

verus! {

/// A path of the file system. Nothing inside it is visible here.
#[verifier::external_type_specification]
#[verifier::external_body]
pub struct ExPathBuf(PathBuf);

/// How many search results are returned at most.
pub const SEARCH_LIMIT: usize = 50;

/// How many recent files are returned at most.
pub const RECENT_LIMIT: usize = 20;

/// One indexed file or application.
#[derive(Debug)]
pub struct FileItem {
    pub name: String,
    pub path: String,
    pub file_type: String,
    pub size: u64,
    pub modified: u64,
    pub is_app: bool,
}

/// What an index entry holds.
pub ghost struct FileItemView {
    pub name: Seq<char>,
    pub path: Seq<char>,
    pub file_type: Seq<char>,
    pub size: u64,
    pub modified: u64,
    pub is_app: bool,
}

impl View for FileItem {
    type V = FileItemView;

    open spec fn view(&self) -> FileItemView {
        FileItemView {
            name: self.name@,
            path: self.path@,
            file_type: self.file_type@,
            size: self.size,
            modified: self.modified,
            is_app: self.is_app,
        }
    }
}

impl Clone for FileItem {
    /// A copy that holds the same as the entry.
    fn clone(&self) -> (r: Self)
        ensures
            r == *self,
    {
        FileItem {
            name: self.name.clone(),
            path: self.path.clone(),
            file_type: self.file_type.clone(),
            size: self.size,
            modified: self.modified,
            is_app: self.is_app,
        }
    }
}

/// The file index.
#[derive(Debug)]
pub struct FileSearchDatabase {
    pub files: Vec<FileItem>,
    pub apps: Vec<FileItem>,
    pub last_indexed: u64,
}

/// What the index holds.
pub ghost struct FileSearchDatabaseView {
    pub files: Seq<FileItemView>,
    pub apps: Seq<FileItemView>,
    pub last_indexed: u64,
}

/// The views of a list of entries, in order.
pub open spec fn file_views(items: Seq<FileItem>) -> Seq<FileItemView> {
    items.map_values(|i: FileItem| i@)
}

impl View for FileSearchDatabase {
    type V = FileSearchDatabaseView;

    open spec fn view(&self) -> FileSearchDatabaseView {
        FileSearchDatabaseView {
            files: file_views(self.files@),
            apps: file_views(self.apps@),
            last_indexed: self.last_indexed,
        }
    }
}

/// Whether a name matches a query: the query, in lower case, is a substring
/// of the name in lower case.
pub open spec fn name_matches(name: Seq<char>, query: Seq<char>) -> bool {
    is_substring(lowercase_text(query), lowercase_text(name))
}

/// The entries whose name matches the query, in their order.
pub open spec fn matching(items: Seq<FileItemView>, query: Seq<char>) -> Seq<FileItemView>
    decreases items.len(),
{
    if items.len() == 0 {
        Seq::empty()
    } else if name_matches(items.last().name, query) {
        matching(items.drop_last(), query).push(items.last())
    } else {
        matching(items.drop_last(), query)
    }
}

/// Where an entry modified at `modified` goes in a list ordered from newest
/// to oldest: behind every entry that is as new or newer.
pub open spec fn insert_position(sorted: Seq<FileItemView>, modified: u64) -> int
    decreases sorted.len(),
{
    if sorted.len() == 0 || sorted[0].modified < modified {
        0
    } else {
        1 + insert_position(sorted.skip(1), modified)
    }
}

/// The entries from newest to oldest; entries modified at the same time
/// keep their order.
pub open spec fn by_recency(items: Seq<FileItemView>) -> Seq<FileItemView>
    decreases items.len(),
{
    if items.len() == 0 {
        Seq::empty()
    } else {
        let rest = by_recency(items.drop_last());
        rest.insert(insert_position(rest, items.last().modified), items.last())
    }
}

/// Whether a list runs from newest to oldest.
pub open spec fn newest_first(items: Seq<FileItemView>) -> bool {
    forall|i: int, j: int|
        0 <= i < j < items.len() ==> (#[trigger] items[i]).modified >= (#[trigger] items[j]).modified
}

/// The place that `insert_position` gives lies in the list, everything
/// before it is as new as the entry or newer, and what stands at it is
/// older.
pub proof fn lemma_insert_position(sorted: Seq<FileItemView>, modified: u64)
    ensures
        0 <= insert_position(sorted, modified) <= sorted.len(),
        forall|j: int|
            0 <= j < insert_position(sorted, modified) ==> (#[trigger] sorted[j]).modified
                >= modified,
        insert_position(sorted, modified) < sorted.len() ==> sorted[insert_position(
            sorted,
            modified,
        )].modified < modified,
    decreases sorted.len(),
{
    if !(sorted.len() == 0 || sorted[0].modified < modified) {
        let rest = sorted.skip(1);
        lemma_insert_position(rest, modified);
        let p = insert_position(rest, modified);
        assert forall|j: int| 0 <= j < p + 1 implies (#[trigger] sorted[j]).modified >= modified by {
            if j > 0 {
                assert(rest[j - 1] == sorted[j]);
            }
        }
        if p < rest.len() {
            assert(rest[p] == sorted[p + 1]);
        }
    }
}

/// Ordering by recency rearranges the entries and drops none: the result
/// runs from newest to oldest and holds each entry as often as the list
/// did.
pub proof fn lemma_by_recency(items: Seq<FileItemView>)
    ensures
        newest_first(by_recency(items)),
        by_recency(items).len() == items.len(),
        by_recency(items).to_multiset() == items.to_multiset(),
    decreases items.len(),
{
    broadcast use {vstd::seq_lib::to_multiset_insert, vstd::seq_lib::to_multiset_build};

    if items.len() == 0 {
        assert(items =~= Seq::<FileItemView>::empty());
    } else {
        let front = items.drop_last();
        let x = items.last();
        let rest = by_recency(front);
        lemma_by_recency(front);
        lemma_insert_position(rest, x.modified);
        let p = insert_position(rest, x.modified);
        let r = rest.insert(p, x);
        rest.insert_ensures(p, x);
        assert forall|i: int, j: int| 0 <= i < j < r.len() implies (#[trigger] r[i]).modified >= (
        #[trigger] r[j]).modified by {
            if i < p && j == p {
                assert(r[i] == rest[i]);
            } else if i < p && j > p {
                assert(r[i] == rest[i]);
                assert(r[j] == rest[j - 1]);
            } else if i < p {
                assert(r[i] == rest[i]);
                assert(r[j] == rest[j]);
            } else if i == p {
                assert(r[j] == rest[j - 1]);
                assert(rest[p].modified < x.modified);
                if j - 1 > p {
                    assert(rest[p].modified >= rest[j - 1].modified);
                }
            } else {
                assert(r[i] == rest[i - 1]);
                assert(r[j] == rest[j - 1]);
            }
        }
        assert(items =~= front.push(x));
        assert(r.to_multiset() =~= rest.to_multiset().insert(x));
        assert(items.to_multiset() =~= front.to_multiset().insert(x));
    }
}

/// The first `limit` entries of a list, or all of it if it is shorter.
pub open spec fn at_most(items: Seq<FileItemView>, limit: usize) -> Seq<FileItemView> {
    if items.len() > limit {
        items.take(limit as int)
    } else {
        items
    }
}

impl FileSearchDatabaseView {
    /// The index after `file` was added: to the applications if it is one,
    /// to the files if not.
    pub open spec fn add_file(self, file: FileItemView) -> FileSearchDatabaseView {
        if file.is_app {
            FileSearchDatabaseView { apps: self.apps.push(file), ..self }
        } else {
            FileSearchDatabaseView { files: self.files.push(file), ..self }
        }
    }

    /// The result of a search: matching applications first, then matching
    /// files, cut off at the search limit.
    pub open spec fn search_files(self, query: Seq<char>) -> Seq<FileItemView> {
        at_most(matching(self.apps, query) + matching(self.files, query), SEARCH_LIMIT)
    }

    /// The files modified last, newest first, cut off at the limit.
    pub open spec fn recent_files(self) -> Seq<FileItemView> {
        at_most(by_recency(self.files), RECENT_LIMIT)
    }
}

/// Appends to `out` a copy of each entry of `items` that matches `query`.
fn push_matching(out: &mut Vec<FileItem>, items: &Vec<FileItem>, query_lower: &str, Ghost(query): Ghost<Seq<char>>)
    requires
        query_lower@ == lowercase_text(query),
    ensures
        file_views(final(out)@) == file_views(old(out)@) + matching(file_views(items@), query),
{
    let ghost all = file_views(items@);
    let mut i: usize = 0;
    assert(file_views(out@) =~= file_views(old(out)@) + matching(all.take(0), query));
    while i < items.len()
        invariant
            query_lower@ == lowercase_text(query),
            all == file_views(items@),
            i <= items@.len(),
            file_views(out@) == file_views(old(out)@) + matching(all.take(i as int), query),
        decreases items@.len() - i,
    {
        let name_lower = lowercase(items[i].name.as_str());
        assert(all.take(i + 1).drop_last() =~= all.take(i as int));
        assert(all.take(i + 1).last() == items@[i as int]@);
        let ghost upto = all.take(i + 1);
        let ghost before = file_views(out@);
        if text_contains(name_lower.as_str(), query_lower) {
            out.push(items[i].clone());
            assert(name_matches(upto.last().name, query));
            assert(matching(upto, query) == matching(upto.drop_last(), query).push(upto.last()));
            assert(file_views(out@) =~= before.push(items@[i as int]@));
            assert(file_views(out@) =~= file_views(old(out)@) + matching(upto, query));
        } else {
            assert(!name_matches(upto.last().name, query));
            assert(matching(upto, query) == matching(upto.drop_last(), query));
        }
        i += 1;
    }
    assert(all.take(items@.len() as int) =~= all);
}

impl FileSearchDatabase {
    /// An empty index that was never filled.
    pub fn new() -> (r: Self)
        ensures
            r@.files == Seq::<FileItemView>::empty(),
            r@.apps == Seq::<FileItemView>::empty(),
            r@.last_indexed == 0,
    {
        let r = FileSearchDatabase { files: Vec::new(), apps: Vec::new(), last_indexed: 0 };
        assert(r@.files =~= Seq::empty());
        assert(r@.apps =~= Seq::empty());
        r
    }

    /// Adds an entry: to the applications if it is one, to the files if
    /// not.
    pub fn add_file(&mut self, file: FileItem)
        ensures
            final(self)@ == old(self)@.add_file(file@),
    {
        if file.is_app {
            self.apps.push(file);
            assert(self@.apps =~= old(self)@.apps.push(file@));
        } else {
            self.files.push(file);
            assert(self@.files =~= old(self)@.files.push(file@));
        }
    }

    /// The entries whose name contains the query, letter case aside:
    /// applications first, then files, at most fifty in all.
    pub fn search_files(&self, query: &str) -> (r: Vec<FileItem>)
        ensures
            file_views(r@) == self@.search_files(query@),
    {
        let mut results: Vec<FileItem> = Vec::new();
        let query_lower = lowercase(query);
        assert(file_views(results@) =~= Seq::empty());
        push_matching(&mut results, &self.apps, query_lower.as_str(), Ghost(query@));
        push_matching(&mut results, &self.files, query_lower.as_str(), Ghost(query@));
        assert(file_views(results@) =~= matching(self@.apps, query@) + matching(
            self@.files,
            query@,
        ));
        let ghost all = file_views(results@);
        results.truncate(SEARCH_LIMIT);
        assert(file_views(results@) =~= at_most(all, SEARCH_LIMIT));
        results
    }

    /// A copy of the applications, in the order they were added.
    pub fn get_apps(&self) -> (r: Vec<FileItem>)
        ensures
            r@ == self.apps@,
    {
        let mut r: Vec<FileItem> = Vec::new();
        let mut i: usize = 0;
        while i < self.apps.len()
            invariant
                i <= self.apps@.len(),
                r@ == self.apps@.take(i as int),
            decreases self.apps@.len() - i,
        {
            r.push(self.apps[i].clone());
            assert(self.apps@.take(i + 1) =~= self.apps@.take(i as int).push(self.apps@[i as int]));
            i += 1;
        }
        assert(self.apps@.take(self.apps@.len() as int) =~= self.apps@);
        r
    }

    /// The twenty files modified last, newest first; files modified at the
    /// same time stay in the order they were added.
    pub fn get_recent_files(&self) -> (r: Vec<FileItem>)
        ensures
            file_views(r@) == self@.recent_files(),
    {
        let ghost all = self@.files;
        let mut sorted: Vec<FileItem> = Vec::new();
        let mut i: usize = 0;
        assert(file_views(sorted@) =~= by_recency(all.take(0)));
        while i < self.files.len()
            invariant
                all == file_views(self.files@),
                i <= self.files@.len(),
                sorted@.len() == i,
                file_views(sorted@) == by_recency(all.take(i as int)),
            decreases self.files@.len() - i,
        {
            let modified = self.files[i].modified;
            let ghost before = file_views(sorted@);
            let mut p: usize = 0;
            assert(before.skip(0) =~= before);
            while p < sorted.len() && sorted[p].modified >= modified
                invariant
                    before == file_views(sorted@),
                    p <= sorted@.len(),
                    insert_position(before, modified) == p + insert_position(
                        before.skip(p as int),
                        modified,
                    ),
                decreases sorted@.len() - p,
            {
                assert(before.skip(p as int)[0] == sorted@[p as int]@);
                assert(before.skip(p as int).skip(1) =~= before.skip(p + 1));
                p += 1;
            }
            proof {
                if p < sorted@.len() {
                    assert(before.skip(p as int)[0] == sorted@[p as int]@);
                }
                assert(insert_position(before, modified) == p);
                assert(all.take(i + 1).drop_last() =~= all.take(i as int));
                assert(all.take(i + 1).last() == self.files@[i as int]@);
            }
            sorted.insert(p, self.files[i].clone());
            assert(file_views(sorted@) =~= before.insert(p as int, self.files@[i as int]@));
            i += 1;
        }
        assert(all.take(self.files@.len() as int) =~= all);
        let ghost whole = file_views(sorted@);
        sorted.truncate(RECENT_LIMIT);
        assert(file_views(sorted@) =~= at_most(whole, RECENT_LIMIT));
        sorted
    }
}

/// The extension of a path as `Path::extension` gives it, where it is
/// valid Unicode: the part of the file name behind its last dot, so a text
/// without a dot. Which part of the path is the file name depends on the
/// operating system.
#[verifier::external_body]
fn path_extension(path: &PathBuf) -> (r: Option<String>)
    ensures
        r matches Some(e) ==> !e@.contains('.'),
{
    match path.extension() {
        Some(e) => match e.to_str() {
            Some(s) => Some(s.to_owned()),
            None => None,
        },
        None => None,
    }
}

/// The file type that stands for a raw extension: its lower-case form, or
/// that of the empty text where there is no extension.
pub open spec fn extension_text(raw: Option<Seq<char>>) -> Seq<char> {
    match raw {
        Some(e) => lowercase_text(e),
        None => lowercase_text(Seq::empty()),
    }
}

/// Whether a file type is that of an application on some system.
pub open spec fn is_app_text(ext: Seq<char>) -> bool {
    ||| ext == "app"@
    ||| ext == "exe"@
    ||| ext == "msi"@
    ||| ext == "deb"@
    ||| ext == "rpm"@
    ||| ext == "AppImage"@
}

/// The file type for a raw extension.
pub fn normalise_extension(raw: Option<&str>) -> (r: String)
    ensures
        r@ == extension_text(opt_text(raw)),
{
    match raw {
        Some(e) => lowercase(e),
        None => {
            proof {
                reveal_strlit("");
            }
            assert(""@ =~= Seq::<char>::empty());
            lowercase("")
        },
    }
}

/// Whether a file type is that of an application: `app` on macOS, `exe` and
/// `msi` on Windows, `deb`, `rpm` and `AppImage` on Linux.
pub fn is_app_extension(ext: &str) -> (r: bool)
    ensures
        r == is_app_text(ext@),
{
    same_text(ext, "app") || same_text(ext, "exe") || same_text(ext, "msi") || same_text(
        ext,
        "deb",
    ) || same_text(ext, "rpm") || same_text(ext, "AppImage")
}

/// The file type of a path: its extension in lower case, empty where the
/// path has none.
pub fn get_file_extension(path: &PathBuf) -> (r: String)
    ensures
        exists|raw: Option<Seq<char>>|
            (raw matches Some(e) ==> !e.contains('.')) && r@ == #[trigger] extension_text(raw),
{
    let raw = path_extension(path);
    match &raw {
        Some(e) => {
            let r = normalise_extension(Some(e.as_str()));
            assert(r@ == extension_text(Some(e@)));
            r
        },
        None => {
            let r = normalise_extension(None);
            assert(r@ == extension_text(None));
            r
        },
    }
}

/// Whether a path names an application, by its file type.
pub fn is_app_file(path: &PathBuf) -> (r: bool)
    ensures
        exists|raw: Option<Seq<char>>|
            (raw matches Some(e) ==> !e.contains('.')) && r == is_app_text(
                #[trigger] extension_text(raw),
            ),
{
    let extension = get_file_extension(path);
    is_app_extension(extension.as_str())
}

/// What an indexing pass looks for.
#[derive(Clone, Copy, Debug, PartialEq, Eq, Structural)]
pub enum IndexKind {
    /// Applications, in the system's application directories.
    Applications,
    /// Everything but applications, in the user's directories.
    UserFiles,
}

/// How deep below a root directory a pass of the given kind looks.
pub fn index_depth(kind: IndexKind) -> (r: usize)
    ensures
        r == match kind {
            IndexKind::Applications => 3usize,
            IndexKind::UserFiles => 4usize,
        },
{
    match kind {
        IndexKind::Applications => 3,
        IndexKind::UserFiles => 4,
    }
}

/// Whether a pass of the given kind indexes a directory entry with the
/// given file type: an application pass takes applications, a user-file
/// pass takes regular files that are none. The entry's name must be valid
/// Unicode and its size and modification time must be known.
pub open spec fn is_indexed(
    kind: IndexKind,
    file_type: Seq<char>,
    is_file: bool,
    has_name: bool,
    has_facts: bool,
) -> bool {
    &&& has_name
    &&& has_facts
    &&& match kind {
        IndexKind::Applications => is_app_text(file_type),
        IndexKind::UserFiles => is_file && !is_app_text(file_type),
    }
}

/// The index entry, if any, for a directory entry found by a pass of the
/// given kind. `extension` is the entry's raw extension, `facts` its size
/// and its modification time in seconds.
pub fn index_entry(
    kind: IndexKind,
    path: &str,
    name: Option<&str>,
    extension: Option<&str>,
    is_file: bool,
    facts: Option<(u64, u64)>,
) -> (r: Option<FileItem>)
    ensures
        r.is_some() == is_indexed(
            kind,
            extension_text(opt_text(extension)),
            is_file,
            name.is_some(),
            facts.is_some(),
        ),
        r matches Some(item) ==> item@ == (FileItemView {
            name: name.unwrap()@,
            path: path@,
            file_type: extension_text(opt_text(extension)),
            size: facts.unwrap().0,
            modified: facts.unwrap().1,
            is_app: kind == IndexKind::Applications,
        }),
{
    let file_type = normalise_extension(extension);
    let app = is_app_extension(file_type.as_str());
    let wanted = match kind {
        IndexKind::Applications => app,
        IndexKind::UserFiles => is_file && !app,
    };
    if !wanted {
        return None;
    }
    match (name, facts) {
        (Some(n), Some((size, modified))) => Some(
            FileItem {
                name: n.to_owned(),
                path: path.to_owned(),
                file_type,
                size,
                modified,
                is_app: match kind {
                    IndexKind::Applications => true,
                    IndexKind::UserFiles => false,
                },
            },
        ),
        _ => None,
    }
}

/// The index after each entry of `items` was added in turn.
pub open spec fn add_all(db: FileSearchDatabaseView, items: Seq<FileItemView>) -> FileSearchDatabaseView
    decreases items.len(),
{
    if items.len() == 0 {
        db
    } else {
        add_all(db, items.drop_last()).add_file(items.last())
    }
}

impl FileSearchDatabase {
    /// Adds a copy of each entry of `items`, in order.
    pub fn add_files(&mut self, items: &Vec<FileItem>)
        ensures
            final(self)@ == add_all(old(self)@, file_views(items@)),
    {
        let ghost all = file_views(items@);
        let mut i: usize = 0;
        while i < items.len()
            invariant
                all == file_views(items@),
                i <= items@.len(),
                self@ == add_all(old(self)@, all.take(i as int)),
            decreases items@.len() - i,
        {
            assert(all.take(i + 1).drop_last() =~= all.take(i as int));
            self.add_file(items[i].clone());
            i += 1;
        }
        assert(all.take(items@.len() as int) =~= all);
    }

    /// Replaces the index by what a fresh pass found at time `now`: the
    /// old entries go, then the applications found are added, then the
    /// files.
    pub fn refresh(&mut self, apps: &Vec<FileItem>, files: &Vec<FileItem>, now: u64)
        ensures
            final(self)@ == (FileSearchDatabaseView {
                last_indexed: now,
                ..add_all(
                    add_all(
                        FileSearchDatabaseView {
                            files: Seq::empty(),
                            apps: Seq::empty(),
                            last_indexed: old(self)@.last_indexed,
                        },
                        file_views(apps@),
                    ),
                    file_views(files@),
                )
            }),
    {
        self.files.clear();
        self.apps.clear();
        assert(self@.files =~= Seq::empty());
        assert(self@.apps =~= Seq::empty());
        self.add_files(apps);
        self.add_files(files);
        self.last_indexed = now;
    }
}

/// The directories that hold applications on the given system.
pub fn application_directories(platform: Platform) -> (r: Vec<String>)
    ensures
        r@.len() == 3,
        platform == Platform::MacOs ==> r@[0]@ == "/Applications"@ && r@[1]@
            == "/System/Applications"@ && r@[2]@ == "/System/Library/CoreServices"@,
        platform == Platform::Windows ==> r@[0]@ == "C:\\Program Files"@ && r@[1]@
            == "C:\\Program Files (x86)"@ && r@[2]@
            == "C:\\Users\\%USERNAME%\\AppData\\Local\\Programs"@,
        platform != Platform::MacOs && platform != Platform::Windows ==> r@[0]@
            == "/usr/share/applications"@ && r@[1]@ == "/usr/local/share/applications"@ && r@[2]@
            == "/var/lib/snapd/desktop/applications"@,
{
    let mut r: Vec<String> = Vec::new();
    match platform {
        Platform::MacOs => {
            r.push("/Applications".to_owned());
            r.push("/System/Applications".to_owned());
            r.push("/System/Library/CoreServices".to_owned());
        },
        Platform::Windows => {
            r.push("C:\\Program Files".to_owned());
            r.push("C:\\Program Files (x86)".to_owned());
            r.push("C:\\Users\\%USERNAME%\\AppData\\Local\\Programs".to_owned());
        },
        _ => {
            r.push("/usr/share/applications".to_owned());
            r.push("/usr/local/share/applications".to_owned());
            r.push("/var/lib/snapd/desktop/applications".to_owned());
        },
    }
    r
}

/// The directories below the user's home directory that are indexed.
pub fn user_directory_names() -> (r: Vec<String>)
    ensures
        r@.len() == 4,
        r@[0]@ == "Documents"@,
        r@[1]@ == "Downloads"@,
        r@[2]@ == "Desktop"@,
        r@[3]@ == "Pictures"@,
{
    let mut r: Vec<String> = Vec::new();
    r.push("Documents".to_owned());
    r.push("Downloads".to_owned());
    r.push("Desktop".to_owned());
    r.push("Pictures".to_owned());
    r
}

} // verus!
