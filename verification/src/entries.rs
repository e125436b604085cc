//! The directory listing records that navigation installs and displays.
use vstd::prelude::*;

verus! {

/// One entry of a folder listing, Recent, or Trash.
#[derive(Clone, Debug, Default, PartialEq, Eq)]
pub struct FileEntry {
    pub path: String,
    pub name: String,
    pub directory: bool,
}

pub struct FileEntryView {
    pub path: Seq<char>,
    pub name: Seq<char>,
    pub directory: bool,
}

impl DeepView for FileEntry {
    type V = FileEntryView;

    open spec fn deep_view(&self) -> FileEntryView {
        FileEntryView { path: self.path@, name: self.name@, directory: self.directory }
    }
}

impl FileEntry {
    pub fn new(path: String, name: String, directory: bool) -> (r: Self)
        ensures
            r.path == path,
            r.name == name,
            r.directory == directory,
    {
        FileEntry { path, name, directory }
    }

    pub fn duplicate(&self) -> (r: Self)
        ensures
            r.deep_view() == self.deep_view(),
    {
        FileEntry { path: self.path.clone(), name: self.name.clone(), directory: self.directory }
    }

    pub fn is_directory(&self) -> (r: bool)
        ensures
            r == self.directory,
    {
        self.directory
    }
}

/// Where a trashed item came from and where it now lives.
#[derive(Clone, Debug, Default, PartialEq, Eq)]
pub struct TrashReceipt {
    pub original: String,
    pub trashed: String,
    pub info: String,
}

/// An item in the Trash: its receipt and its listing entry.
#[derive(Clone, Debug, Default, PartialEq, Eq)]
pub struct TrashEntry {
    pub receipt: TrashReceipt,
    pub file: FileEntry,
}

pub struct TrashEntryView {
    pub original: Seq<char>,
    pub trashed: Seq<char>,
    pub info: Seq<char>,
    pub file: FileEntryView,
}

impl DeepView for TrashEntry {
    type V = TrashEntryView;

    open spec fn deep_view(&self) -> TrashEntryView {
        TrashEntryView {
            original: self.receipt.original@,
            trashed: self.receipt.trashed@,
            info: self.receipt.info@,
            file: self.file.deep_view(),
        }
    }
}

impl TrashEntry {
    pub fn duplicate(&self) -> (r: Self)
        ensures
            r.deep_view() == self.deep_view(),
    {
        TrashEntry {
            receipt: TrashReceipt {
                original: self.receipt.original.clone(),
                trashed: self.receipt.trashed.clone(),
                info: self.receipt.info.clone(),
            },
            file: self.file.duplicate(),
        }
    }
}

/// A request to load the children of a sidebar tree node.
#[derive(Clone, Debug, Default, PartialEq, Eq)]
pub struct LoadRequest {
    pub id: u64,
    pub path: String,
}

pub struct LoadView {
    pub id: u64,
    pub path: Seq<char>,
}

impl DeepView for LoadRequest {
    type V = LoadView;

    open spec fn deep_view(&self) -> LoadView {
        LoadView { id: self.id, path: self.path@ }
    }
}

impl LoadRequest {
    pub fn duplicate(&self) -> (r: Self)
        ensures
            r.deep_view() == self.deep_view(),
    {
        LoadRequest { id: self.id, path: self.path.clone() }
    }
}

pub fn duplicate_load(load: &Option<LoadRequest>) -> (r: Option<LoadRequest>)
    ensures
        r.deep_view() == load.deep_view(),
{
    match load {
        Some(l) => Some(l.duplicate()),
        None => None,
    }
}

/// A folder listing as the scanner returns it.
#[derive(Clone, Debug, Default, PartialEq, Eq)]
pub struct OpenedDirectory {
    pub canonical_path: String,
    pub entries: Vec<FileEntry>,
    pub child_folders: Vec<String>,
}

pub struct OpenedView {
    pub canonical_path: Seq<char>,
    pub entries: Seq<FileEntryView>,
    pub child_folders: Seq<Seq<char>>,
}

impl DeepView for OpenedDirectory {
    type V = OpenedView;

    open spec fn deep_view(&self) -> OpenedView {
        OpenedView {
            canonical_path: self.canonical_path@,
            entries: self.entries.deep_view(),
            child_folders: self.child_folders.deep_view(),
        }
    }
}

pub fn duplicate_strings(v: &Vec<String>) -> (r: Vec<String>)
    ensures
        r.deep_view() == v.deep_view(),
{
    let mut r: Vec<String> = Vec::new();
    let mut i: usize = 0;
    while i < v.len()
        invariant
            i <= v@.len(),
            r@.len() == i,
            r.deep_view() == v.deep_view().take(i as int),
        decreases v@.len() - i,
    {
        r.push(v[i].clone());
        i = i + 1;
        assert(r.deep_view() =~= v.deep_view().take(i as int));
    }
    assert(v.deep_view().take(i as int) =~= v.deep_view());
    r
}

pub fn duplicate_entries(v: &Vec<FileEntry>) -> (r: Vec<FileEntry>)
    ensures
        r.deep_view() == v.deep_view(),
{
    let mut r: Vec<FileEntry> = Vec::new();
    let mut i: usize = 0;
    while i < v.len()
        invariant
            i <= v@.len(),
            r@.len() == i,
            r.deep_view() == v.deep_view().take(i as int),
        decreases v@.len() - i,
    {
        let ghost old_r = r@;
        let e = v[i].duplicate();
        r.push(e);
        proof {
            let rv = r.deep_view();
            let vv = v.deep_view().take(i + 1);
            assert(rv.len() == i + 1);
            assert(vv.len() == i + 1);
            assert forall|k: int| 0 <= k < rv.len() implies rv[k] == vv[k] by {
                if k < i {
                    assert(r@[k] == old_r[k]);
                }
            }
            assert(rv =~= vv);
        }
        i = i + 1;
    }
    assert(v.deep_view().take(i as int) =~= v.deep_view());
    r
}

pub fn duplicate_trash(v: &Vec<TrashEntry>) -> (r: Vec<TrashEntry>)
    ensures
        r.deep_view() == v.deep_view(),
{
    let mut r: Vec<TrashEntry> = Vec::new();
    let mut i: usize = 0;
    while i < v.len()
        invariant
            i <= v@.len(),
            r@.len() == i,
            r.deep_view() == v.deep_view().take(i as int),
        decreases v@.len() - i,
    {
        let ghost old_r = r@;
        let e = v[i].duplicate();
        r.push(e);
        proof {
            let rv = r.deep_view();
            let vv = v.deep_view().take(i + 1);
            assert(rv.len() == i + 1);
            assert(vv.len() == i + 1);
            assert forall|k: int| 0 <= k < rv.len() implies rv[k] == vv[k] by {
                if k < i {
                    assert(r@[k] == old_r[k]);
                }
            }
            assert(rv =~= vv);
        }
        i = i + 1;
    }
    assert(v.deep_view().take(i as int) =~= v.deep_view());
    r
}

} // verus!
