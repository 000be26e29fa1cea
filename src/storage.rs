//! The list of recently opened paths that an editor keeps in its global
//! storage, and the workspace URLs in it.

use vstd::prelude::*;

verus! {

/// A workspace file entry.
#[derive(Debug)]
pub struct WorkspaceEntry {
    pub config_path: String,
}

/// One recently opened path: a workspace, a folder or a single file.
#[derive(Debug)]
pub enum StorageOpenedPathsListEntry {
    Workspace { workspace: WorkspaceEntry },
    Folder { uri: String },
    File { uri: String },
}

/// The workspace URL of an entry: the configuration path of a workspace,
/// the URI of a folder, and none for a single file.
pub open spec fn workspace_url_of(e: StorageOpenedPathsListEntry) -> Option<String> {
    match e {
        StorageOpenedPathsListEntry::Workspace { workspace } => Some(workspace.config_path),
        StorageOpenedPathsListEntry::Folder { uri } => Some(uri),
        StorageOpenedPathsListEntry::File { .. } => None,
    }
}

/// The workspace URLs of the entries, in order, leaving out single files.
pub open spec fn workspace_urls_of(es: Seq<StorageOpenedPathsListEntry>) -> Seq<String>
    decreases es.len(),
{
    if es.len() == 0 {
        Seq::empty()
    } else {
        let prev = workspace_urls_of(es.drop_last());
        match workspace_url_of(es.last()) {
            Some(u) => prev.push(u),
            None => prev,
        }
    }
}

impl StorageOpenedPathsListEntry {
    /// Move this entry into a workspace URL.
    pub fn into_workspace_url(self) -> (r: Option<String>)
        ensures
            r == workspace_url_of(self),
    {
        match self {
            StorageOpenedPathsListEntry::Workspace { workspace } => Some(workspace.config_path),
            StorageOpenedPathsListEntry::Folder { uri } => Some(uri),
            StorageOpenedPathsListEntry::File { .. } => None,
        }
    }
}

/// The list of recently opened paths.
#[derive(Debug)]
pub struct StorageOpenedPathsList {
    pub entries: Option<Vec<StorageOpenedPathsListEntry>>,
}

/// The workspace URLs of an optional list of entries.
pub open spec fn list_urls(entries: Option<Vec<StorageOpenedPathsListEntry>>) -> Seq<String> {
    match entries {
        Some(es) => workspace_urls_of(es@),
        None => Seq::empty(),
    }
}

impl StorageOpenedPathsList {
    /// The workspace URLs of all entries, in order; single files are left out.
    pub fn into_workspace_urls(self) -> (r: Vec<String>)
        ensures
            r@ == list_urls(self.entries),
    {
        match self.entries {
            None => Vec::new(),
            Some(mut es) => {
                let ghost all = es@;
                // Take the entries from the back, then restore their order.
                let mut rev: Vec<String> = Vec::new();
                while es.len() > 0
                    invariant
                        es@ == all.take(es@.len() as int),
                        es@.len() <= all.len(),
                        workspace_urls_of(all) == workspace_urls_of(es@) + rev@.reverse(),
                    decreases es@.len(),
                {
                    let ghost before = es@;
                    let e = es.pop().unwrap();
                    assert(before.drop_last() =~= es@);
                    assert(es@ =~= all.take(es@.len() as int));
                    let ghost prev_rev = rev@;
                    match e.into_workspace_url() {
                        Some(u) => {
                            rev.push(u);
                            assert(rev@.reverse() =~= seq![u] + prev_rev.reverse());
                        },
                        None => {},
                    }
                }
                assert(es@ =~= Seq::<StorageOpenedPathsListEntry>::empty());
                let mut r: Vec<String> = Vec::new();
                let ghost want = rev@.reverse();
                while rev.len() > 0
                    invariant
                        want == r@ + rev@.reverse(),
                    decreases rev@.len(),
                {
                    let ghost before = rev@;
                    let u = rev.pop().unwrap();
                    assert(before.reverse() =~= seq![u] + rev@.reverse());
                    r.push(u);
                }
                assert(r@ =~= want);
                r
            },
        }
    }
}

} // verus!
