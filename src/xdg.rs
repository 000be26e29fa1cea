//! Desktop entries of applications.

use vstd::prelude::*;
use vstd::string::*;
use crate::describe::opt_text;
use crate::paths::{join, joined};

verus! {

/// A desktop entry that was found: the file it was read from, and the icon
/// it names, if any.
#[derive(Debug)]
pub struct DesktopEntry {
    path: String,
    icon: Option<String>,
}

impl DesktopEntry {
    /// The file the entry was read from.
    pub closed spec fn path_view(&self) -> Seq<char> {
        self.path@
    }

    /// The icon that the entry names.
    pub closed spec fn icon_view(&self) -> Option<Seq<char>> {
        opt_text(self.icon)
    }

    /// The entry read from `path`, naming `icon`.
    pub fn new(path: String, icon: Option<String>) -> (r: DesktopEntry)
        ensures
            r.path_view() == path@,
            r.icon_view() == opt_text(icon),
    {
        DesktopEntry { path, icon }
    }

    /// The icon that the entry names, if any.
    pub fn icon(&self) -> (r: Option<&str>)
        ensures
            r matches Some(i) ==> self.icon_view() == Some(i@),
            r is None ==> self.icon_view() is None,
    {
        match &self.icon {
            Some(i) => Some(i.as_str()),
            None => None,
        }
    }

    /// The file the entry was read from.
    pub fn path(&self) -> (r: &str)
        ensures
            r@ == self.path_view(),
    {
        self.path.as_str()
    }
}

/// Where the desktop file of `app_id` may lie below a data directory.
pub open spec fn desktop_file_in(dir: Seq<char>, app_id: Seq<char>) -> Seq<char> {
    joined(joined(dir, "applications"@), app_id + ".desktop"@)
}

/// The files to look for the desktop entry of `app_id` in, in the order to
/// try them: below the user's data home first, then below each data
/// directory.
pub fn desktop_file_candidates(app_id: &str, data_home: &str, data_dirs: &Vec<String>) -> (r: Vec<String>)
    ensures
        r@.len() == data_dirs@.len() + 1,
        r@[0]@ == desktop_file_in(data_home@, app_id@),
        forall|k: int| 0 <= k < data_dirs@.len() ==> (#[trigger] r@[k + 1])@ == desktop_file_in(data_dirs@[k]@, app_id@),
{
    let file = String::from_str(app_id).concat(".desktop");
    let mut r: Vec<String> = Vec::new();
    let apps = join(data_home, "applications");
    r.push(join(apps.as_str(), file.as_str()));
    let mut k: usize = 0;
    while k < data_dirs.len()
        invariant
            file@ == app_id@ + ".desktop"@,
            k <= data_dirs@.len(),
            r@.len() == k + 1,
            r@[0]@ == desktop_file_in(data_home@, app_id@),
            forall|j: int| 0 <= j < k ==> (#[trigger] r@[j + 1])@ == desktop_file_in(data_dirs@[j]@, app_id@),
        decreases data_dirs@.len() - k,
    {
        let apps = join(data_dirs[k].as_str(), "applications");
        r.push(join(apps.as_str(), file.as_str()));
        k = k + 1;
    }
    r
}

} // verus!
