//! Joining relative path components, and the files this service reads.

use vstd::prelude::*;
use vstd::string::*;

verus! {

/// `base` and the relative component `part`, with one slash between them
/// unless `base` is empty or already ends in a slash.
pub open spec fn joined(base: Seq<char>, part: Seq<char>) -> Seq<char> {
    if base.len() == 0 || base.last() == '/' {
        base + part
    } else {
        base + seq!['/'] + part
    }
}

/// Joins a relative component to a path.
pub fn join(base: &str, part: &str) -> (r: String)
    ensures
        r@ == joined(base@, part@),
{
    let n = base.unicode_len();
    let start = String::from_str(base);
    if n == 0 || base.get_char(n - 1) == '/' {
        start.concat(part)
    } else {
        let slash = "/";
        proof {
            reveal_strlit("/");
        }
        let with_slash = start.concat(slash);
        assert(with_slash@ =~= base@ + seq!['/']);
        with_slash.concat(part)
    }
}

/// The global storage database below an editor's configuration directory.
pub open spec fn database_path_in(config_dir: Seq<char>) -> Seq<char> {
    joined(joined(joined(config_dir, "User"@), "globalStorage"@), "state.vscdb"@)
}

/// Returns the path of the global storage database in an editor's
/// configuration directory.
pub fn database_path_in_config_dir(directory: &str) -> (r: String)
    ensures
        r@ == database_path_in(directory@),
{
    let user = join(directory, "User");
    let storage = join(user.as_str(), "globalStorage");
    join(storage.as_str(), "state.vscdb")
}

} // verus!
