//! The editors that this service provides search results for.

use vstd::prelude::*;
use vstd::string::*;
use crate::paths::{database_path_in, database_path_in_config_dir, joined};

verus! {

/// Where an editor keeps its configuration, relative to the configuration home.
#[derive(Debug, Copy, Clone)]
pub struct ConfigLocation<'a> {
    pub dirname: &'a str,
}

/// A search provider to expose from this service.
pub struct ProviderDefinition<'a> {
    /// A human readable label for this provider.
    pub label: &'a str,
    /// The ID (that is, the filename) of the desktop file of the corresponding app.
    pub desktop_id: &'a str,
    /// The relative object path to expose this provider at.
    pub relative_obj_path: &'a str,
    /// The location of the configuration for this app.
    pub config: ConfigLocation<'a>,
}

/// The prefix of the object paths of all providers.
pub open spec fn objpath_prefix() -> Seq<char> {
    "/de/swsnr/searchprovider/vscode/"@
}

impl ProviderDefinition<'_> {
    /// Gets the full object path for this provider.
    pub fn objpath(&self) -> (r: String)
        ensures
            r@ == objpath_prefix() + self.relative_obj_path@,
    {
        String::from_str("/de/swsnr/searchprovider/vscode/").concat(self.relative_obj_path)
    }
}

/// A provider with the given desktop ID, relative object path and
/// configuration directory.
pub open spec fn provider_is(p: ProviderDefinition, desktop_id: &str, obj_path: &str, dirname: &str) -> bool {
    p.desktop_id@ == desktop_id@ && p.relative_obj_path@ == obj_path@ && p.config.dirname@ == dirname@
}

/// Known search providers.
///
/// Each object path is unique, so that the service always launches the
/// application that belongs to the search provider.
pub fn providers() -> (r: Vec<ProviderDefinition<'static>>)
    ensures
        r@.len() == 4,
        provider_is(r@[0], "code-oss.desktop", "arch/codeoss", "Code - OSS"),
        provider_is(r@[1], "visual-studio-code.desktop", "aur/visualstudiocode", "Code"),
        provider_is(r@[2], "codium.desktop", "codium", "VSCodium"),
        provider_is(r@[3], "code.desktop", "official/code", "Code"),
{
    vec![
        // The standard Arch Linux code package from community
        ProviderDefinition {
            label: "Code OSS (Arch Linux)",
            desktop_id: "code-oss.desktop",
            relative_obj_path: "arch/codeoss",
            config: ConfigLocation { dirname: "Code - OSS" },
        },
        // The binary AUR package for visual studio code
        ProviderDefinition {
            label: "Visual Studio Code (AUR package)",
            desktop_id: "visual-studio-code.desktop",
            relative_obj_path: "aur/visualstudiocode",
            config: ConfigLocation { dirname: "Code" },
        },
        // The standard codium package on Linux
        ProviderDefinition {
            label: "VSCodium",
            desktop_id: "codium.desktop",
            relative_obj_path: "codium",
            config: ConfigLocation { dirname: "VSCodium" },
        },
        // The official install packages
        ProviderDefinition {
            label: "Visual Studio Code (Official package)",
            desktop_id: "code.desktop",
            relative_obj_path: "official/code",
            config: ConfigLocation { dirname: "Code" },
        },
    ]
}

/// The interface that reloads the items of all providers.
#[derive(Debug)]
pub struct ReloadAll;

/// One editor of the VSCode family: its application ID and the name of its
/// configuration directory.
#[derive(Copy, Clone)]
pub struct CodeVariant {
    pub app_id: &'static str,
    pub config_directory_name: &'static str,
}

impl CodeVariant {
    /// The global storage database of this editor, below the given
    /// configuration home.
    pub fn database_path(&self, config_home: &str) -> (r: String)
        ensures
            r@ == database_path_in(joined(config_home@, self.config_directory_name@)),
    {
        let dir = crate::paths::join(config_home, self.config_directory_name);
        database_path_in_config_dir(dir.as_str())
    }
}

} // verus!
