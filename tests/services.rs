use std::collections::HashSet;

use vscode_search::paths::{database_path_in_config_dir, join};
use vscode_search::providers::{providers, CodeVariant};
use vscode_search::storage::{StorageOpenedPathsList, StorageOpenedPathsListEntry, WorkspaceEntry};
use vscode_search::systemd::escape_name;
use vscode_search::xdg::{desktop_file_candidates, DesktopEntry};

#[test]
fn desktop_ids_are_unique() {
    let mut ids = HashSet::new();
    for provider in providers() {
        ids.insert(provider.desktop_id);
    }
    assert_eq!(providers().len(), ids.len());
}

#[test]
fn dbus_paths_are_unique() {
    let mut paths = HashSet::new();
    for provider in providers() {
        paths.insert(provider.objpath());
    }
    assert_eq!(providers().len(), paths.len());
}

#[test]
fn objpath_is_below_the_service_path() {
    let p = &providers()[2];
    assert_eq!(p.objpath(), "/de/swsnr/searchprovider/vscode/codium");
}

#[test]
fn escape_name_follows_systemd_rules() {
    assert_eq!(escape_name(""), "");
    assert_eq!(escape_name("foo/bar"), "foo-bar");
    assert_eq!(escape_name("a.b:c_D9"), "a.b:c_D9");
    assert_eq!(escape_name(".hidden"), "\\x2ehidden");
    assert_eq!(escape_name("code-oss"), "code\\x2doss");
    assert_eq!(escape_name("a b"), "a\\x20b");
    assert_eq!(escape_name("ä"), "\\xc3\\xa4");
}

#[test]
fn workspace_urls_leave_out_files() {
    let list = StorageOpenedPathsList {
        entries: Some(vec![
            StorageOpenedPathsListEntry::Folder { uri: "file:///a".to_string() },
            StorageOpenedPathsListEntry::File { uri: "file:///b.txt".to_string() },
            StorageOpenedPathsListEntry::Workspace {
                workspace: WorkspaceEntry { config_path: "file:///c.code-workspace".to_string() },
            },
        ]),
    };
    assert_eq!(
        list.into_workspace_urls(),
        vec!["file:///a".to_string(), "file:///c.code-workspace".to_string()]
    );
    assert!(StorageOpenedPathsList { entries: None }.into_workspace_urls().is_empty());
    let file = StorageOpenedPathsListEntry::File { uri: "x".to_string() };
    assert_eq!(file.into_workspace_url(), None);
}

#[test]
fn database_path_below_config_home() {
    let code = CodeVariant { app_id: "code-oss", config_directory_name: "Code - OSS" };
    assert_eq!(
        code.database_path("/home/u/.config"),
        "/home/u/.config/Code - OSS/User/globalStorage/state.vscdb"
    );
    assert_eq!(
        database_path_in_config_dir("/etc/Code/"),
        "/etc/Code/User/globalStorage/state.vscdb"
    );
    assert_eq!(join("", "a"), "a");
}

#[test]
fn desktop_file_candidates_in_order() {
    let dirs = vec!["/usr/local/share/".to_string(), "/usr/share".to_string()];
    assert_eq!(
        desktop_file_candidates("code", "/home/u/.local/share", &dirs),
        vec![
            "/home/u/.local/share/applications/code.desktop".to_string(),
            "/usr/local/share/applications/code.desktop".to_string(),
            "/usr/share/applications/code.desktop".to_string(),
        ]
    );
}

#[test]
fn desktop_entry_accessors() {
    let entry = DesktopEntry::new("/usr/share/applications/code.desktop".to_string(), Some("vscode".to_string()));
    assert_eq!(entry.icon(), Some("vscode"));
    assert_eq!(entry.path(), "/usr/share/applications/code.desktop");
    assert_eq!(DesktopEntry::new("p".to_string(), None).icon(), None);
}
