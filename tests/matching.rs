use vscode_search::describe::{describe_parsed_uri, name_and_description_of_uri, name_from_uri, UrlParts};
use vscode_search::matcher::{find_matching_uris, score_uri, score_uris};
use vscode_search::ranking::rank_order;

fn strings(v: &[&str]) -> Vec<String> {
    v.iter().map(|s| s.to_string()).collect()
}

#[test]
fn rightmost_occurrence_scores_higher() {
    let terms = strings(&["mdcat"]);
    let deep = score_uri("file:///home/a/b/mdcat", &terms);
    let shallow = score_uri("file:///home/mdcat/b", &terms);
    // 18 / 22 and 14 / 20, in thousandths
    assert_eq!(deep, Some(818));
    assert_eq!(shallow, Some(700));
    assert!(deep > shallow);
}

#[test]
fn score_sums_over_terms() {
    // "dev" at 18 and "mdcat" at 22 in a URI of 27 characters: (19 + 23) / 27
    let terms = strings(&["dev", "mdcat"]);
    assert_eq!(score_uri("file:///home/user/dev/mdcat", &terms), Some(1555));
}

#[test]
fn term_at_start_still_scores() {
    let terms = strings(&["f"]);
    assert_eq!(score_uri("foo", &terms), Some(333));
}

#[test]
fn missing_term_gives_no_score() {
    let terms = strings(&["mdcat", "nothere"]);
    assert_eq!(score_uri("file:///home/user/dev/mdcat", &terms), None);
    let uris = strings(&["file:///home/user/dev/mdcat"]);
    assert!(find_matching_uris(uris, &terms).is_empty());
}

#[test]
fn empty_terms_match_nothing() {
    let terms: Vec<String> = Vec::new();
    assert_eq!(score_uri("file:///home/user/dev/mdcat", &terms), None);
    let uris = strings(&["file:///home/user/dev/mdcat", "file:///x"]);
    assert!(find_matching_uris(uris, &terms).is_empty());
}

#[test]
fn empty_candidate_has_no_score() {
    assert_eq!(score_uri("", &strings(&[""])), None);
    assert_eq!(score_uri("", &strings(&["a"])), None);
}

#[test]
fn matching_ignores_case() {
    let terms = strings(&["MDCAT"]);
    assert_eq!(score_uri("file:///home/user/dev/mdcat", &terms), Some(851));
    let terms = strings(&["dev"]);
    assert_eq!(score_uri("FILE:///HOME/USER/DEV/MDCAT", &terms), Some(703));
}

#[test]
fn matching_decodes_percent_escapes() {
    // Decoded: "file:///home/my project", 23 characters, term at 13.
    let terms = strings(&["my project"]);
    assert_eq!(score_uri("file:///home/my%20project", &terms), Some(608));
}

#[test]
fn undecodable_uri_is_scored_raw() {
    let terms = strings(&["%ff"]);
    assert_eq!(score_uri("a%ff", &terms), Some(500));
}

#[test]
fn ranking_is_deterministic() {
    let uris = strings(&[
        "file:///home/user/dev/mdcat",
        "file:///home/user/dev/gnome-shell",
        "file:///home/dev",
    ]);
    let terms = strings(&["dev"]);
    let first = find_matching_uris(uris.clone(), &terms);
    let second = find_matching_uris(uris, &terms);
    assert_eq!(first, second);
    assert_eq!(
        first,
        strings(&["file:///home/dev", "file:///home/user/dev/mdcat", "file:///home/user/dev/gnome-shell"])
    );
}

#[test]
fn equal_scores_keep_input_order() {
    let terms = strings(&["foo"]);
    let uris = strings(&["x/foo", "y/foo", "zz/foo"]);
    assert_eq!(
        find_matching_uris(uris, &terms),
        strings(&["zz/foo", "x/foo", "y/foo"])
    );
    let uris = strings(&["y/foo", "x/foo"]);
    assert_eq!(find_matching_uris(uris, &terms), strings(&["y/foo", "x/foo"]));
}

#[test]
fn rank_order_sorts_by_key_then_position() {
    let keys = vec![Some(5u128), None, Some(7), Some(5), Some(9), None];
    assert_eq!(rank_order(&keys), vec![4, 2, 0, 3]);
    assert!(rank_order(&Vec::new()).is_empty());
}

#[test]
fn scores_of_several_uris() {
    let uris = strings(&["file:///home/a/b/mdcat", "file:///home/x"]);
    let terms = strings(&["mdcat"]);
    assert_eq!(score_uris(&uris, &terms), vec![Some(818), None]);
}

#[test]
fn name_is_last_nonempty_segment() {
    assert_eq!(name_from_uri("/home/user/foo/"), Some("foo".to_string()));
    assert_eq!(name_from_uri("foo"), Some("foo".to_string()));
    assert_eq!(name_from_uri("a//b//"), Some("b".to_string()));
    assert_eq!(name_from_uri("///"), None);
    assert_eq!(name_from_uri(""), None);
}

#[test]
fn local_file_url_is_described_by_decoded_path() {
    let (name, description) = name_and_description_of_uri("file:///home/user/my%20dev/mdcat");
    assert_eq!(name, "mdcat");
    assert_eq!(description, "/home/user/my dev/mdcat");
}

#[test]
fn remote_url_is_described_by_decoded_url() {
    let (name, description) =
        name_and_description_of_uri("vscode-remote://ssh-remote%2Bhost/home/x/my%20proj");
    assert_eq!(name, "my proj");
    assert_eq!(description, "vscode-remote://ssh-remote+host/home/x/my proj");
}

#[test]
fn plain_path_is_described_by_itself() {
    let (name, description) = name_and_description_of_uri("/home/user/foo%20bar/");
    assert_eq!(name, "foo bar");
    assert_eq!(description, "/home/user/foo bar/");
}

#[test]
fn url_without_path_segments_is_named_by_itself() {
    let (name, description) = name_and_description_of_uri("file:///");
    assert_eq!(name, "file:///");
    assert_eq!(description, "/");
}

#[test]
fn description_from_given_parts() {
    let parts = UrlParts { scheme: "file".to_string(), has_host: false, path: "/a/b%20c".to_string() };
    let (name, description) =
        describe_parsed_uri("file:///a/b%20c", Some(parts), Some("/a/b c".to_string()), "file:///a/b c".to_string());
    assert_eq!(name, "b c");
    assert_eq!(description, "/a/b c");
    let parts = UrlParts { scheme: "file".to_string(), has_host: true, path: "/a".to_string() };
    let (name, description) =
        describe_parsed_uri("file://h/a", Some(parts), None, "file://h/a".to_string());
    assert_eq!(name, "file://h/a");
    assert_eq!(description, "file://h/a");
    let (name, description) = describe_parsed_uri("x/y", None, None, "x/y".to_string());
    assert_eq!(name, "y");
    assert_eq!(description, "x/y");
}
