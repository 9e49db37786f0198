use lsr::hidden::is_hidden;
use lsr::modes::format_mode;
use lsr::modes::format_modes;
use lsr::modes::EntryMeta;
use lsr::resolve::resolve;
use lsr::resolve::PathInfo;
use lsr::resolve::ResolveError;

fn strings(names: &[&str]) -> Vec<String> {
    names.iter().map(|n| n.to_string()).collect()
}

#[test]
fn hidden_dot_basename() {
    assert!(is_hidden(".bashrc"));
    assert!(is_hidden("/home/user/.config"));
    assert!(is_hidden("dir/.git"));
}

#[test]
fn hidden_plain_basename() {
    assert!(!is_hidden("file.txt"));
    assert!(!is_hidden("/usr/bin/ls"));
    assert!(!is_hidden("dir/sub/name"));
}

#[test]
fn hidden_needs_a_base_name() {
    assert!(!is_hidden(""));
    assert!(!is_hidden("/"));
    assert!(!is_hidden("."));
    assert!(!is_hidden(".."));
    assert!(!is_hidden("a/."));
    assert!(!is_hidden("a/.."));
    assert!(!is_hidden("a/./."));
}

#[test]
fn hidden_sees_past_trailing_components() {
    assert!(!is_hidden("dir/"));
    assert!(is_hidden(".foo/"));
    assert!(is_hidden(".hidden/."));
}

#[test]
fn hidden_dotted_normal_names() {
    assert!(!is_hidden("not.hidden"));
    assert!(is_hidden("..foo"));
    assert!(is_hidden("..."));
}

#[test]
fn visible_file_is_listed() {
    let paths = strings(&["notes.txt"]);
    let infos = vec![PathInfo::File];
    let r = resolve(&paths, &infos, false).unwrap();
    assert_eq!(r, strings(&["notes.txt"]));
}

#[test]
fn hidden_file_needs_flag() {
    let paths = strings(&["/home/user/.profile"]);
    let infos = vec![PathInfo::File];
    let r = resolve(&paths, &infos, false).unwrap();
    assert_eq!(r, Vec::<String>::new());
    let infos = vec![PathInfo::File];
    let r = resolve(&paths, &infos, true).unwrap();
    assert_eq!(r, strings(&["/home/user/.profile"]));
}

#[test]
fn directory_lists_non_dot_children() {
    let paths = strings(&["d"]);
    let children = strings(&["d/a.txt", "d/.hidden", "d/b", "d/.also"]);
    let infos = vec![PathInfo::Directory(children)];
    let r = resolve(&paths, &infos, false).unwrap();
    assert_eq!(r, strings(&["d/a.txt", "d/b"]));
}

#[test]
fn directory_lists_all_children_with_flag() {
    let paths = strings(&["d"]);
    let children = strings(&["d/a.txt", "d/.hidden", "d/b"]);
    let infos = vec![PathInfo::Directory(children)];
    let r = resolve(&paths, &infos, true).unwrap();
    assert_eq!(r, strings(&["d/a.txt", "d/.hidden", "d/b"]));
}

#[test]
fn directory_itself_never_listed() {
    let paths = strings(&["empty"]);
    let infos = vec![PathInfo::Directory(Vec::new())];
    let r = resolve(&paths, &infos, true).unwrap();
    assert_eq!(r, Vec::<String>::new());
}

#[test]
fn missing_path_is_not_found() {
    let paths = strings(&["/definitely/nonexistent/path"]);
    let infos = vec![PathInfo::Missing];
    match resolve(&paths, &infos, false) {
        Err(ResolveError::NotFound(p)) => assert_eq!(p, "/definitely/nonexistent/path"),
        _ => panic!("expected NotFound"),
    }
}

#[test]
fn unreadable_directory_is_io_error() {
    let paths = strings(&["locked"]);
    let infos = vec![PathInfo::UnreadableDirectory];
    assert!(matches!(resolve(&paths, &infos, false), Err(ResolveError::IoError)));
}

#[test]
fn other_kinds_are_skipped() {
    let paths = strings(&["/dev/null", "plain"]);
    let infos = vec![PathInfo::Other, PathInfo::File];
    let r = resolve(&paths, &infos, false).unwrap();
    assert_eq!(r, strings(&["plain"]));
}

#[test]
fn entries_keep_request_order() {
    let paths = strings(&["one", "d", "two"]);
    let infos = vec![
        PathInfo::File,
        PathInfo::Directory(strings(&["d/x", "d/y"])),
        PathInfo::File,
    ];
    let r = resolve(&paths, &infos, false).unwrap();
    assert_eq!(r, strings(&["one", "d/x", "d/y", "two"]));
}

#[test]
fn resolution_fails_fast_without_partial_results() {
    let paths = strings(&["first", "/gone", "last"]);
    let infos = vec![PathInfo::File, PathInfo::Missing, PathInfo::File];
    match resolve(&paths, &infos, false) {
        Err(ResolveError::NotFound(p)) => assert_eq!(p, "/gone"),
        _ => panic!("expected NotFound"),
    }
}

#[test]
fn first_error_wins() {
    let paths = strings(&["/gone", "locked"]);
    let infos = vec![PathInfo::Missing, PathInfo::UnreadableDirectory];
    assert!(matches!(resolve(&paths, &infos, false), Err(ResolveError::NotFound(_))));
}

#[test]
fn mode_of_owner_read_write_file() {
    assert_eq!(format_mode(false, 0o600), "-rw-");
}

#[test]
fn mode_of_full_owner_directory() {
    assert_eq!(format_mode(true, 0o700), "drwx");
}

#[test]
fn mode_of_no_permissions() {
    assert_eq!(format_mode(false, 0o000), "----");
}

#[test]
fn mode_ignores_group_and_other_bits() {
    assert_eq!(format_mode(false, 0o644), "-rw-");
    assert_eq!(format_mode(false, 0o077), "----");
    assert_eq!(format_mode(true, 0o755), "drwx");
}

#[test]
fn mode_execute_only() {
    assert_eq!(format_mode(false, 0o100), "---x");
}

#[test]
fn modes_one_output_per_input() {
    let entries = vec![
        EntryMeta { is_dir: false, mode: 0o600 },
        EntryMeta { is_dir: true, mode: 0o700 },
        EntryMeta { is_dir: false, mode: 0o000 },
    ];
    let r = format_modes(&entries);
    assert_eq!(r.len(), entries.len());
    assert_eq!(r, vec!["-rw-".to_string(), "drwx".to_string(), "----".to_string()]);
}

#[test]
fn modes_of_empty_list() {
    let r = format_modes(&Vec::new());
    assert!(r.is_empty());
}

#[test]
fn config_carries_the_request() {
    let c = lsr::Config { paths: strings(&[".", "src"]), long: true, hidden: false };
    assert_eq!(c.paths.len(), 2);
    assert!(c.long);
    assert!(!c.hidden);
}
