use sandbox::sandbox::changes::change_entries::{
    by_destination, by_reverse_source, by_staged_descending, ChangeEntries, ChangeEntry, ChangeError,
    ChangeOrder, EntryOperation, SetType,
};
use sandbox::sandbox::changes::changes::{
    ancestor_paths_of, entry_facts_from, opaque_ancestor_from, EntryReadings,
    changes_of_entry, count_result, get_source_lower_path_for_upper_path, has_opaque_ancestor,
    moved_source_paths, parse_ignore_content, source_candidate, EntryFacts, IgnorePattern,
    SourceCandidate, UpperEntry,
};
use sandbox::sandbox::changes::file_details::{
    details_from_stat, ENOENT, FileDetails, FileStat, S_IFBLK, S_IFCHR, S_IFDIR, S_IFIFO, S_IFLNK, S_IFMT, S_IFREG, S_IFSOCK,
};
use sandbox::sandbox::changes::upper::{
    built_in_ignore_patterns, ignore_file_candidates, ignore_levels_of, is_builtin_ignored,
    locate_upper_path, resolve_ignores, rules_ignore,
};

fn entry(dest: &str, op: EntryOperation) -> ChangeEntry {
    ChangeEntry { destination: dest.to_string(), operation: op, source: None, staged: None, tmp_path: None }
}

fn details(path: &str, mode: u32) -> FileDetails {
    FileDetails { path: path.to_string(), stat: FileStat { st_mode: mode, st_uid: 0, st_gid: 0, st_rdev: 0 } }
}

fn root_details() -> FileDetails {
    FileDetails::from_path(&"/".to_string()).unwrap().unwrap()
}

#[test]
fn test_pattern() {
    let assert_pattern_matches = |paths: &[&str], patterns: &[&str], expected: &[&str]| {
        let change_entries =
            ChangeEntries(paths.iter().map(|p| entry(p, EntryOperation::Write(SetType::Modify))).collect());
        let cwd = "/relative".to_string();
        let patterns: Vec<String> = patterns.iter().map(|p| p.to_string()).collect();
        let changes = change_entries.matching(&cwd, &patterns);
        assert_eq!(changes.0.len(), expected.len());
        for (i, e) in expected.iter().enumerate() {
            assert_eq!(changes.0[i].destination, e.to_string());
        }
    };

    assert_pattern_matches(
        &["/relative/path/to/file.rs", "/absolute/path/to/file.rs"],
        &["**/*.rs"],
        &["/relative/path/to/file.rs"],
    );
    assert_pattern_matches(
        &["/relative/path/to/file.rs", "/absolute/path/to/file.rs"],
        &["path/to/file.rs"],
        &["/relative/path/to/file.rs"],
    );
    assert_pattern_matches(
        &["/relative/path/to/file.rs", "/absolute/path/to/file.rs"],
        &["/absolute/path/to/file.rs"],
        &["/absolute/path/to/file.rs"],
    );
    assert_pattern_matches(
        &["/relative/path/to/file.rs", "/absolute/path/to/file.rs"],
        &["/**/*.rs"],
        &["/relative/path/to/file.rs", "/absolute/path/to/file.rs"],
    );
    assert_pattern_matches(
        &["/relative/path/to/file.rs", "/absolute/path/to/file.rs"],
        &["!/absolute/**/*.rs"],
        &["/relative/path/to/file.rs"],
    );
    assert_pattern_matches(
        &["/relative/src/foo1.c", "/relative/src/foo2.c"],
        &["src/"],
        &["/relative/src/foo1.c", "/relative/src/foo2.c"],
    );
    assert_pattern_matches(
        &["/relative/src/foo1.c", "/relative/src/foo2.c", "/up/a/dir/bar/baz.c"],
        &["../up/a"],
        &["/up/a/dir/bar/baz.c"],
    );
    assert_pattern_matches(
        &["/relative/src/foo1.c", "/relative/src/foo2.c", "/up/a/dir/bar/baz.c", "/up/another/dir/bar/baz.c"],
        &["../up/a"],
        &["/up/a/dir/bar/baz.c"],
    );
    assert_pattern_matches(
        &["/relative/src/foo1.c", "/relative/src/foo2.c", "/up/a/dir/bar/baz.c", "/up/another/dir/bar/baz.c"],
        &["**/baz.c"],
        &[],
    );
}

#[test]
fn test_change_entry_display() {
    let tmp = root_details();
    let mut change_entry = ChangeEntry {
        destination: "/root/test".to_string(),
        operation: EntryOperation::Write(SetType::Create),
        source: Some(tmp.clone()),
        staged: Some(tmp.clone()),
        tmp_path: None,
    };
    let cwd = "/".to_string();
    assert!(change_entry.display(&cwd).unwrap().contains("+"));
    change_entry.operation = EntryOperation::Write(SetType::Modify);
    assert!(change_entry.display(&cwd).unwrap().contains("~"));
    change_entry.operation = EntryOperation::Remove;
    assert!(change_entry.display(&cwd).unwrap().contains("-"));
    change_entry.operation = EntryOperation::Rename;
    assert!(change_entry.display(&cwd).unwrap().contains(">"));
    change_entry.operation = EntryOperation::Error(ChangeError::UnsupportedFileType);
    assert!(change_entry.display(&cwd).unwrap().contains("!"));
    change_entry.operation = EntryOperation::Rename;
    assert!(change_entry.display(&cwd).unwrap().contains(">"));
    change_entry.operation = EntryOperation::Rename;
    assert!(change_entry.display(&cwd).unwrap().contains(">"));
}

#[test]
fn test_change_entries_is_actually_modified() {
    let tmp = root_details();
    let change_entry = ChangeEntry {
        destination: "/root/test".to_string(),
        operation: EntryOperation::Write(SetType::Modify),
        source: Some(tmp.clone()),
        staged: None,
        tmp_path: None,
    };
    assert!(change_entry.is_actually_modified());
    let change_entry = ChangeEntry {
        destination: "/root/test".to_string(),
        operation: EntryOperation::Write(SetType::Modify),
        source: None,
        staged: Some(tmp.clone()),
        tmp_path: None,
    };
    assert!(change_entry.is_actually_modified());
}

#[test]
fn unchanged_directory_is_not_actually_modified() {
    let d = details("/x", S_IFDIR | 0o755);
    let change_entry = ChangeEntry {
        destination: "/x".to_string(),
        operation: EntryOperation::Write(SetType::Modify),
        source: Some(d.clone()),
        staged: Some(d.clone()),
        tmp_path: None,
    };
    assert!(!change_entry.is_actually_modified());
}

#[test]
fn test_by_staged_descending() {
    let mut change_entries = vec![
        entry("/tmp/test", EntryOperation::Write(SetType::Create)),
        entry("/tmp/test2", EntryOperation::Write(SetType::Create)),
    ];
    change_entries.sort_by(by_staged_descending);
    assert_eq!(change_entries[0].destination, "/tmp/test2".to_string());
    assert_eq!(change_entries[1].destination, "/tmp/test".to_string());
}

#[test]
fn comparisons_flip() {
    let a = entry("/a", EntryOperation::Remove);
    let b = entry("/b", EntryOperation::Remove);
    assert_eq!(by_destination(&a, &b), std::cmp::Ordering::Less);
    assert_eq!(by_destination(&b, &a), std::cmp::Ordering::Greater);
    assert_eq!(by_destination(&a, &a), std::cmp::Ordering::Equal);
    let mut with_source = entry("/c", EntryOperation::Remove);
    with_source.source = Some(details("/c", S_IFREG));
    assert_eq!(by_reverse_source(&with_source, &a), std::cmp::Ordering::Less);
    assert_eq!(by_reverse_source(&a, &with_source), std::cmp::Ordering::Greater);
}

#[test]
fn sorting_entries_is_stable() {
    let mut list = ChangeEntries(vec![
        entry("/b", EntryOperation::Remove),
        entry("/a", EntryOperation::Rename),
        entry("/a", EntryOperation::Remove),
    ]);
    list.sort_by(ChangeOrder::Destination);
    assert_eq!(list.0[0].operation, EntryOperation::Rename);
    assert_eq!(list.0[1].operation, EntryOperation::Remove);
    assert_eq!(list.0[2].destination, "/b");
    assert_eq!(list.len(), 3);
    assert!(!list.is_empty());
}

#[test]
fn test_has_opaque_ancestor() {
    assert!(!has_opaque_ancestor(&"/tmp/test-non-existent-path/foo".to_string()));
}

#[test]
fn root_has_no_opaque_ancestor() {
    assert!(!has_opaque_ancestor(&"/".to_string()));
}

#[test]
fn test_from_inaccessible_path() {
    assert!(FileDetails::from_path(&"/etc/passwd/is/not/a/directory".to_string()).is_err());
}

#[test]
fn test_is_renamed() {
    let mut tmp = root_details();
    tmp.path = "/root/test".to_string();
    assert!(tmp.is_renamed().is_err());
}

#[test]
fn test_display_type() {
    let mut tmp = root_details();
    tmp.path = "/root/test".to_string();
    assert_eq!(tmp.display_type(), "directory");
    tmp.stat.st_mode = S_IFREG;
    assert_eq!(tmp.display_type(), "file");
    tmp.stat.st_mode = S_IFLNK;
    assert_eq!(tmp.display_type(), "symlink");
    tmp.stat.st_mode = S_IFCHR;
    assert_eq!(tmp.display_type(), "character device");
    tmp.stat.st_mode = S_IFBLK;
    assert_eq!(tmp.display_type(), "block device");
    tmp.stat.st_mode = S_IFIFO;
    assert_eq!(tmp.display_type(), "FIFO");
    tmp.stat.st_mode = S_IFSOCK;
    assert_eq!(tmp.display_type(), "socket");
    tmp.stat.st_mode = S_IFMT;
    assert_eq!(tmp.display_type(), "unknown");
}

#[test]
fn test_file_details_from_empty_pathbuf_is_none() {
    let result = FileDetails::from_path(&String::new());
    assert!(result.is_ok());
    assert!(result.unwrap().is_none());
}

#[test]
fn whiteout_device_is_removed() {
    let d = details("/nowhere/at/all", S_IFCHR);
    assert!(d.is_removed());
    let mut other = details("/nowhere/at/all", S_IFCHR);
    other.stat.st_rdev = 0x0103;
    assert!(!other.is_removed());
}

fn patterns_of(text: &str) -> Vec<(bool, String)> {
    let mut p: Vec<IgnorePattern> = Vec::new();
    parse_ignore_content(text, &mut p);
    p.into_iter().map(|x| (x.negate, x.pattern)).collect()
}

#[test]
fn ignore_files_are_read() {
    assert_eq!(patterns_of("# comment\n\n"), vec![]);
    assert_eq!(patterns_of("target"), vec![(false, "**/target/**".to_string()), (false, "**/target".to_string())]);
    assert_eq!(patterns_of("/build/"), vec![(false, "build/**".to_string())]);
    assert_eq!(patterns_of("*.o"), vec![(false, "**/*.o".to_string())]);
    assert_eq!(patterns_of("!keep.o\r\n"), vec![(true, "**/keep.o/**".to_string()), (true, "**/keep.o".to_string())]);
    assert_eq!(patterns_of("\\!bang"), vec![(false, "**/!bang/**".to_string()), (false, "**/!bang".to_string())]);
    assert_eq!(patterns_of("a//b"), vec![(false, "a/b/**".to_string()), (false, "a/b".to_string())]);
    assert_eq!(patterns_of("**/x"), vec![(false, "**/x".to_string())]);
}

#[test]
fn ignore_rules_last_match_wins() {
    let rules = vec![
        vec![IgnorePattern { negate: false, pattern: "**/*.log".to_string() }],
        vec![IgnorePattern { negate: true, pattern: "keep.log".to_string() }],
    ];
    let relatives = vec!["dir/keep.log".to_string(), "keep.log".to_string()];
    assert!(!rules_ignore(&relatives, &rules));
    let relatives = vec!["dir/other.log".to_string(), "other.log".to_string()];
    assert!(rules_ignore(&relatives, &rules));
    assert_eq!(resolve_ignores(&vec![Some("*.o".to_string()), None]).len(), 1);
    assert!(resolve_ignores(&vec![None, None]).is_empty());
}

#[test]
fn built_in_rules_hide_temporary_and_git_files() {
    assert_eq!(built_in_ignore_patterns().len(), 5);
    assert!(is_builtin_ignored("/tmp/x"));
    assert!(is_builtin_ignored("/home/u/.cache/x"));
    assert!(is_builtin_ignored("/src/.git/config"));
    assert!(!is_builtin_ignored("/home/u/notes.txt"));
}

#[test]
fn upper_paths_are_located() {
    let loc = locate_upper_path("/s/upper", "/s/upper/F4/etc/hosts").unwrap().unwrap();
    assert_eq!(loc.base, "F4");
    assert_eq!(loc.base_decoded, "/");
    assert_eq!(loc.lower_path, "/etc/hosts");
    assert_eq!(loc.upper_root, "/s/upper/F4");
    assert_eq!(loc.upper_path, "/s/upper/F4/etc/hosts");
    assert!(locate_upper_path("/s/upper", "/s/upper/F4").unwrap().is_none());
    assert!(locate_upper_path("/s/upper", "/s/upper").unwrap().is_none());
    assert!(locate_upper_path("/s/upper", "/s/upper/!!/x").unwrap().is_none());
    assert!(locate_upper_path("/s/upper", "/other/x").is_err());
}

#[test]
fn ignore_levels_walk_down_from_the_mount() {
    let levels = ignore_levels_of("/", "/a/b/c", "/s/upper/F4").unwrap();
    assert_eq!(levels.len(), 3);
    assert_eq!(levels[0].lower_dir, "/a");
    assert_eq!(levels[0].upper_dir, "/s/upper/F4/a");
    assert_eq!(levels[0].relative, "b/c");
    assert_eq!(levels[2].relative, "");
    let files = ignore_file_candidates("/up", "/low");
    assert_eq!(files[0], ("/up/.gitignore".to_string(), "/low/.gitignore".to_string()));
    assert_eq!(files[1], ("/up/.ignore".to_string(), "/low/.ignore".to_string()));
}

fn upper_entry(source: Option<FileDetails>) -> UpperEntry {
    UpperEntry {
        lower_path: "/data/file".to_string(),
        upper_path: "/s/upper/F4/data/file".to_string(),
        upper_details: details("/s/upper/F4/data/file", S_IFREG),
        source_path: source.as_ref().map(|s| s.path.clone()),
        source_details: source,
    }
}

fn facts(removed: bool, renamed_now: bool) -> EntryFacts {
    EntryFacts {
        opaque: false,
        removed,
        source_is_dir: false,
        source_tree: vec![],
        upper_now: details("/s/upper/F4/data/file", S_IFREG),
        renamed_now,
        opaque_ancestor: false,
    }
}

#[test]
fn entries_become_changes() {
    let e = upper_entry(Some(details("/data/file", S_IFREG)));
    let c = changes_of_entry(&e, &vec![], &facts(false, false));
    assert_eq!(c.len(), 1);
    assert_eq!(c[0].operation, EntryOperation::Write(SetType::Modify));
    let e = upper_entry(None);
    let c = changes_of_entry(&e, &vec![], &facts(false, false));
    assert_eq!(c[0].operation, EntryOperation::Write(SetType::Create));
    let e = upper_entry(Some(details("/data/file", S_IFREG)));
    let c = changes_of_entry(&e, &vec![], &facts(true, false));
    assert_eq!(c.len(), 1);
    assert_eq!(c[0].operation, EntryOperation::Remove);
    assert_eq!(c[0].destination, "/data/file");
    let moved = vec!["/data/file".to_string()];
    let c = changes_of_entry(&e, &moved, &facts(true, false));
    assert!(c.is_empty());
    let e = upper_entry(None);
    let c = changes_of_entry(&e, &vec![], &facts(false, true));
    assert_eq!(c[0].operation, EntryOperation::Error(ChangeError::RedirectPathNotFound));
    let mut e = upper_entry(None);
    e.upper_details.stat.st_mode = S_IFIFO;
    let c = changes_of_entry(&e, &vec![], &facts(false, false));
    assert_eq!(c[0].operation, EntryOperation::Error(ChangeError::UnsupportedFileType));
}

#[test]
fn moved_sources_come_from_renamed_entries() {
    let entries = vec![upper_entry(Some(details("/data/file", S_IFREG))), upper_entry(None)];
    assert_eq!(moved_source_paths(&entries, &vec![true, true]), vec!["/data/file".to_string()]);
    assert!(moved_source_paths(&entries, &vec![false, true]).is_empty());
}

#[test]
fn counts_split_ignored_files() {
    let r = count_result(&vec![true, false, false]);
    assert_eq!(r.ignored, 1);
    assert_eq!(r.not_ignored, 2);
}

fn walk(seen: Vec<Option<Option<&str>>>) -> Vec<Option<Option<String>>> {
    seen.into_iter().map(|o| o.map(|r| r.map(|s| s.to_string()))).collect()
}

fn candidate(upper: &str, seen: Vec<Option<Option<&str>>>) -> Result<SourceCandidate, String> {
    source_candidate(
        &upper.to_string(),
        &"/s/upper/F4".to_string(),
        &upper.replacen("/s/upper/F4", "", 1),
        &"/".to_string(),
        &walk(seen),
    )
}

#[test]
fn sources_follow_the_walk_up() {
    match candidate("/s/upper/F4/a/b", vec![Some(None), Some(None), None]) {
        Ok(SourceCandidate::Path(p)) => assert_eq!(p, "/a/b"),
        other => panic!("unexpected {:?}", other),
    }
    match candidate("/s/upper/F4/a/b", vec![Some(None), Some(None), Some(None)]) {
        Ok(SourceCandidate::Path(p)) => assert_eq!(p, "/a/b"),
        other => panic!("unexpected {:?}", other),
    }
}

#[test]
fn sources_follow_redirects() {
    match candidate("/s/upper/F4/a/b", vec![Some(None), Some(Some("x"))]) {
        Ok(SourceCandidate::Path(p)) => assert_eq!(p, "/x/b"),
        other => panic!("unexpected {:?}", other),
    }
    match candidate("/s/upper/F4/a/b", vec![Some(Some("/y/z"))]) {
        Ok(SourceCandidate::UnderMount { lower, tail }) => {
            assert_eq!(lower, "/a/b");
            assert_eq!(tail, "y/z");
        },
        other => panic!("unexpected {:?}", other),
    }
}

#[test]
fn missing_upper_paths_have_no_source() {
    let r = get_source_lower_path_for_upper_path(
        &"/tmp/sandbox-missing-upper/F4/x".to_string(),
        &"/tmp/sandbox-missing-upper/F4".to_string(),
        &"/sandbox-missing-lower/x".to_string(),
        &"/sandbox-missing-lower-root".to_string(),
    );
    assert_eq!(r, Ok(None));
}

#[test]
fn status_lines_without_colour() {
    colored::control::set_override(false);
    let cwd = "/root/test".to_string();
    let mut e = ChangeEntry {
        destination: "/root/test/new".to_string(),
        operation: EntryOperation::Write(SetType::Create),
        source: Some(FileDetails {
            path: "/root/test/old".to_string(),
            stat: FileStat { st_mode: S_IFREG, st_uid: 0, st_gid: 0, st_rdev: 0 },
        }),
        staged: None,
        tmp_path: None,
    };
    assert_eq!(e.display(&cwd).unwrap(), "   + new");
    e.operation = EntryOperation::Write(SetType::Modify);
    assert_eq!(e.display(&cwd).unwrap(), "   ~ new");
    e.operation = EntryOperation::Remove;
    assert_eq!(e.display(&cwd).unwrap(), "   - old");
    e.operation = EntryOperation::Rename;
    assert_eq!(e.display(&cwd).unwrap(), "   > old -> new");
    e.operation = EntryOperation::Error(ChangeError::RedirectPathNotFound);
    assert_eq!(
        e.display(&cwd).unwrap(),
        "   ! new (error: Redirect path not found. Was the underlying path moved or deleted?)"
    );
    e.destination = "/elsewhere/x".to_string();
    e.operation = EntryOperation::Write(SetType::Create);
    assert_eq!(e.display(&cwd).unwrap(), "   + /elsewhere/x");
}

#[test]
fn non_matching_changes_are_counted() {
    let all = ChangeEntries(vec![
        entry("/w/a", EntryOperation::Remove),
        entry("/w/b", EntryOperation::Remove),
        entry("/x/c", EntryOperation::Remove),
    ]);
    let selected = all.matching(&"/w".to_string(), &vec![]);
    assert_eq!(selected.len(), 2);
    assert_eq!(ChangeEntries::calculate_non_matching_count(&all, &selected), 1);
    let one = all.matching(&"/w".to_string(), &vec!["b".to_string()]);
    assert_eq!(one.len(), 1);
    assert_eq!(one.0[0].destination, "/w/b");
    assert_eq!(ChangeEntries::calculate_non_matching_count(&all, &one), 2);
}

#[test]
fn stat_failures_name_the_path() {
    let e = FileDetails::from_path(&"/etc/passwd/is/not/a/directory".to_string()).unwrap_err();
    assert!(e.starts_with("Error getting stat for /etc/passwd/is/not/a/directory: "));
}

#[test]
fn no_upper_entries_give_no_changes() {
    let s = sandbox::sandbox::sandbox_struct::Sandbox::from_location("/tmp/store", "s", 0, 0);
    let c = s.changes(&vec![]).unwrap();
    assert!(c.is_empty());
}

#[test]
fn ancestors_are_listed_nearest_first() {
    let a = ancestor_paths_of(&"/a/b/c".to_string());
    assert_eq!(a, vec!["/a/b".to_string(), "/a".to_string(), "/".to_string()]);
    assert!(ancestor_paths_of(&"/".to_string()).is_empty());
}

#[test]
fn opaque_verdict_stops_at_the_first_unreadable_ancestor() {
    assert!(!opaque_ancestor_from(&vec![]));
    assert!(!opaque_ancestor_from(&vec![None]));
    assert!(opaque_ancestor_from(&vec![Some(false), Some(true)]));
    assert!(!opaque_ancestor_from(&vec![Some(false), None, Some(true)]));
    assert!(!opaque_ancestor_from(&vec![Some(false), Some(false)]));
}

#[test]
fn stat_outcomes_become_details() {
    let st = FileStat { st_mode: S_IFREG, st_uid: 1, st_gid: 2, st_rdev: 0 };
    let p = "/etc/passwd/is/not/a/directory".to_string();
    let d = details_from_stat(&"/x".to_string(), Ok(st)).unwrap().unwrap();
    assert_eq!(d.path, "/x");
    assert_eq!(d.stat, st);
    assert!(details_from_stat(&"".to_string(), Err(ENOENT)).unwrap().is_none());
    assert_eq!(
        details_from_stat(&p, Err(20)).unwrap_err(),
        "Error getting stat for /etc/passwd/is/not/a/directory: ENOTDIR: Not a directory"
    );
}

fn readings(upper_now: Option<FileDetails>) -> EntryReadings {
    EntryReadings {
        upper_now,
        source_is_dir: false,
        opaque: false,
        removed: false,
        walked: vec![],
        tree: vec![],
        renamed_now: false,
        opaque_ancestor: false,
    }
}

#[test]
fn entry_facts_need_the_upper_path() {
    let e = upper_entry(None);
    assert_eq!(
        entry_facts_from(&e, &vec![], readings(None)).unwrap_err(),
        "Failed to get file details for upper path"
    );
}

#[test]
fn entry_facts_walk_a_removed_source_directory() {
    let e = upper_entry(Some(details("/data/file", S_IFDIR)));
    let mut rd = readings(Some(details("/s/upper/F4/data/file", S_IFCHR)));
    rd.removed = true;
    rd.source_is_dir = true;
    rd.walked = vec!["/data/file".to_string(), "/data/file/x".to_string()];
    rd.tree = vec![Some(details("/data/file", S_IFDIR)), None];
    assert_eq!(
        entry_facts_from(&e, &vec![], rd.clone()).unwrap_err(),
        "File details should always exist for existing paths"
    );
    rd.tree = vec![Some(details("/data/file", S_IFDIR)), Some(details("/data/file/x", S_IFREG))];
    rd.renamed_now = true;
    rd.opaque_ancestor = true;
    let f = entry_facts_from(&e, &vec![], rd.clone()).unwrap();
    assert_eq!(f.source_tree.len(), 2);
    assert_eq!(f.source_tree[1].path, "/data/file/x");
    assert!(f.removed && !f.renamed_now && !f.opaque_ancestor);
    let moved = vec!["/data/file".to_string()];
    let g = entry_facts_from(&e, &moved, readings(Some(details("/s/upper/F4/data/file", S_IFCHR)))).unwrap();
    assert!(g.source_tree.is_empty());
}

#[test]
fn redirect_reads_report_the_path() {
    let nul = details("/have/\0a/null/byte", S_IFREG);
    assert_eq!(
        nul.is_renamed().unwrap_err(),
        "Failed to create CString from path: nul byte found in provided data at position: 6"
    );
    let gone = details("/nonexistent-sandbox-path/x", S_IFREG);
    assert_eq!(gone.is_renamed().unwrap_err(), "Error getting xattr data for /nonexistent-sandbox-path/x: 2");
}
