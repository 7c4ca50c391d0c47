use sandbox::actions::accept::{
    action_for, cleanup_order_of, prepare_renames, removal_steps, rename_tmp_path_of, staged_paths,
    with_extension_of, AcceptAction, accept_plan,
};
use sandbox::actions::delete::{delete_color, is_confirmed, DeleteColor};
use sandbox::actions::diff::{diff_step, replace_all, DiffStep};
use sandbox::actions::list::{listing_lines, matches_patterns, sandbox_name_from_lock};
use sandbox::actions::reject::reject_paths;
use sandbox::actions::status::report_changes;
use sandbox::sandbox::changes::change_entries::{ChangeEntries, ChangeEntry, ChangeError, EntryOperation, SetType};
use sandbox::sandbox::changes::file_details::{FileDetails, FileStat, S_IFCHR, S_IFDIR, S_IFLNK, S_IFREG};

fn details(path: &str, mode: u32) -> FileDetails {
    FileDetails { path: path.to_string(), stat: FileStat { st_mode: mode, st_uid: 1, st_gid: 2, st_rdev: 0 } }
}

fn change(dest: &str, op: EntryOperation, source: Option<FileDetails>, staged: Option<FileDetails>) -> ChangeEntry {
    ChangeEntry { destination: dest.to_string(), operation: op, source, staged, tmp_path: None }
}

#[test]
fn removals_come_first_and_deepest_first() {
    let list = vec![
        change("/a/b", EntryOperation::Remove, Some(details("/a/b", S_IFREG)), Some(details("/u/a/b", S_IFCHR))),
        change("/a", EntryOperation::Remove, Some(details("/a", S_IFDIR)), None),
        change("/c", EntryOperation::Write(SetType::Create), None, Some(details("/u/c", S_IFREG))),
    ];
    let steps = removal_steps(&list).unwrap();
    assert_eq!(steps.len(), 2);
    assert_eq!((steps[0].path.as_str(), steps[0].is_dir), ("/a/b", false));
    assert_eq!(steps[0].staged, Some("/u/a/b".to_string()));
    assert_eq!((steps[1].path.as_str(), steps[1].is_dir), ("/a", true));
    let missing = vec![change("/gone", EntryOperation::Remove, None, None)];
    assert_eq!(
        removal_steps(&missing).unwrap_err(),
        "Remove for file /gone didn't match an existing path to remove"
    );
    let special = vec![change("/dev/x", EntryOperation::Remove, Some(details("/dev/x", S_IFCHR)), None)];
    assert_eq!(
        removal_steps(&special).unwrap_err(),
        "Error removing /dev/x: cowardly refusing to remove special file"
    );
}

#[test]
fn renames_wait_in_a_flat_holding_area() {
    assert_eq!(
        rename_tmp_path_of(&"/w".to_string(), &"/x/old".to_string(), &"/y/new".to_string(), &"ID".to_string()),
        "/w/.rename-old-to-new-ID"
    );
    let mut list = vec![
        change("/y/new", EntryOperation::Rename, Some(details("/x/old", S_IFDIR)), Some(details("/u/y/new", S_IFDIR))),
        change("/z", EntryOperation::Remove, Some(details("/z", S_IFREG)), None),
    ];
    let pending = prepare_renames(&mut list, &"/w".to_string(), &vec!["ID".to_string()]);
    assert_eq!(pending.len(), 1);
    assert_eq!(pending[0].old_path, "/x/old");
    assert_eq!(pending[0].tmp_path, "/w/.rename-old-to-new-ID");
    assert_eq!(pending[0].new_path, "/y/new");
    assert_eq!(list[0].tmp_path, Some("/w/.rename-old-to-new-ID".to_string()));
    assert_eq!(list[1].tmp_path, None);
}

#[test]
fn each_change_has_an_action() {
    let id = "ID".to_string();
    let w = change("/d/f.txt", EntryOperation::Write(SetType::Create), None, Some(details("/u/f.txt", S_IFREG)));
    match action_for(&w, &id).unwrap() {
        AcceptAction::CopyFile { tmp, destination, .. } => {
            assert_eq!(tmp, "/d/f.ID");
            assert_eq!(destination, "/d/f.txt");
        },
        _ => panic!("expected a copy"),
    }
    let l = change("/d/l", EntryOperation::Write(SetType::Create), None, Some(details("/u/l", S_IFLNK)));
    assert!(matches!(action_for(&l, &id).unwrap(), AcceptAction::Link { .. }));
    let d = change("/d", EntryOperation::Write(SetType::Modify), None, Some(details("/u/d", S_IFDIR)));
    assert!(matches!(action_for(&d, &id).unwrap(), AcceptAction::Directory { .. }));
    let dev = change("/dev/x", EntryOperation::Write(SetType::Create), None, Some(details("/u/x", S_IFCHR)));
    assert_eq!(
        action_for(&dev, &id).unwrap_err(),
        "/dev/x - Error accepting character device file, we cannot move these. Please resolve this manually first."
    );
    let none = change("/n", EntryOperation::Write(SetType::Create), None, None);
    assert_eq!(action_for(&none, &id).unwrap_err(), "/n - invalid staged file");
    let err = change("/e", EntryOperation::Error(ChangeError::RedirectPathNotFound), None, None);
    assert_eq!(
        action_for(&err, &id).unwrap_err(),
        "/e - Redirect path not found. Was the underlying path moved or deleted?"
    );
    let r = change("/r", EntryOperation::Rename, None, None);
    assert!(matches!(action_for(&r, &id).unwrap(), AcceptAction::Fail { .. }));
    let rm = change("/rm", EntryOperation::Remove, None, None);
    assert!(matches!(action_for(&rm, &id).unwrap(), AcceptAction::Nothing));
}

#[test]
fn extensions_are_replaced() {
    assert_eq!(with_extension_of(&"/d/f.txt".to_string(), &"x".to_string()), "/d/f.x");
    assert_eq!(with_extension_of(&"/d/f".to_string(), &"x".to_string()), "/d/f.x");
    assert_eq!(with_extension_of(&"/d/.bashrc".to_string(), &"x".to_string()), "/d/.bashrc.x");
    assert_eq!(with_extension_of(&"/d/a.b.c".to_string(), &"x".to_string()), "/d/a.b.x");
    assert_eq!(with_extension_of(&"/".to_string(), &"x".to_string()), "/");
}

#[test]
fn staged_paths_are_cleaned_children_first() {
    let cleanup = cleanup_order_of(vec!["/u/a".to_string(), "/u/a/b".to_string(), "/u/a".to_string(), "/u/c".to_string()]);
    assert_eq!(cleanup, vec!["/u/c".to_string(), "/u/a/b".to_string(), "/u/a".to_string()]);
    assert!(staged_paths(&vec![], &vec![AcceptAction::Nothing]).is_empty());
}

#[test]
fn plans_refuse_error_changes() {
    let changes = ChangeEntries(vec![change("/e", EntryOperation::Error(ChangeError::UnsupportedFileType), None, None)]);
    assert_eq!(accept_plan(changes, &"/tmp".to_string()).unwrap_err(), "/e - Unsupported file type. Only files, directories, and symlinks are supported.");
    let empty = ChangeEntries(vec![]);
    let plan = accept_plan(empty, &"/tmp".to_string()).unwrap();
    assert!(plan.removals.is_empty() && plan.actions.is_empty() && plan.cleanup.is_empty());
    let missing = ChangeEntries(vec![change("/gone", EntryOperation::Remove, None, None)]);
    assert_eq!(
        accept_plan(missing, &"/tmp".to_string()).unwrap_err(),
        "Remove for file /gone didn't match an existing path to remove"
    );
}

#[test]
fn plans_remove_then_hold_renames_then_write() {
    let changes = ChangeEntries(vec![
        change("/h/new.txt", EntryOperation::Write(SetType::Create), None, Some(details("/u/h/new.txt", S_IFREG))),
        change("/h/old", EntryOperation::Remove, Some(details("/h/old", S_IFREG)), Some(details("/u/h/old", S_IFCHR))),
        change("/h/b", EntryOperation::Rename, Some(details("/h/a", S_IFREG)), Some(details("/u/h/b", S_IFREG))),
    ]);
    let plan = accept_plan(changes, &"/h".to_string()).unwrap();
    assert_eq!(plan.removals.len(), 1);
    assert_eq!(plan.removals[0].path, "/h/old");
    assert!(!plan.removals[0].is_dir);
    assert_eq!(plan.renames.len(), 1);
    assert_eq!(plan.renames[0].old_path, "/h/a");
    assert_eq!(plan.renames[0].new_path, "/h/b");
    assert!(plan.renames[0].tmp_path.starts_with("/h/.rename-a-to-b-"));
    assert_eq!(plan.actions.len(), 3);
    match &plan.actions[0] {
        AcceptAction::MoveFrom { tmp, destination, staged } => {
            assert_eq!(tmp, &plan.renames[0].tmp_path);
            assert_eq!(destination, "/h/b");
            assert_eq!(staged, &Some("/u/h/b".to_string()));
        },
        _ => panic!("the rename comes first by destination"),
    }
    match &plan.actions[1] {
        AcceptAction::CopyFile { staged, tmp, destination } => {
            assert_eq!(staged.path, "/u/h/new.txt");
            assert_eq!(destination, "/h/new.txt");
            assert!(tmp.starts_with("/h/new."));
            assert_ne!(tmp, "/h/new.txt");
        },
        _ => panic!("the write comes second by destination"),
    }
    assert!(matches!(plan.actions[2], AcceptAction::Nothing));
    assert_eq!(
        plan.cleanup,
        vec!["/u/h/old".to_string(), "/u/h/new.txt".to_string(), "/u/h/b".to_string()]
    );
}

#[test]
fn sandbox_names_and_listing() {
    assert_eq!(sandbox_name_from_lock("box.lock"), Some("box".to_string()));
    assert_eq!(sandbox_name_from_lock("box.pid"), None);
    assert!(matches_patterns("my-box", &vec![]));
    assert!(matches_patterns("my-box", &vec!["box".to_string()]));
    assert!(!matches_patterns("my-box", &vec!["other".to_string()]));
    let lines = listing_lines(&vec!["a".to_string()], &vec!["b".to_string()]);
    assert_eq!(
        lines,
        vec![
            ("Running sandboxes:".to_string(), false),
            ("a".to_string(), false),
            ("".to_string(), false),
            ("Stopped sandboxes:".to_string(), true),
            ("b".to_string(), true),
        ]
    );
    assert!(listing_lines(&vec![], &vec![]).is_empty());
}

#[test]
fn deleting_asks_first() {
    assert_eq!(delete_color(3, true), DeleteColor::Red);
    assert_eq!(delete_color(0, false), DeleteColor::Green);
    assert_eq!(delete_color(0, true), DeleteColor::White);
    assert!(is_confirmed(" Y\n"));
    assert!(is_confirmed("y"));
    assert!(!is_confirmed("yes"));
    assert!(!is_confirmed(""));
}

#[test]
fn rejecting_removes_each_staged_path_once() {
    let list = vec![
        change("/a", EntryOperation::Remove, Some(details("/a", S_IFREG)), Some(details("/u/a", S_IFDIR))),
        change("/a", EntryOperation::Write(SetType::Create), None, Some(details("/u/a", S_IFDIR))),
        change("/b", EntryOperation::Write(SetType::Create), None, Some(details("/u/b", S_IFREG))),
    ];
    assert_eq!(reject_paths(&list), vec![("/u/a".to_string(), true), ("/u/b".to_string(), false)]);
}

#[test]
fn status_reports_sections_in_order() {
    let list = ChangeEntries(vec![
        change("/w", EntryOperation::Write(SetType::Create), None, Some(details("/u/w", S_IFREG))),
        change("/r", EntryOperation::Remove, Some(details("/r", S_IFREG)), None),
        change("/e", EntryOperation::Error(ChangeError::UnsupportedFileType), None, None),
    ]);
    let shown = report_changes(list).unwrap();
    let ops: Vec<EntryOperation> = shown.iter().map(|c| c.operation).collect();
    assert_eq!(
        ops,
        vec![
            EntryOperation::Error(ChangeError::UnsupportedFileType),
            EntryOperation::Remove,
            EntryOperation::Write(SetType::Create),
        ]
    );
    let d = details("/x", S_IFDIR);
    let quiet = ChangeEntries(vec![change("/x", EntryOperation::Write(SetType::Modify), Some(d.clone()), Some(d))]);
    assert!(report_changes(quiet).is_none());
}

#[test]
fn differences_compare_the_right_files() {
    let moved = change("/new", EntryOperation::Rename, Some(details("/old", S_IFREG)), None);
    match diff_step(&moved, false, false) {
        DiffStep::Moved(m) => assert_eq!(m, "### Moved /old to /new"),
        _ => panic!("expected a move"),
    }
    let w = change("/f", EntryOperation::Write(SetType::Create), None, Some(details("/u/f", S_IFREG)));
    match diff_step(&w, false, false) {
        DiffStep::Compare { left, right } => {
            assert_eq!(left, "/dev/null");
            assert_eq!(right, "/u/f");
        },
        _ => panic!("expected a comparison"),
    }
    let d = change("/d", EntryOperation::Write(SetType::Create), None, Some(details("/u/d", S_IFDIR)));
    assert!(matches!(diff_step(&d, false, true), DiffStep::Skip));
    assert_eq!(replace_all("a/up/b/up", "/up", "<box>"), "a<box>/b<box>");
    assert_eq!(replace_all("abc", "", "-"), "-a-b-c-");
    assert_eq!(replace_all("aaa", "aa", "b"), "ba");
}

#[test]
fn plans_report_the_first_error_by_destination() {
    let changes = ChangeEntries(vec![
        change("/b", EntryOperation::Error(ChangeError::UnsupportedFileType), None, None),
        change("/a", EntryOperation::Error(ChangeError::UnsupportedFileType), None, None),
    ]);
    assert_eq!(
        accept_plan(changes, &"/tmp".to_string()).unwrap_err(),
        "/a - Unsupported file type. Only files, directories, and symlinks are supported."
    );
}
