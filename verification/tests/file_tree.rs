use castcodes::file_tree::{sort_entries_for_file_tree, TreeEntryKey};
use std::cmp::Ordering;

fn dir(name: &str) -> TreeEntryKey {
    TreeEntryKey { is_dir: true, name: Some(name.to_string()) }
}

fn file(name: &str) -> TreeEntryKey {
    TreeEntryKey { is_dir: false, name: Some(name.to_string()) }
}

#[test]
fn directories_come_before_files() {
    assert_eq!(sort_entries_for_file_tree(Some(&dir("z")), Some(&file("a"))), Ordering::Less);
    assert_eq!(sort_entries_for_file_tree(Some(&file("a")), Some(&dir("z"))), Ordering::Greater);
}

#[test]
fn dotfiles_come_first_within_a_group() {
    assert_eq!(sort_entries_for_file_tree(Some(&file(".env")), Some(&file("Cargo.toml"))), Ordering::Less);
    assert_eq!(sort_entries_for_file_tree(Some(&dir("src")), Some(&dir(".git"))), Ordering::Greater);
    assert_eq!(sort_entries_for_file_tree(Some(&file(".a")), Some(&file(".b"))), Ordering::Less);
}

#[test]
fn names_sort_alphabetically() {
    assert_eq!(sort_entries_for_file_tree(Some(&file("lib.rs")), Some(&file("main.rs"))), Ordering::Less);
    assert_eq!(sort_entries_for_file_tree(Some(&file("b")), Some(&file("B"))), Ordering::Greater);
    assert_eq!(sort_entries_for_file_tree(Some(&file("ab")), Some(&file("abc"))), Ordering::Less);
    assert_eq!(sort_entries_for_file_tree(Some(&file("same")), Some(&file("same"))), Ordering::Equal);
}

#[test]
fn missing_entries_sort_first_and_equal() {
    assert_eq!(sort_entries_for_file_tree(None, None), Ordering::Equal);
    assert_eq!(sort_entries_for_file_tree(None, Some(&file("a"))), Ordering::Less);
    assert_eq!(sort_entries_for_file_tree(Some(&dir("a")), None), Ordering::Greater);
}

#[test]
fn entries_without_names_sort_first_in_their_group() {
    let nameless = TreeEntryKey { is_dir: false, name: None };
    assert_eq!(sort_entries_for_file_tree(Some(&nameless), Some(&file("a"))), Ordering::Less);
    assert_eq!(sort_entries_for_file_tree(Some(&nameless), Some(&nameless)), Ordering::Equal);
    assert_eq!(sort_entries_for_file_tree(Some(&nameless), Some(&dir("a"))), Ordering::Greater);
}

#[test]
fn sorting_a_listing() {
    let mut entries = vec![file("zeta.rs"), dir("src"), file(".gitignore"), dir(".cargo"), file("Cargo.toml")];
    entries.sort_by(|a, b| sort_entries_for_file_tree(Some(a), Some(b)));
    let names: Vec<String> = entries.iter().map(|e| e.name.clone().unwrap()).collect();
    assert_eq!(names, vec![".cargo", "src", ".gitignore", "Cargo.toml", "zeta.rs"]);
}

use castcodes::file_tree::editing::{
    cancel_removes_placeholder, on_editor_dismissed, plan_commit, CommitPlan, DismissAction,
    PendingEditKind, TreeItemKind,
};

fn planned_name(plan: CommitPlan) -> (&'static str, String) {
    match plan {
        CommitPlan::Nothing => ("nothing", String::new()),
        CommitPlan::RemovePlaceholder => ("remove", String::new()),
        CommitPlan::CreateFile { name } => ("file", name),
        CommitPlan::CreateFolder { name } => ("folder", name),
        CommitPlan::Rename { name } => ("rename", name),
    }
}

#[test]
fn committing_a_new_file_creates_it() {
    let plan = plan_commit(PendingEditKind::CreateNewFile, "main.rs".to_string(), Some(TreeItemKind::File));
    assert_eq!(planned_name(plan), ("file", "main.rs".to_string()));
}

#[test]
fn committing_a_new_folder_creates_it() {
    let plan =
        plan_commit(PendingEditKind::CreateNewFolder, "src".to_string(), Some(TreeItemKind::DirectoryHeader));
    assert_eq!(planned_name(plan), ("folder", "src".to_string()));
}

#[test]
fn an_empty_create_drops_its_placeholder() {
    let plan = plan_commit(PendingEditKind::CreateNewFile, String::new(), None);
    assert_eq!(planned_name(plan).0, "remove");
    let plan = plan_commit(PendingEditKind::CreateNewFolder, String::new(), Some(TreeItemKind::DirectoryHeader));
    assert_eq!(planned_name(plan).0, "remove");
}

#[test]
fn a_create_on_the_wrong_row_drops_its_placeholder() {
    let plan = plan_commit(PendingEditKind::CreateNewFile, "a".to_string(), Some(TreeItemKind::DirectoryHeader));
    assert_eq!(planned_name(plan).0, "remove");
    let plan = plan_commit(PendingEditKind::CreateNewFolder, "a".to_string(), Some(TreeItemKind::File));
    assert_eq!(planned_name(plan).0, "remove");
    let plan = plan_commit(PendingEditKind::CreateNewFile, "a".to_string(), None);
    assert_eq!(planned_name(plan).0, "nothing");
}

#[test]
fn renames_need_a_name_and_a_row() {
    let plan = plan_commit(PendingEditKind::RenameExisting, "b.rs".to_string(), Some(TreeItemKind::File));
    assert_eq!(planned_name(plan), ("rename", "b.rs".to_string()));
    let plan = plan_commit(PendingEditKind::RenameExisting, String::new(), Some(TreeItemKind::File));
    assert_eq!(planned_name(plan).0, "nothing");
    let plan = plan_commit(PendingEditKind::RenameExisting, "b.rs".to_string(), None);
    assert_eq!(planned_name(plan).0, "nothing");
}

#[test]
fn dismissing_an_empty_editor_cancels() {
    assert_eq!(on_editor_dismissed(""), DismissAction::Cancel);
    assert_eq!(on_editor_dismissed("x"), DismissAction::Commit);
}

#[test]
fn only_creates_leave_a_placeholder_to_drop() {
    assert!(cancel_removes_placeholder(PendingEditKind::CreateNewFile));
    assert!(cancel_removes_placeholder(PendingEditKind::CreateNewFolder));
    assert!(!cancel_removes_placeholder(PendingEditKind::RenameExisting));
}
