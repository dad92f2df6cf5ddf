use savebutton_sync::collection::Collection;
use savebutton_sync::listing::{parse_server_file_listing, FileSet};
use savebutton_sync::reconcile::{collect_names, reconcile, restrict};

fn set(names: &[&str]) -> FileSet {
    let mut files = FileSet::new();
    for name in names {
        files.insert(name.to_string());
    }
    files
}

fn strings(names: &[&str]) -> Vec<String> {
    names.iter().map(|n| n.to_string()).collect()
}

fn sorted(mut names: Vec<String>) -> Vec<String> {
    names.sort();
    names
}

#[test]
fn plan_is_the_difference_in_each_direction() {
    let local = set(&["a", "b"]);
    let remote = set(&["b", "c"]);
    let plan = reconcile(&Collection::Anga, &local, &remote);
    assert_eq!(plan.to_download, strings(&["c"]));
    assert_eq!(plan.to_upload, strings(&["a"]));
}

#[test]
fn a_pass_makes_both_sides_converge() {
    let mut local = set(&["a", "b"]);
    let mut remote = set(&["b", "c"]);
    let plan = reconcile(&Collection::Anga, &local, &remote);
    for name in plan.to_download {
        local.insert(name);
    }
    for name in plan.to_upload {
        remote.insert(name);
    }
    assert_eq!(sorted(local.to_vec()), strings(&["a", "b", "c"]));
    assert_eq!(sorted(remote.to_vec()), strings(&["a", "b", "c"]));
    let again = reconcile(&Collection::Anga, &local, &remote);
    assert!(again.to_download.is_empty());
    assert!(again.to_upload.is_empty());
}

#[test]
fn empty_sides() {
    let none = set(&[]);
    let some = set(&["x", "y"]);
    let plan = reconcile(&Collection::Anga, &none, &some);
    assert_eq!(plan.to_download, strings(&["x", "y"]));
    assert!(plan.to_upload.is_empty());
    let plan = reconcile(&Collection::Anga, &some, &none);
    assert!(plan.to_download.is_empty());
    assert_eq!(plan.to_upload, strings(&["x", "y"]));
    let plan = reconcile(&Collection::Anga, &none, &none);
    assert!(plan.to_download.is_empty() && plan.to_upload.is_empty());
}

#[test]
fn meta_ignores_dotfiles_and_files_without_the_toml_suffix() {
    let local = set(&["a.toml", "notes.txt", ".hidden.toml", "b.toml"]);
    let remote = set(&["b.toml", "c.toml", ".secret.toml", "readme.md", ".x"]);
    let plan = reconcile(&Collection::Meta, &local, &remote);
    assert_eq!(plan.to_download, strings(&["c.toml"]));
    assert_eq!(plan.to_upload, strings(&["a.toml"]));
}

#[test]
fn anga_ignores_local_dotfiles_and_fetches_every_listed_name() {
    let local = set(&["a.pdf", ".DS_Store", "notes.txt"]);
    let remote = set(&[".remote", "b.pdf"]);
    let plan = reconcile(&Collection::Anga, &local, &remote);
    assert_eq!(plan.to_download, strings(&[".remote", "b.pdf"]));
    assert_eq!(plan.to_upload, strings(&["a.pdf", "notes.txt"]));
}

#[test]
fn a_listed_dotfile_is_fetched_even_if_it_is_held() {
    let local = set(&[".x", "a"]);
    let remote = set(&[".x", "a"]);
    let plan = reconcile(&Collection::Anga, &local, &remote);
    assert_eq!(plan.to_download, strings(&[".x"]));
    assert!(plan.to_upload.is_empty());
    let plan = reconcile(&Collection::Meta, &local, &remote);
    assert!(plan.to_download.is_empty() && plan.to_upload.is_empty());
    let plan = reconcile(&Collection::Words("w".to_string()), &local, &remote);
    assert!(plan.to_download.is_empty() && plan.to_upload.is_empty());
}

#[test]
fn words_never_upload() {
    let words = Collection::Words("doc".to_string());
    let local = set(&["only-local.txt", "both.txt", ".dot"]);
    let remote = set(&["both.txt", "only-remote.txt", ".remote-dot"]);
    let plan = reconcile(&words, &local, &remote);
    assert_eq!(plan.to_download, strings(&["only-remote.txt", ".remote-dot"]));
    assert!(plan.to_upload.is_empty());
}

#[test]
fn names_are_compared_as_they_are() {
    let local = set(&["a b.pdf"]);
    let remote = parse_server_file_listing("a%20b.pdf\n");
    let plan = reconcile(&Collection::Anga, &local, &remote);
    assert_eq!(plan.to_download, strings(&["a%20b.pdf"]));
    assert_eq!(plan.to_upload, strings(&["a b.pdf"]));
}

#[test]
fn names_are_collected_once_and_filtered() {
    let names = strings(&["a.toml", "b.txt", "a.toml", ".c.toml", "d.toml"]);
    let files = collect_names(&Collection::Meta, &names);
    assert_eq!(files.to_vec(), strings(&["a.toml", "d.toml"]));
    let all = collect_names(&Collection::Words("w".to_string()), &names);
    assert_eq!(all.to_vec(), strings(&["a.toml", "b.txt", ".c.toml", "d.toml"]));
    let anga = restrict(&Collection::Anga, &all);
    assert_eq!(anga.to_vec(), strings(&["a.toml", "b.txt", "d.toml"]));
}
