use prometheus_core::guard::is_protected;
use prometheus_core::platform::Platform;

fn p(s: &str) -> Vec<char> {
    s.chars().collect()
}

#[test]
fn ssh_dir_is_protected_on_every_platform() {
    assert!(is_protected(&p("/home/u/.ssh"), &p("/home/u"), Platform::Linux));
    assert!(is_protected(&p("/Users/u/.ssh"), &p("/Users/u"), Platform::MacOs));
    assert!(is_protected(&p("C:\\Users\\u\\.ssh"), &p("C:\\Users\\u"), Platform::Windows));
}

#[test]
fn descendant_of_protected_entry_is_protected() {
    assert!(is_protected(&p("/home/u/.ssh/id_rsa"), &p("/home/u"), Platform::Linux));
    assert!(is_protected(
        &p("/Users/u/Library/Keychains/login.keychain"),
        &p("/Users/u"),
        Platform::MacOs
    ));
}

#[test]
fn sibling_with_protected_prefix_in_name_is_not_in_list_match() {
    // "/home/u/.sshfoo" is not a descendant of "/home/u/.ssh", but it is a
    // top-level entry under home outside the allow-list, so the second
    // rule still refuses it.
    assert!(is_protected(&p("/home/u/.sshfoo"), &p("/home/u"), Platform::Linux));
    // Deeper down, the name no longer matters.
    assert!(!is_protected(&p("/home/u/.cache/.sshfoo"), &p("/home/u"), Platform::Linux));
}

#[test]
fn slash_entries_are_normalized_for_windows() {
    assert!(is_protected(
        &p("C:\\Users\\u\\AppData\\Roaming\\Microsoft\\secrets"),
        &p("C:\\Users\\u"),
        Platform::Windows
    ));
    assert!(is_protected(
        &p("C:\\Users\\u\\.docker\\config.json"),
        &p("C:\\Users\\u"),
        Platform::Windows
    ));
}

#[test]
fn unlisted_top_level_home_entry_is_protected() {
    assert!(is_protected(&p("/home/u/notes.txt"), &p("/home/u"), Platform::Linux));
    assert!(is_protected(&p("/Users/u/.secret"), &p("/Users/u"), Platform::MacOs));
}

#[test]
fn safe_cache_names_directly_under_home_are_not_protected() {
    for name in [".cache", ".npm", ".gradle", ".m2", ".cargo", ".nuget", ".Trash"] {
        let path: Vec<char> = format!("/home/u/{}", name).chars().collect();
        assert!(!is_protected(&path, &p("/home/u"), Platform::Linux), "{} was refused", name);
    }
}

#[test]
fn paths_outside_home_are_not_protected() {
    assert!(!is_protected(&p("/tmp/scratch.log"), &p("/home/u"), Platform::Linux));
    assert!(!is_protected(&p("/var/log/syslog"), &p("/home/u"), Platform::Linux));
}

#[test]
fn documents_protected_on_linux_not_on_macos() {
    assert!(is_protected(&p("/home/u/Documents/report.pdf"), &p("/home/u"), Platform::Linux));
    assert!(!is_protected(&p("/Users/u/Documents/report.pdf"), &p("/Users/u"), Platform::MacOs));
}
