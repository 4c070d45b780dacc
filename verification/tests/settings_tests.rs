use tally::settings::{default_keybindings, uses_git_storage};

#[test]
fn default_keybindings_cover_every_action_once() {
    let m = default_keybindings();
    assert_eq!(m.len(), 14);
    let find = |a: &str| m.iter().find(|(k, _)| k == a).map(|(_, v)| v.clone());
    assert_eq!(find("save").as_deref(), Some("Mod-s"));
    assert_eq!(find("moveForward").as_deref(), Some("Mod-Enter"));
    assert_eq!(find("cyclePaneBack").as_deref(), Some("Mod-Shift-\\"));
    assert_eq!(find("openSettings").as_deref(), Some("Mod-,"));
    let mut keys: Vec<&String> = m.iter().map(|(k, _)| k).collect();
    keys.sort();
    keys.dedup();
    assert_eq!(keys.len(), 14);
}

#[test]
fn git_storage_needs_mode_and_repo() {
    assert!(uses_git_storage("git", "tally-md-log"));
    assert!(!uses_git_storage("git", ""));
    assert!(!uses_git_storage("local", "tally-md-log"));
    assert!(!uses_git_storage("gitx", "r"));
}
