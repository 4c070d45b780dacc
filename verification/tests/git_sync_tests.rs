use tally::git_sync::{
    clone_needs_init, delete_token, detect_default_branch, get_token, has_token, local_ref,
    merge_had_conflicts, pull_step, push_branch, push_refspec, remote_ref, store_token,
    sync_message, synced_report, PullAction, PullEvent,
};

#[test]
fn default_branch_strips_refs_heads() {
    assert_eq!(detect_default_branch(true, Some("refs/heads/trunk")), "trunk");
    assert_eq!(detect_default_branch(true, Some("develop")), "develop");
    assert_eq!(detect_default_branch(true, None), "main");
    assert_eq!(detect_default_branch(false, Some("refs/heads/trunk")), "main");
}

#[test]
fn clone_errors_that_mean_an_empty_remote() {
    assert!(clone_needs_init("remote repository not found"));
    assert!(clone_needs_init("repository is empty"));
    assert!(!clone_needs_init("authentication failed"));
}

#[test]
fn references_and_messages() {
    assert_eq!(local_ref("main"), "refs/heads/main");
    assert_eq!(remote_ref("main"), "refs/remotes/origin/main");
    assert_eq!(push_refspec("dev"), "refs/heads/dev:refs/heads/dev");
    assert_eq!(push_branch(Some("dev")), "dev");
    assert_eq!(push_branch(None), "main");
    let m = sync_message("2024-05-01 10:30");
    assert_eq!(m, "Tally.md sync 2024-05-01 10:30");
    assert_eq!(synced_report(&m), "Synced: Tally.md sync 2024-05-01 10:30");
}

#[test]
fn pull_steps() {
    assert_eq!(
        pull_step(PullEvent::NoRemoteBranch),
        PullAction::Finish("Remote is empty, nothing to pull".to_string())
    );
    assert_eq!(
        pull_step(PullEvent::Analyzed { up_to_date: true, fast_forward: true }),
        PullAction::Finish("Already up to date".to_string())
    );
    assert_eq!(
        pull_step(PullEvent::Analyzed { up_to_date: false, fast_forward: true }),
        PullAction::FastForward
    );
    assert_eq!(
        pull_step(PullEvent::Analyzed { up_to_date: false, fast_forward: false }),
        PullAction::BackupAndMerge
    );
    assert_eq!(
        pull_step(PullEvent::FastForwarded),
        PullAction::Finish("Pulled (fast-forward)".to_string())
    );
    assert_eq!(
        pull_step(PullEvent::Merged { conflicts: true, backup_dir: "/r/.backup".to_string() }),
        PullAction::Finish("Pulled (merged with conflicts). Local backup at /r/.backup".to_string())
    );
    assert_eq!(
        pull_step(PullEvent::Merged { conflicts: false, backup_dir: "/r/.backup".to_string() }),
        PullAction::DropBackupAndFinish("Pulled (merged)".to_string())
    );
}

#[test]
fn merge_conflicts_from_index_or_changed_files() {
    let a = vec!["x".to_string(), "y".to_string()];
    let b = vec!["x".to_string(), "z".to_string()];
    assert!(!merge_had_conflicts(false, &a, &a));
    assert!(merge_had_conflicts(false, &a, &b));
    assert!(merge_had_conflicts(true, &a, &a));
}

#[test]
fn token_round_trip_reports_keychain_results() {
    // Without a platform store each entry is a fresh mock: storing succeeds,
    // and a new entry holds nothing.
    assert_eq!(store_token("secret"), Ok(()));
    let got = get_token();
    assert!(got.as_ref().unwrap_err().starts_with("No token stored: "));
    assert!(!has_token());
    let del = delete_token();
    assert!(del.unwrap_err().starts_with("Failed to delete token: "));
}
