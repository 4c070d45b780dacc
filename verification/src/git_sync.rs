use vstd::prelude::*;
use keyring::Entry;
use crate::text;
use crate::text::{chars_of, contains_str, has_prefix, push_str, string_of_range};

verus! {

// ---------------------------------------------------------------------------
// The access token, in the OS keychain
// ---------------------------------------------------------------------------

/// A keychain entry.
#[verifier::external_type_specification]
#[verifier::external_body]
pub struct ExEntry(Entry);

/// A keychain failure.
#[verifier::external_type_specification]
#[verifier::external_body]
pub struct ExKeyringError(keyring::Error);

/// The keychain service that holds the token.
pub open spec fn token_service() -> Seq<char> {
    "com.sanderkohnstamm.tallymd"@
}

/// The keychain user that holds the token.
pub open spec fn token_user() -> Seq<char> {
    "git-token"@
}

/// `keyring::Entry::new(service, user)`, for the token's service and user
/// only. Whether the platform store accepts the entry is not stated.
#[verifier::external_body]
fn entry_new(service: &str, user: &str) -> Result<Entry, keyring::Error>
    requires
        service@ == token_service(),
        user@ == token_user(),
{
    Entry::new(service, user)
}

/// `Entry::set_password`. Whether the store accepts it is not stated.
#[verifier::external_body]
fn entry_set_password(entry: &Entry, password: &str) -> Result<(), keyring::Error> {
    entry.set_password(password)
}

/// `Entry::get_password`. What the store holds is not stated.
#[verifier::external_body]
fn entry_get_password(entry: &Entry) -> Result<String, keyring::Error> {
    entry.get_password()
}

/// `Entry::delete_credential`. Whether there was one is not stated.
#[verifier::external_body]
fn entry_delete_credential(entry: &Entry) -> Result<(), keyring::Error> {
    entry.delete_credential()
}

/// The text of a keychain failure (its `Display`). The text is not stated.
#[verifier::external_body]
fn keyring_error_text(e: &keyring::Error) -> String {
    e.to_string()
}

/// `prefix` followed by the text of `e`.
fn describe(prefix: &str, e: &keyring::Error) -> (m: String)
    ensures
        text::starts_with(m@, prefix@),
{
    let mut m = prefix.to_owned();
    push_str(&mut m, keyring_error_text(e).as_str());
    assert(m@.take(prefix@.len() as int) =~= prefix@);
    m
}

fn token_entry() -> (r: Result<Entry, String>)
    ensures
        r matches Err(m) ==> text::starts_with(m@, "Keyring init error: "@),
{
    match entry_new("com.sanderkohnstamm.tallymd", "git-token") {
        Ok(e) => Ok(e),
        Err(e) => Err(describe("Keyring init error: ", &e)),
    }
}

/// Stores the access token in the OS keychain. A failure is reported as
/// text: `Keyring init error: ..` when the entry cannot be made, `Failed to
/// store token: ..` when the store refuses the token.
pub fn store_token(token: &str) -> (r: Result<(), String>)
    ensures
        r matches Err(m) ==> text::starts_with(m@, "Keyring init error: "@) || text::starts_with(
            m@,
            "Failed to store token: "@,
        ),
{
    let entry = token_entry()?;
    match entry_set_password(&entry, token) {
        Ok(()) => Ok(()),
        Err(e) => Err(describe("Failed to store token: ", &e)),
    }
}

/// The access token from the OS keychain. A failure is reported as text:
/// `Keyring init error: ..`, or `No token stored: ..` when the store has
/// none.
pub fn get_token() -> (r: Result<String, String>)
    ensures
        r matches Err(m) ==> text::starts_with(m@, "Keyring init error: "@) || text::starts_with(
            m@,
            "No token stored: "@,
        ),
{
    let entry = token_entry()?;
    match entry_get_password(&entry) {
        Ok(t) => Ok(t),
        Err(e) => Err(describe("No token stored: ", &e)),
    }
}

/// Whether a token is stored: whether `get_token` succeeds.
pub fn has_token() -> (r: bool) {
    get_token().is_ok()
}

/// Deletes the access token from the OS keychain. A failure is reported as
/// text: `Keyring init error: ..`, or `Failed to delete token: ..`.
pub fn delete_token() -> (r: Result<(), String>)
    ensures
        r matches Err(m) ==> text::starts_with(m@, "Keyring init error: "@) || text::starts_with(
            m@,
            "Failed to delete token: "@,
        ),
{
    let entry = token_entry()?;
    match entry_delete_credential(&entry) {
        Ok(()) => Ok(()),
        Err(e) => Err(describe("Failed to delete token: ", &e)),
    }
}


// ---------------------------------------------------------------------------
// Git: branches, references, messages
// ---------------------------------------------------------------------------

/// The branch a remote's default reference names, `refs/heads/` taken off;
/// `main` when the remote could not be reached, and `refs/heads/main` taken
/// when it names no default.
pub open spec fn branch_of(connected: bool, default_ref: Option<Seq<char>>) -> Seq<char> {
    if !connected {
        "main"@
    } else {
        let d = match default_ref {
            Some(d) => d,
            None => "refs/heads/main"@,
        };
        if text::starts_with(d, "refs/heads/"@) {
            d.skip("refs/heads/"@.len() as int)
        } else {
            d
        }
    }
}

/// The remote's default branch, from whether connecting to it worked and the
/// default reference it reported.
pub fn detect_default_branch(connected: bool, default_ref: Option<&str>) -> (r: String)
    ensures
        r@ == branch_of(connected, match default_ref {
            Some(d) => Some(d@),
            None => None,
        }),
{
    if !connected {
        return "main".to_owned();
    }
    let d = match default_ref {
        Some(d) => d,
        None => "refs/heads/main",
    };
    let v = chars_of(d);
    let p = chars_of("refs/heads/");
    if has_prefix(&v, 0, v.len(), p.as_slice()) {
        assert(v@.subrange(0, v@.len() as int) =~= v@);
        assert(v@.subrange(p@.len() as int, v@.len() as int) =~= v@.skip(p@.len() as int));
        string_of_range(v.as_slice(), p.len(), v.len())
    } else {
        assert(v@.subrange(0, v@.len() as int) =~= v@);
        d.to_owned()
    }
}

/// Whether a failed clone means the remote is empty or missing, so that the
/// repository is made locally and pushed instead: the error says `not
/// found` or `empty`.
pub fn clone_needs_init(error_message: &str) -> (r: bool)
    ensures
        r == (text::contains(error_message@, "not found"@) || text::contains(error_message@, "empty"@)),
{
    contains_str(error_message, "not found") || contains_str(error_message, "empty")
}

/// The local reference of a branch: `refs/heads/<branch>`.
pub fn local_ref(branch: &str) -> (r: String)
    ensures
        r@ == "refs/heads/"@ + branch@,
{
    let mut r = "refs/heads/".to_owned();
    push_str(&mut r, branch);
    r
}

/// The reference a fetch of `branch` from `origin` updates.
pub fn remote_ref(branch: &str) -> (r: String)
    ensures
        r@ == "refs/remotes/origin/"@ + branch@,
{
    let mut r = "refs/remotes/origin/".to_owned();
    push_str(&mut r, branch);
    r
}

/// The branch to push: the one `HEAD` names, else `main`.
pub fn push_branch(head_shorthand: Option<&str>) -> (r: String)
    ensures
        r@ == match head_shorthand {
            Some(b) => b@,
            None => "main"@,
        },
{
    match head_shorthand {
        Some(b) => b.to_owned(),
        None => "main".to_owned(),
    }
}

/// The refspec that pushes `branch` to the branch of the same name.
pub fn push_refspec(branch: &str) -> (r: String)
    ensures
        r@ == "refs/heads/"@ + branch@ + ":refs/heads/"@ + branch@,
{
    let mut r = local_ref(branch);
    push_str(&mut r, ":refs/heads/");
    push_str(&mut r, branch);
    r
}

/// The message of a sync commit made at `timestamp`.
pub fn sync_message(timestamp: &str) -> (r: String)
    ensures
        r@ == "Tally.md sync "@ + timestamp@,
{
    let mut r = "Tally.md sync ".to_owned();
    push_str(&mut r, timestamp);
    r
}

/// What a sync that committed with `message` reports.
pub fn synced_report(message: &str) -> (r: String)
    ensures
        r@ == "Synced: "@ + message@,
{
    let mut r = "Synced: ".to_owned();
    push_str(&mut r, message);
    r
}

// ---------------------------------------------------------------------------
// Pulling: what to do after each step
// ---------------------------------------------------------------------------

/// What a pull learned from its last step.
pub enum PullEvent {
    /// The remote has no branch to merge (an empty repository).
    NoRemoteBranch,
    /// The merge analysis of the fetched branch.
    Analyzed { up_to_date: bool, fast_forward: bool },
    /// The local branch was moved to the fetched commit.
    FastForwarded,
    /// A merge was made and committed; whether it had conflicts or changed
    /// the local files, and where the local files were backed up.
    Merged { conflicts: bool, backup_dir: String },
}

/// What a pull does next.
#[derive(Debug, PartialEq, Eq)]
pub enum PullAction {
    /// Stop, reporting the text.
    Finish(String),
    /// Move the local branch to the fetched commit and check it out.
    FastForward,
    /// Back up the local files, merge, and commit the merge.
    BackupAndMerge,
    /// Remove the backup, then stop reporting the text.
    DropBackupAndFinish(String),
}

/// The action after `event`: an empty remote or an up-to-date branch ends
/// the pull; a branch that can be fast-forwarded is; otherwise the files
/// are backed up and merged, and the backup is kept (and named) only when
/// the merge had conflicts.
pub fn pull_step(event: PullEvent) -> (r: PullAction)
    ensures
        match event {
            PullEvent::NoRemoteBranch => r matches PullAction::Finish(m) && m@
                == "Remote is empty, nothing to pull"@,
            PullEvent::Analyzed { up_to_date, fast_forward } => if up_to_date {
                r matches PullAction::Finish(m) && m@ == "Already up to date"@
            } else if fast_forward {
                r is FastForward
            } else {
                r is BackupAndMerge
            },
            PullEvent::FastForwarded => r matches PullAction::Finish(m) && m@
                == "Pulled (fast-forward)"@,
            PullEvent::Merged { conflicts, backup_dir } => if conflicts {
                r matches PullAction::Finish(m) && m@ == "Pulled (merged with conflicts). Local backup at "@
                    + backup_dir@
            } else {
                r matches PullAction::DropBackupAndFinish(m) && m@ == "Pulled (merged)"@
            },
        },
{
    match event {
        PullEvent::NoRemoteBranch => PullAction::Finish("Remote is empty, nothing to pull".to_owned()),
        PullEvent::Analyzed { up_to_date, fast_forward } => {
            if up_to_date {
                PullAction::Finish("Already up to date".to_owned())
            } else if fast_forward {
                PullAction::FastForward
            } else {
                PullAction::BackupAndMerge
            }
        },
        PullEvent::FastForwarded => PullAction::Finish("Pulled (fast-forward)".to_owned()),
        PullEvent::Merged { conflicts, backup_dir } => {
            if conflicts {
                let mut m = "Pulled (merged with conflicts). Local backup at ".to_owned();
                push_str(&mut m, backup_dir.as_str());
                PullAction::Finish(m)
            } else {
                PullAction::DropBackupAndFinish("Pulled (merged)".to_owned())
            }
        },
    }
}

/// Whether a merge had conflicts: the index says so, or some file differs
/// from its backup (`current` and `backup` hold the files' texts, in the
/// same order).
pub fn merge_had_conflicts(index_conflicts: bool, current: &Vec<String>, backup: &Vec<String>) -> (r: bool)
    requires
        current@.len() == backup@.len(),
    ensures
        r == (index_conflicts || exists|i: int| 0 <= i < current@.len() && current@[i]@ != backup@[i]@),
{
    if index_conflicts {
        return true;
    }
    let n = current.len();
    let mut i: usize = 0;
    while i < n
        invariant
            i <= n == current@.len() == backup@.len(),
            forall|j: int| 0 <= j < i ==> current@[j]@ == backup@[j]@,
        decreases n - i,
    {
        if !(current[i] == backup[i]) {
            return true;
        }
        i = i + 1;
    }
    false
}

} // verus!
