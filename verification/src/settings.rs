use vstd::prelude::*;
use crate::text::{chars_of, has_prefix};

verus! {

/// The default shortcut of each action, as (action, key) pairs.
pub open spec fn default_bindings() -> Seq<(Seq<char>, Seq<char>)> {
    seq![
        ("save"@, "Mod-s"@),
        ("moveForward"@, "Mod-Enter"@),
        ("sendBack"@, "Mod-Shift-Enter"@),
        ("skipToDone"@, "Mod-Shift-d"@),
        ("bold"@, "Mod-b"@),
        ("italic"@, "Mod-i"@),
        ("toggleFold"@, "Mod-e"@),
        ("toggleFoldAll"@, "Mod-Shift-e"@),
        ("cyclePane"@, "Mod-\\"@),
        ("cyclePaneBack"@, "Mod-Shift-\\"@),
        ("toggleDonePane"@, "Mod-Shift-b"@),
        ("sync"@, "Mod-Shift-s"@),
        ("cycleTheme"@, "Mod-k"@),
        ("openSettings"@, "Mod-,"@),
    ]
}

/// The pairs as values.
pub open spec fn pairs_view(v: Seq<(String, String)>) -> Seq<(Seq<char>, Seq<char>)> {
    v.map_values(|p: (String, String)| (p.0@, p.1@))
}

fn push_binding(v: &mut Vec<(String, String)>, action: &str, key: &str)
    ensures
        pairs_view(final(v)@) == pairs_view(old(v)@).push((action@, key@)),
{
    v.push((action.to_owned(), key.to_owned()));
    assert(pairs_view(v@) =~= pairs_view(old(v)@).push((action@, key@)));
}

/// The default keyboard shortcuts: each action with its key.
pub fn default_keybindings() -> (r: Vec<(String, String)>)
    ensures
        pairs_view(r@) == default_bindings(),
{
    let mut m: Vec<(String, String)> = Vec::new();
    push_binding(&mut m, "save", "Mod-s");
    push_binding(&mut m, "moveForward", "Mod-Enter");
    push_binding(&mut m, "sendBack", "Mod-Shift-Enter");
    push_binding(&mut m, "skipToDone", "Mod-Shift-d");
    push_binding(&mut m, "bold", "Mod-b");
    push_binding(&mut m, "italic", "Mod-i");
    push_binding(&mut m, "toggleFold", "Mod-e");
    push_binding(&mut m, "toggleFoldAll", "Mod-Shift-e");
    push_binding(&mut m, "cyclePane", "Mod-\\");
    push_binding(&mut m, "cyclePaneBack", "Mod-Shift-\\");
    push_binding(&mut m, "toggleDonePane", "Mod-Shift-b");
    push_binding(&mut m, "sync", "Mod-Shift-s");
    push_binding(&mut m, "cycleTheme", "Mod-k");
    push_binding(&mut m, "openSettings", "Mod-,");
    assert(pairs_view(m@) =~= default_bindings());
    m
}


/// Each action has one default shortcut: no action occurs twice.
pub proof fn law_default_actions_distinct()
    ensures
        forall|i: int, j: int|
            0 <= i < j < default_bindings().len() ==> (#[trigger] default_bindings()[i]).0
                != (#[trigger] default_bindings()[j]).0,
{
    reveal_strlit("save");
    reveal_strlit("moveForward");
    reveal_strlit("sendBack");
    reveal_strlit("skipToDone");
    reveal_strlit("bold");
    reveal_strlit("italic");
    reveal_strlit("toggleFold");
    reveal_strlit("toggleFoldAll");
    reveal_strlit("cyclePane");
    reveal_strlit("cyclePaneBack");
    reveal_strlit("toggleDonePane");
    reveal_strlit("sync");
    reveal_strlit("cycleTheme");
    reveal_strlit("openSettings");
    let b = default_bindings();
    assert forall|i: int, j: int| 0 <= i < j < b.len() implies (#[trigger] b[i]).0 != (#[trigger] b[j]).0 by {
        if b[i].0.len() == b[j].0.len() {
            assert(b[i].0[0] != b[j].0[0] || b[i].0[1] != b[j].0[1]);
        }
    }
}


/// Whether the settings keep the data in a git repository: the storage
/// mode is `git` and a repository is named. Otherwise the local folder
/// holds it.
pub fn uses_git_storage(storage_mode: &str, git_repo_name: &str) -> (r: bool)
    ensures
        r == (storage_mode@ == "git"@ && git_repo_name@.len() > 0),
{
    let m = chars_of(storage_mode);
    let g = chars_of("git");
    let is_git = m.len() == g.len() && has_prefix(&m, 0, m.len(), g.as_slice());
    proof {
        assert(m@.subrange(0, m@.len() as int) =~= m@);
        if m@.len() == g@.len() {
            assert(m@.take(g@.len() as int) =~= m@);
        }
    }
    is_git && !git_repo_name.is_empty()
}

} // verus!
