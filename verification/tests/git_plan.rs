use piki::git::message::Change;
use piki::git::plan::{
    branch_ref, changed_paths, commit_title, conflict_message, entry_stage, fast_forward_reflog,
    fetch_refspec, gerr, merge_commit_message, not_clean_message, operation_in_progress_message,
    push_refspec, push_rejected_message, remote_counterpart, sorted_unique, staged_change,
    sync_action, unrelated_history_message, DeltaKind, SyncAction,
};

#[test]
fn sync_action_by_branch_positions() {
    assert_eq!(sync_action(None, None, false, false), SyncAction::UpToDate);
    assert_eq!(sync_action(None, Some("b"), false, false), SyncAction::AdoptRemote);
    assert_eq!(sync_action(Some("a"), None, false, false), SyncAction::Push);
    assert_eq!(sync_action(Some("a"), Some("a"), true, true), SyncAction::UpToDate);
    assert_eq!(sync_action(Some("a"), Some("b"), true, false), SyncAction::Push);
    assert_eq!(sync_action(Some("a"), Some("b"), false, true), SyncAction::FastForward);
    assert_eq!(sync_action(Some("a"), Some("b"), false, false), SyncAction::MergeAndPush);
}

#[test]
fn sync_action_effects() {
    assert_eq!(SyncAction::UpToDate.effects(), (false, false, false));
    assert_eq!(SyncAction::AdoptRemote.effects(), (true, false, false));
    assert_eq!(SyncAction::Push.effects(), (false, false, true));
    assert_eq!(SyncAction::FastForward.effects(), (true, false, false));
    assert_eq!(SyncAction::MergeAndPush.effects(), (true, true, true));
}

fn refs(v: &[(&str, Option<&str>)]) -> Vec<(String, Option<String>)> {
    v.iter().map(|(n, t)| (n.to_string(), t.map(|s| s.to_string()))).collect()
}

#[test]
fn counterpart_prefers_the_same_name_then_the_only_branch() {
    assert_eq!(
        remote_counterpart("laptop", "main", Some(Some("abc".into())), &[]),
        Ok(("main".to_string(), Some("abc".to_string())))
    );
    let r = refs(&[
        ("refs/remotes/laptop/HEAD", Some("x")),
        ("refs/remotes/laptop/master", Some("def")),
        ("refs/remotes/other/main", Some("zzz")),
    ]);
    assert_eq!(
        remote_counterpart("laptop", "main", None, &r),
        Ok(("master".to_string(), Some("def".to_string())))
    );
    assert_eq!(remote_counterpart("laptop", "main", None, &[]), Ok(("main".to_string(), None)));
}

#[test]
fn counterpart_refuses_to_guess_among_several_branches() {
    let r = refs(&[
        ("refs/remotes/laptop/master", Some("a")),
        ("refs/remotes/laptop/dev", Some("b")),
        ("refs/remotes/laptop/dangling", None),
    ]);
    assert_eq!(
        remote_counterpart("laptop", "main", None, &r),
        Err("Remote 'laptop' has no branch named 'main' but several others (master, dev); not sure which one to sync with.".to_string())
    );
}

#[test]
fn sorted_unique_sorts_and_drops_repeats() {
    let v: Vec<String> = ["b.md", "a.md", "b.md", "Über.md", "C.md"].iter().map(|s| s.to_string()).collect();
    assert_eq!(sorted_unique(&v), vec!["C.md", "a.md", "b.md", "Über.md"]);
    assert!(sorted_unique(&[]).is_empty());
}

#[test]
fn changed_paths_of_a_diff() {
    let d = vec![
        (DeltaKind::Other, Some("x.md".to_string()), Some("x.md".to_string())),
        (DeltaKind::Deleted, Some("gone.md".to_string()), None),
        (DeltaKind::Renamed, Some("old.md".to_string()), Some("new.md".to_string())),
        (DeltaKind::Other, None, Some("x.md".to_string())),
    ];
    assert_eq!(changed_paths(&d), vec!["gone.md", "new.md", "old.md", "x.md"]);
}

#[test]
fn conflict_message_lists_paths_once_in_order() {
    let p: Vec<String> = ["b.md", "a.md", "b.md"].iter().map(|s| s.to_string()).collect();
    assert_eq!(
        conflict_message("laptop", &p, "/home/u/.piki"),
        "Changes from 'laptop' conflict with local changes in: a.md, b.md. Resolve this with git in /home/u/.piki (e.g. `git pull laptop`), then sync again."
    );
}

#[test]
fn staged_entries_read_as_changes() {
    assert_eq!(
        staged_change(true, false, false, Some("n.md"), Some("n.md"), Some("o.md")),
        Change::Renamed("o.md".into(), "n.md".into())
    );
    assert_eq!(staged_change(false, true, false, Some("a.md"), None, None), Change::Added("a.md".into()));
    assert_eq!(staged_change(false, false, true, Some("d.md"), None, None), Change::Deleted("d.md".into()));
    assert_eq!(staged_change(false, false, false, None, None, None), Change::Modified("?".into()));
}

#[test]
fn index_entry_stage_bits() {
    assert_eq!(entry_stage(0), 0);
    assert_eq!(entry_stage(0x1000), 1);
    assert_eq!(entry_stage(0x3fff), 3);
    assert_eq!(entry_stage(0x2005), 2);
}

#[test]
fn sync_messages_and_refs() {
    assert_eq!(gerr("Failed to read HEAD", "boom"), "Failed to read HEAD: boom");
    assert_eq!(
        not_clean_message("laptop"),
        "Not integrating changes from 'laptop': the notes directory has uncommitted changes."
    );
    assert!(unrelated_history_message("x").starts_with("The notes on 'x' have a different history"));
    assert_eq!(merge_commit_message("laptop"), "Merge changes from laptop");
    assert_eq!(fast_forward_reflog("laptop"), "piki sync: fast-forward to laptop");
    assert_eq!(branch_ref("main"), "refs/heads/main");
    assert_eq!(push_refspec("main", "master"), "refs/heads/main:refs/heads/master");
    assert_eq!(fetch_refspec("laptop"), "+refs/heads/*:refs/remotes/laptop/*");
    assert_eq!(
        push_rejected_message("laptop", "refs/heads/main: rejected"),
        "Pushing to 'laptop' was rejected (refs/heads/main: rejected). If the other machine has uncommitted changes, sync there first."
    );
    assert!(operation_in_progress_message("/n").contains("in progress in /n; finish"));
    assert_eq!(commit_title("New note: a\n\nbody"), "New note: a");
    assert_eq!(commit_title(""), "");
}
