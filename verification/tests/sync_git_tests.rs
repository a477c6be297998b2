use beads::gitcmd::{
    interpret_commit, interpret_conflict, interpret_has_remote, Git, GitOutcome,
};
use beads::model::Issue;
use beads::store::Store;
use beads::sync::{SyncAction, SyncEvent, SyncMachine, SyncOutcome};

fn ok_outcome(stdout: &str) -> GitOutcome {
    GitOutcome { success: true, stdout: stdout.to_string(), stderr: String::new() }
}

fn failed_outcome(stderr: &str) -> GitOutcome {
    GitOutcome { success: false, stdout: String::new(), stderr: stderr.to_string() }
}

#[test]
fn test_git_invocations() {
    let git = Git::new("/repo");
    assert_eq!(git.init().args, vec!["init".to_string()]);
    assert_eq!(git.init().dir, "/repo");
    assert_eq!(git.add(".beads/issues.jsonl").args, vec!["add", ".beads/issues.jsonl"]);
    assert_eq!(git.commit("msg").args, vec!["commit", "-m", "msg"]);
    assert_eq!(git.pull_rebase().args, vec!["pull", "--rebase"]);
    assert_eq!(git.push().args, vec!["push"]);
    assert_eq!(git.status().args, vec!["status", "--porcelain"]);
    assert_eq!(git.show(":1:x").args, vec!["show", ":1:x"]);
    assert_eq!(git.rebase_continue().args, vec!["rebase", "--continue"]);
    assert_eq!(git.has_remote().args, vec!["remote"]);
}

#[test]
fn test_interpret_commit_accepts_nothing_to_commit() {
    assert!(interpret_commit(&ok_outcome("")));
    let mut clean = failed_outcome("");
    clean.stdout = "On branch main\nnothing to commit, working tree clean\n".to_string();
    assert!(interpret_commit(&clean));
    assert!(!interpret_commit(&failed_outcome("fatal: not a repository")));
}

#[test]
fn test_interpret_has_remote() {
    assert!(interpret_has_remote(&ok_outcome("origin\n")));
    assert!(!interpret_has_remote(&ok_outcome("  \n")));
    assert!(!interpret_has_remote(&ok_outcome("")));
    assert!(!interpret_has_remote(&failed_outcome("boom")));
}

#[test]
fn test_interpret_conflict() {
    assert!(interpret_conflict("UU .beads/issues.jsonl\n", ".beads/issues.jsonl"));
    assert!(!interpret_conflict("UU other.txt\n", ".beads/issues.jsonl"));
    assert!(!interpret_conflict(" M .beads/issues.jsonl\n", ".beads/issues.jsonl"));
}

#[test]
fn test_dry_run_sync_never_mutates() {
    // A dry run finishes at once with the plan; whatever is fed to it, it
    // never asks for an export, a write, a tool run or an import.
    let (mut machine, action) = SyncMachine::new("/repo", ".beads/issues.jsonl", true);
    assert!(matches!(action, SyncAction::Finish(SyncOutcome::DryRun)));
    let next = machine.step(SyncEvent::Exported);
    assert!(matches!(next, SyncAction::Finish(SyncOutcome::DryRun)));
    let next2 = machine.step(SyncEvent::Ran(ok_outcome("")));
    assert!(matches!(next2, SyncAction::Finish(SyncOutcome::DryRun)));
}

#[test]
fn test_sync_without_remote() {
    // Export, stage, commit, no remote: import follows at once, with no
    // pull and no push.
    let (mut machine, action) = SyncMachine::new("/repo", ".beads/issues.jsonl", false);
    assert!(matches!(action, SyncAction::ExportStore));

    let a1 = machine.step(SyncEvent::Exported);
    match a1 {
        SyncAction::RunGit(inv) => assert_eq!(inv.args, vec!["add", ".beads/issues.jsonl"]),
        _ => panic!("expected a staging invocation"),
    }
    let a2 = machine.step(SyncEvent::Ran(ok_outcome("")));
    match a2 {
        SyncAction::RunGit(inv) => {
            assert_eq!(inv.args, vec!["commit", "-m", "sync: update issues"])
        },
        _ => panic!("expected a commit invocation"),
    }
    let a3 = machine.step(SyncEvent::Ran(ok_outcome("")));
    match a3 {
        SyncAction::RunGit(inv) => assert_eq!(inv.args, vec!["remote"]),
        _ => panic!("expected a remote listing"),
    }
    let a4 = machine.step(SyncEvent::Ran(ok_outcome("")));
    assert!(matches!(a4, SyncAction::ImportStore));
    let a5 = machine.step(SyncEvent::Imported);
    assert!(matches!(a5, SyncAction::Finish(SyncOutcome::Done)));
}

#[test]
fn test_sync_resolves_log_conflict() {
    // A pull failure whose conflict is confined to the canonical log is
    // resolved: fetch the three versions, write the merge, restage,
    // continue, push, import.
    let mut sb = Store::new();
    sb.create_issue(&Issue {
        id: "bd-c".to_string(),
        title: "base".to_string(),
        ..Default::default()
    }).unwrap();
    let base = sb.export_to_jsonl();
    let mut left_issue = sb.get_issue("bd-c").unwrap();
    left_issue.title = "left".to_string();
    left_issue.updated_at = 5;
    sb.update_issue(&left_issue);
    let left = sb.export_to_jsonl();

    let (mut machine, _) = SyncMachine::new("/repo", "issues.jsonl", false);
    machine.step(SyncEvent::Exported);
    machine.step(SyncEvent::Ran(ok_outcome("")));
    machine.step(SyncEvent::Ran(ok_outcome("")));
    let pull = machine.step(SyncEvent::Ran(ok_outcome("origin\n")));
    match pull {
        SyncAction::RunGit(inv) => assert_eq!(inv.args, vec!["pull", "--rebase"]),
        _ => panic!("expected an integration invocation"),
    }
    let status = machine.step(SyncEvent::Ran(failed_outcome("CONFLICT")));
    match status {
        SyncAction::RunGit(inv) => assert_eq!(inv.args, vec!["status", "--porcelain"]),
        _ => panic!("expected a status inspection"),
    }
    let show1 = machine.step(SyncEvent::Ran(ok_outcome("UU issues.jsonl\n")));
    match show1 {
        SyncAction::RunGit(inv) => assert_eq!(inv.args, vec!["show", ":1:issues.jsonl"]),
        _ => panic!("expected the ancestor blob"),
    }
    let show2 = machine.step(SyncEvent::Ran(ok_outcome(&base)));
    match show2 {
        SyncAction::RunGit(inv) => assert_eq!(inv.args, vec!["show", ":2:issues.jsonl"]),
        _ => panic!("expected the ours blob"),
    }
    let show3 = machine.step(SyncEvent::Ran(ok_outcome(&left)));
    match show3 {
        SyncAction::RunGit(inv) => assert_eq!(inv.args, vec!["show", ":3:issues.jsonl"]),
        _ => panic!("expected the theirs blob"),
    }
    // Theirs is the unchanged base: the merged log is the left side.
    let write = machine.step(SyncEvent::Ran(ok_outcome(&base)));
    match write {
        SyncAction::WriteLog(content) => assert_eq!(content, left),
        _ => panic!("expected the merged log"),
    }
    let restage = machine.step(SyncEvent::Wrote);
    match restage {
        SyncAction::RunGit(inv) => assert_eq!(inv.args, vec!["add", "issues.jsonl"]),
        _ => panic!("expected restaging"),
    }
    let cont = machine.step(SyncEvent::Ran(ok_outcome("")));
    match cont {
        SyncAction::RunGit(inv) => assert_eq!(inv.args, vec!["rebase", "--continue"]),
        _ => panic!("expected the integration to continue"),
    }
    let push = machine.step(SyncEvent::Ran(ok_outcome("")));
    match push {
        SyncAction::RunGit(inv) => assert_eq!(inv.args, vec!["push"]),
        _ => panic!("expected a push"),
    }
    let import = machine.step(SyncEvent::Ran(ok_outcome("")));
    assert!(matches!(import, SyncAction::ImportStore));
    let done = machine.step(SyncEvent::Imported);
    assert!(matches!(done, SyncAction::Finish(SyncOutcome::Done)));
}

#[test]
fn test_sync_propagates_foreign_conflict() {
    // A conflict that touches any other path propagates the original
    // integration failure unchanged.
    let (mut machine, _) = SyncMachine::new("/repo", "issues.jsonl", false);
    machine.step(SyncEvent::Exported);
    machine.step(SyncEvent::Ran(ok_outcome("")));
    machine.step(SyncEvent::Ran(ok_outcome("")));
    machine.step(SyncEvent::Ran(ok_outcome("origin\n")));
    machine.step(SyncEvent::Ran(failed_outcome("pull exploded")));
    let out = machine.step(SyncEvent::Ran(ok_outcome("UU other.txt\n")));
    match out {
        SyncAction::Finish(SyncOutcome::Failed(op, detail)) => {
            assert_eq!(op, "pull");
            assert_eq!(detail, "pull exploded");
        },
        _ => panic!("expected the original failure to propagate"),
    }
}
