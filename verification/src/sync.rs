//! The sync orchestrator as a state machine. Each step takes the event
//! that ended the previous action and decides the next action; the caller
//! performs the actions, since they are input/output: exporting to and
//! importing from the canonical log file, and running the
//! version-control tool.
//!
//! The protocol: export a full snapshot; stage the log; commit, where
//! "nothing to commit" counts as success; with a remote configured,
//! integrate upstream by rebasing, and on a failure confined to the
//! canonical log fetch the ancestor, ours and theirs versions, merge them,
//! overwrite the log, restage and continue the integration; push; import
//! the (possibly merged) log back into the store. A dry run finishes
//! before any state-changing action. A failure at any earlier step stops
//! the pipeline, so the store is only ever touched by the final import.

use crate::gitcmd::{
    commit_accepted, conflict_on_log, interpret_commit, interpret_conflict, interpret_has_remote,
    remote_present, Git, GitInvocation, GitInvocationModel, GitOutcome, GitOutcomeModel,
};
use crate::merge::{merge3way, sp_merge_logs, MergeFault};
use vstd::prelude::*;

verus! {

/// The pipeline phases, in the order the orchestrator passes them.
#[derive(Clone, Copy, Debug, PartialEq, Eq, Structural)]
pub enum SyncPhase {
    Exporting,
    Staging,
    Committing,
    CheckingRemote,
    Pulling,
    CheckingStatus,
    FetchingBase,
    FetchingLeft,
    FetchingRight,
    WritingMerged,
    Restaging,
    Continuing,
    Pushing,
    Importing,
    Done,
}

/// How a sync run ended.
pub enum SyncOutcome {
    /// Every step of the pipeline ran.
    Done,
    /// Dry run: the plan is reported and nothing is touched.
    DryRun,
    /// A tool step failed: the operation's name and the tool's output.
    Failed(String, String),
    /// The conflicting log could not be merged.
    MergeFailed(MergeFault),
}

/// What the caller must do next.
pub enum SyncAction {
    /// Export the store to the canonical log path, as one atomic write.
    ExportStore,
    /// Run this invocation and report what came back.
    RunGit(GitInvocation),
    /// Overwrite the canonical log with this merged content.
    WriteLog(String),
    /// Read the canonical log back and import it into the store.
    ImportStore,
    /// Stop with this outcome.
    Finish(SyncOutcome),
}

/// What the caller reports back.
pub enum SyncEvent {
    /// The export was written.
    Exported,
    /// The invocation ran, with this outcome.
    Ran(GitOutcome),
    /// The merged log was written.
    Wrote,
    /// The import finished.
    Imported,
}

/// Model of an outcome.
pub enum SyncOutcomeModel {
    DoneM,
    DryRunM,
    FailedM(Seq<char>, Seq<char>),
    MergeFailedM(MergeFault),
}

impl View for SyncOutcome {
    type V = SyncOutcomeModel;

    open spec fn view(&self) -> SyncOutcomeModel {
        match self {
            SyncOutcome::Done => SyncOutcomeModel::DoneM,
            SyncOutcome::DryRun => SyncOutcomeModel::DryRunM,
            SyncOutcome::Failed(op, detail) => SyncOutcomeModel::FailedM(op@, detail@),
            SyncOutcome::MergeFailed(f) => SyncOutcomeModel::MergeFailedM(*f),
        }
    }
}

/// Model of an action.
pub enum SyncActionModel {
    ExportM,
    RunGitM(GitInvocationModel),
    WriteLogM(Seq<char>),
    ImportM,
    FinishM(SyncOutcomeModel),
}

impl View for SyncAction {
    type V = SyncActionModel;

    open spec fn view(&self) -> SyncActionModel {
        match self {
            SyncAction::ExportStore => SyncActionModel::ExportM,
            SyncAction::RunGit(inv) => SyncActionModel::RunGitM(inv@),
            SyncAction::WriteLog(s) => SyncActionModel::WriteLogM(s@),
            SyncAction::ImportStore => SyncActionModel::ImportM,
            SyncAction::Finish(o) => SyncActionModel::FinishM(o@),
        }
    }
}

/// Model of an event.
pub enum SyncEventModel {
    ExportedM,
    RanM(GitOutcomeModel),
    WroteM,
    ImportedM,
}

impl View for SyncEvent {
    type V = SyncEventModel;

    open spec fn view(&self) -> SyncEventModel {
        match self {
            SyncEvent::Exported => SyncEventModel::ExportedM,
            SyncEvent::Ran(out) => SyncEventModel::RanM(out@),
            SyncEvent::Wrote => SyncEventModel::WroteM,
            SyncEvent::Imported => SyncEventModel::ImportedM,
        }
    }
}

/// Model of the machine.
#[verifier::ext_equal]
pub struct SyncMachineModel {
    pub root: Seq<char>,
    pub log_rel: Seq<char>,
    pub dry_run: bool,
    pub phase: SyncPhase,
    pub pull_stderr: Seq<char>,
    pub base_text: Seq<char>,
    pub left_text: Seq<char>,
}

/// The orchestrator's state between two actions.
pub struct SyncMachine {
    pub git: Git,
    pub log_rel: String,
    pub dry_run: bool,
    pub phase: SyncPhase,
    pub pull_stderr: String,
    pub base_text: String,
    pub left_text: String,
}

impl View for SyncMachine {
    type V = SyncMachineModel;

    open spec fn view(&self) -> SyncMachineModel {
        SyncMachineModel {
            root: self.git.root@,
            log_rel: self.log_rel@,
            dry_run: self.dry_run,
            phase: self.phase,
            pull_stderr: self.pull_stderr@,
            base_text: self.base_text@,
            left_text: self.left_text@,
        }
    }
}

/// What starting a sync yields: the dry run stops at once with the plan;
/// otherwise the pipeline begins with the export.
pub open spec fn sync_start(m: SyncMachineModel) -> (SyncMachineModel, SyncActionModel) {
    if m.dry_run {
        (
            SyncMachineModel { phase: SyncPhase::Done, ..m },
            SyncActionModel::FinishM(SyncOutcomeModel::DryRunM),
        )
    } else {
        (SyncMachineModel { phase: SyncPhase::Exporting, ..m }, SyncActionModel::ExportM)
    }
}

/// The transition relation of the orchestrator: from the phase and the
/// event that ended the previous action to the next state and action.
/// An event that does not belong to the phase stops the run.
pub open spec fn sync_step(m: SyncMachineModel, ev: SyncEventModel) -> (
    SyncMachineModel,
    SyncActionModel,
) {
    let fail_protocol = (
        SyncMachineModel { phase: SyncPhase::Done, ..m },
        SyncActionModel::FinishM(SyncOutcomeModel::FailedM("protocol"@, Seq::<char>::empty())),
    );
    if m.dry_run {
        (
            SyncMachineModel { phase: SyncPhase::Done, ..m },
            SyncActionModel::FinishM(SyncOutcomeModel::DryRunM),
        )
    } else {
        match (m.phase, ev) {
            (SyncPhase::Exporting, SyncEventModel::ExportedM) => (
                SyncMachineModel { phase: SyncPhase::Staging, ..m },
                SyncActionModel::RunGitM(
                    GitInvocationModel { dir: m.root, args: seq!["add"@, m.log_rel] },
                ),
            ),
            (SyncPhase::Staging, SyncEventModel::RanM(out)) => if out.success {
                (
                    SyncMachineModel { phase: SyncPhase::Committing, ..m },
                    SyncActionModel::RunGitM(
                        GitInvocationModel {
                            dir: m.root,
                            args: seq!["commit"@, "-m"@, "sync: update issues"@],
                        },
                    ),
                )
            } else {
                (
                    SyncMachineModel { phase: SyncPhase::Done, ..m },
                    SyncActionModel::FinishM(SyncOutcomeModel::FailedM("add"@, out.stderr)),
                )
            },
            (SyncPhase::Committing, SyncEventModel::RanM(out)) => if commit_accepted(
                out.success,
                out.stdout,
            ) {
                (
                    SyncMachineModel { phase: SyncPhase::CheckingRemote, ..m },
                    SyncActionModel::RunGitM(
                        GitInvocationModel { dir: m.root, args: seq!["remote"@] },
                    ),
                )
            } else {
                (
                    SyncMachineModel { phase: SyncPhase::Done, ..m },
                    SyncActionModel::FinishM(SyncOutcomeModel::FailedM("commit"@, out.stderr)),
                )
            },
            (SyncPhase::CheckingRemote, SyncEventModel::RanM(out)) => if remote_present(
                out.success,
                out.stdout,
            ) {
                (
                    SyncMachineModel { phase: SyncPhase::Pulling, ..m },
                    SyncActionModel::RunGitM(
                        GitInvocationModel { dir: m.root, args: seq!["pull"@, "--rebase"@] },
                    ),
                )
            } else {
                (SyncMachineModel { phase: SyncPhase::Importing, ..m }, SyncActionModel::ImportM)
            },
            (SyncPhase::Pulling, SyncEventModel::RanM(out)) => if out.success {
                (
                    SyncMachineModel { phase: SyncPhase::Pushing, ..m },
                    SyncActionModel::RunGitM(
                        GitInvocationModel { dir: m.root, args: seq!["push"@] },
                    ),
                )
            } else {
                (
                    SyncMachineModel {
                        phase: SyncPhase::CheckingStatus,
                        pull_stderr: out.stderr,
                        ..m
                    },
                    SyncActionModel::RunGitM(
                        GitInvocationModel {
                            dir: m.root,
                            args: seq!["status"@, "--porcelain"@],
                        },
                    ),
                )
            },
            (SyncPhase::CheckingStatus, SyncEventModel::RanM(out)) => if !out.success {
                (
                    SyncMachineModel { phase: SyncPhase::Done, ..m },
                    SyncActionModel::FinishM(SyncOutcomeModel::FailedM("status"@, out.stderr)),
                )
            } else if conflict_on_log(out.stdout, m.log_rel) {
                (
                    SyncMachineModel { phase: SyncPhase::FetchingBase, ..m },
                    SyncActionModel::RunGitM(
                        GitInvocationModel {
                            dir: m.root,
                            args: seq!["show"@, ":1:"@ + m.log_rel],
                        },
                    ),
                )
            } else {
                (
                    SyncMachineModel { phase: SyncPhase::Done, ..m },
                    SyncActionModel::FinishM(
                        SyncOutcomeModel::FailedM("pull"@, m.pull_stderr),
                    ),
                )
            },
            (SyncPhase::FetchingBase, SyncEventModel::RanM(out)) => if out.success {
                (
                    SyncMachineModel {
                        phase: SyncPhase::FetchingLeft,
                        base_text: out.stdout,
                        ..m
                    },
                    SyncActionModel::RunGitM(
                        GitInvocationModel {
                            dir: m.root,
                            args: seq!["show"@, ":2:"@ + m.log_rel],
                        },
                    ),
                )
            } else {
                (
                    SyncMachineModel { phase: SyncPhase::Done, ..m },
                    SyncActionModel::FinishM(SyncOutcomeModel::FailedM("show"@, out.stderr)),
                )
            },
            (SyncPhase::FetchingLeft, SyncEventModel::RanM(out)) => if out.success {
                (
                    SyncMachineModel {
                        phase: SyncPhase::FetchingRight,
                        left_text: out.stdout,
                        ..m
                    },
                    SyncActionModel::RunGitM(
                        GitInvocationModel {
                            dir: m.root,
                            args: seq!["show"@, ":3:"@ + m.log_rel],
                        },
                    ),
                )
            } else {
                (
                    SyncMachineModel { phase: SyncPhase::Done, ..m },
                    SyncActionModel::FinishM(SyncOutcomeModel::FailedM("show"@, out.stderr)),
                )
            },
            (SyncPhase::FetchingRight, SyncEventModel::RanM(out)) => if out.success {
                match sp_merge_logs(m.base_text, m.left_text, out.stdout) {
                    Option::Some(merged) => (
                        SyncMachineModel { phase: SyncPhase::WritingMerged, ..m },
                        SyncActionModel::WriteLogM(merged),
                    ),
                    Option::None => (
                        SyncMachineModel { phase: SyncPhase::Done, ..m },
                        SyncActionModel::FinishM(
                            SyncOutcomeModel::MergeFailedM(
                                if crate::codec::sp_log(m.base_text) is None {
                                    MergeFault::Base
                                } else if crate::codec::sp_log(m.left_text) is None {
                                    MergeFault::Left
                                } else {
                                    MergeFault::Right
                                },
                            ),
                        ),
                    ),
                }
            } else {
                (
                    SyncMachineModel { phase: SyncPhase::Done, ..m },
                    SyncActionModel::FinishM(SyncOutcomeModel::FailedM("show"@, out.stderr)),
                )
            },
            (SyncPhase::WritingMerged, SyncEventModel::WroteM) => (
                SyncMachineModel { phase: SyncPhase::Restaging, ..m },
                SyncActionModel::RunGitM(
                    GitInvocationModel { dir: m.root, args: seq!["add"@, m.log_rel] },
                ),
            ),
            (SyncPhase::Restaging, SyncEventModel::RanM(out)) => if out.success {
                (
                    SyncMachineModel { phase: SyncPhase::Continuing, ..m },
                    SyncActionModel::RunGitM(
                        GitInvocationModel {
                            dir: m.root,
                            args: seq!["rebase"@, "--continue"@],
                        },
                    ),
                )
            } else {
                (
                    SyncMachineModel { phase: SyncPhase::Done, ..m },
                    SyncActionModel::FinishM(SyncOutcomeModel::FailedM("add"@, out.stderr)),
                )
            },
            (SyncPhase::Continuing, SyncEventModel::RanM(out)) => if out.success {
                (
                    SyncMachineModel { phase: SyncPhase::Pushing, ..m },
                    SyncActionModel::RunGitM(
                        GitInvocationModel { dir: m.root, args: seq!["push"@] },
                    ),
                )
            } else {
                (
                    SyncMachineModel { phase: SyncPhase::Done, ..m },
                    SyncActionModel::FinishM(
                        SyncOutcomeModel::FailedM("rebase --continue"@, out.stderr),
                    ),
                )
            },
            (SyncPhase::Pushing, SyncEventModel::RanM(out)) => if out.success {
                (SyncMachineModel { phase: SyncPhase::Importing, ..m }, SyncActionModel::ImportM)
            } else {
                (
                    SyncMachineModel { phase: SyncPhase::Done, ..m },
                    SyncActionModel::FinishM(SyncOutcomeModel::FailedM("push"@, out.stderr)),
                )
            },
            (SyncPhase::Importing, SyncEventModel::ImportedM) => (
                SyncMachineModel { phase: SyncPhase::Done, ..m },
                SyncActionModel::FinishM(SyncOutcomeModel::DoneM),
            ),
            _ => fail_protocol,
        }
    }
}

impl SyncMachine {
    /// Begins a sync over the repository at `root` whose canonical log
    /// lives at `log_rel` inside it; in a dry run the machine stops at
    /// once and nothing is ever touched.
    pub fn new(root: &str, log_rel: &str, dry_run: bool) -> (r: (SyncMachine, SyncAction))
        ensures
            r.0@.root == root@ && r.0@.log_rel == log_rel@ && r.0@.dry_run == dry_run,
            (r.0@, r.1@) == sync_start(
                SyncMachineModel {
                    root: root@,
                    log_rel: log_rel@,
                    dry_run,
                    phase: if dry_run {
                        SyncPhase::Done
                    } else {
                        SyncPhase::Exporting
                    },
                    pull_stderr: Seq::<char>::empty(),
                    base_text: Seq::<char>::empty(),
                    left_text: Seq::<char>::empty(),
                },
            ),
            dry_run ==> r.1@ is FinishM && r.0@.phase is Done,
    {
        let machine = SyncMachine {
            git: Git::new(root),
            log_rel: log_rel.to_owned(),
            dry_run,
            phase: if dry_run {
                SyncPhase::Done
            } else {
                SyncPhase::Exporting
            },
            pull_stderr: String::new(),
            base_text: String::new(),
            left_text: String::new(),
        };
        let action = if dry_run {
            SyncAction::Finish(SyncOutcome::DryRun)
        } else {
            SyncAction::ExportStore
        };
        proof {
            assert(machine@ =~= sync_start(machine@).0);
        }
        (machine, action)
    }

    /// Takes the event that ended the previous action and decides the
    /// next one, exactly as [`sync_step`] describes.
    pub fn step(&mut self, ev: SyncEvent) -> (r: SyncAction)
        ensures
            (final(self)@, r@) == sync_step(old(self)@, ev@),
            old(self).dry_run ==> r@ is FinishM && final(self)@.phase is Done,
    {
        if self.dry_run {
            self.phase = SyncPhase::Done;
            return SyncAction::Finish(SyncOutcome::DryRun);
        }
        match (self.phase, ev) {
            (SyncPhase::Exporting, SyncEvent::Exported) => {
                self.phase = SyncPhase::Staging;
                SyncAction::RunGit(self.git.add(self.log_rel.as_str()))
            },
            (SyncPhase::Staging, SyncEvent::Ran(out)) => {
                if out.success {
                    self.phase = SyncPhase::Committing;
                    SyncAction::RunGit(self.git.commit("sync: update issues"))
                } else {
                    self.phase = SyncPhase::Done;
                    SyncAction::Finish(
                        SyncOutcome::Failed(String::from_str("add"), out.stderr),
                    )
                }
            },
            (SyncPhase::Committing, SyncEvent::Ran(out)) => {
                if interpret_commit(&out) {
                    self.phase = SyncPhase::CheckingRemote;
                    SyncAction::RunGit(self.git.has_remote())
                } else {
                    self.phase = SyncPhase::Done;
                    SyncAction::Finish(
                        SyncOutcome::Failed(String::from_str("commit"), out.stderr),
                    )
                }
            },
            (SyncPhase::CheckingRemote, SyncEvent::Ran(out)) => {
                if interpret_has_remote(&out) {
                    self.phase = SyncPhase::Pulling;
                    SyncAction::RunGit(self.git.pull_rebase())
                } else {
                    self.phase = SyncPhase::Importing;
                    SyncAction::ImportStore
                }
            },
            (SyncPhase::Pulling, SyncEvent::Ran(out)) => {
                if out.success {
                    self.phase = SyncPhase::Pushing;
                    SyncAction::RunGit(self.git.push())
                } else {
                    self.phase = SyncPhase::CheckingStatus;
                    self.pull_stderr = out.stderr;
                    SyncAction::RunGit(self.git.status())
                }
            },
            (SyncPhase::CheckingStatus, SyncEvent::Ran(out)) => {
                if !out.success {
                    self.phase = SyncPhase::Done;
                    SyncAction::Finish(
                        SyncOutcome::Failed(String::from_str("status"), out.stderr),
                    )
                } else if interpret_conflict(out.stdout.as_str(), self.log_rel.as_str()) {
                    self.phase = SyncPhase::FetchingBase;
                    let rev = String::from_str(":1:").concat(self.log_rel.as_str());
                    SyncAction::RunGit(self.git.show(rev.as_str()))
                } else {
                    self.phase = SyncPhase::Done;
                    SyncAction::Finish(
                        SyncOutcome::Failed(
                            String::from_str("pull"),
                            self.pull_stderr.clone(),
                        ),
                    )
                }
            },
            (SyncPhase::FetchingBase, SyncEvent::Ran(out)) => {
                if out.success {
                    self.phase = SyncPhase::FetchingLeft;
                    self.base_text = out.stdout;
                    let rev = String::from_str(":2:").concat(self.log_rel.as_str());
                    SyncAction::RunGit(self.git.show(rev.as_str()))
                } else {
                    self.phase = SyncPhase::Done;
                    SyncAction::Finish(
                        SyncOutcome::Failed(String::from_str("show"), out.stderr),
                    )
                }
            },
            (SyncPhase::FetchingLeft, SyncEvent::Ran(out)) => {
                if out.success {
                    self.phase = SyncPhase::FetchingRight;
                    self.left_text = out.stdout;
                    let rev = String::from_str(":3:").concat(self.log_rel.as_str());
                    SyncAction::RunGit(self.git.show(rev.as_str()))
                } else {
                    self.phase = SyncPhase::Done;
                    SyncAction::Finish(
                        SyncOutcome::Failed(String::from_str("show"), out.stderr),
                    )
                }
            },
            (SyncPhase::FetchingRight, SyncEvent::Ran(out)) => {
                if out.success {
                    match merge3way(
                        self.base_text.as_str(),
                        self.left_text.as_str(),
                        out.stdout.as_str(),
                    ) {
                        Result::Ok(merged) => {
                            self.phase = SyncPhase::WritingMerged;
                            SyncAction::WriteLog(merged)
                        },
                        Result::Err(f) => {
                            self.phase = SyncPhase::Done;
                            SyncAction::Finish(SyncOutcome::MergeFailed(f))
                        },
                    }
                } else {
                    self.phase = SyncPhase::Done;
                    SyncAction::Finish(
                        SyncOutcome::Failed(String::from_str("show"), out.stderr),
                    )
                }
            },
            (SyncPhase::WritingMerged, SyncEvent::Wrote) => {
                self.phase = SyncPhase::Restaging;
                SyncAction::RunGit(self.git.add(self.log_rel.as_str()))
            },
            (SyncPhase::Restaging, SyncEvent::Ran(out)) => {
                if out.success {
                    self.phase = SyncPhase::Continuing;
                    SyncAction::RunGit(self.git.rebase_continue())
                } else {
                    self.phase = SyncPhase::Done;
                    SyncAction::Finish(
                        SyncOutcome::Failed(String::from_str("add"), out.stderr),
                    )
                }
            },
            (SyncPhase::Continuing, SyncEvent::Ran(out)) => {
                if out.success {
                    self.phase = SyncPhase::Pushing;
                    SyncAction::RunGit(self.git.push())
                } else {
                    self.phase = SyncPhase::Done;
                    SyncAction::Finish(
                        SyncOutcome::Failed(
                            String::from_str("rebase --continue"),
                            out.stderr,
                        ),
                    )
                }
            },
            (SyncPhase::Pushing, SyncEvent::Ran(out)) => {
                if out.success {
                    self.phase = SyncPhase::Importing;
                    SyncAction::ImportStore
                } else {
                    self.phase = SyncPhase::Done;
                    SyncAction::Finish(
                        SyncOutcome::Failed(String::from_str("push"), out.stderr),
                    )
                }
            },
            (SyncPhase::Importing, SyncEvent::Imported) => {
                self.phase = SyncPhase::Done;
                SyncAction::Finish(SyncOutcome::Done)
            },
            _ => {
                self.phase = SyncPhase::Done;
                SyncAction::Finish(
                    SyncOutcome::Failed(String::from_str("protocol"), String::new()),
                )
            },
        }
    }
}

/// A dry-run sync never mutates anything: whatever the event, the machine
/// only ever answers with a finish, never with an export, a write, an
/// import or a tool invocation.
pub proof fn lemma_dry_run_inert(m: SyncMachineModel, ev: SyncEventModel)
    requires
        m.dry_run,
    ensures
        sync_step(m, ev).1 is FinishM,
        sync_step(m, ev).0.phase is Done,
        sync_start(m).1 is FinishM,
        sync_start(m).0.phase is Done,
{
}

} // verus!
