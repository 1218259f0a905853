//! `sync`: commit the data directory and push it to its git remote.
//!
//! The decisions live in [`SyncMachine`]; the caller performs each
//! [`SyncRequest`] (a git command, a connectivity probe, the clock) and hands
//! the answer back as a [`SyncEvent`].
use vstd::prelude::*;

use crate::error::Error;
use crate::ports::{line_views, Line};
use crate::text::push_str;

verus! {

/// Where the sync conversation stands.
#[derive(Clone, Copy, Debug, PartialEq, Eq, Structural)]
pub enum SyncPhase {
    Start,
    AwaitRepo,
    AwaitInternet,
    AwaitReachable,
    AwaitPull,
    AwaitDirty,
    AwaitTimestamp,
    AwaitCommit,
    AwaitBranch,
    AwaitPush,
    Finished,
}

/// The answer to the last request.
#[derive(Debug)]
pub enum SyncEvent {
    Begin,
    IsRepo(bool),
    HasInternet(bool),
    Reachable(bool),
    Pulled(Result<(), Error>),
    Dirty(Result<bool, Error>),
    Now(String),
    Committed(Result<(), Error>),
    Branch(Result<String, Error>),
    Pushed(Result<(), Error>),
}

/// The outside work the machine needs next.
#[derive(Debug)]
pub enum SyncRequest {
    /// Is `data_dir` a git repository?
    IsRepo,
    /// Is there internet connectivity?
    HasInternet,
    /// Is the git remote reachable?
    Reachable,
    /// `git pull`.
    Pull,
    /// Does the working tree have uncommitted changes?
    IsDirty,
    /// The wall-clock timestamp.
    Timestamp,
    /// `git add . && git commit -m <msg>`.
    Commit(String),
    /// The current branch name.
    CurrentBranch,
    /// `git push origin <branch>`.
    Push(String),
    /// The sync is over, with this result.
    Finish(Result<(), Error>),
}

/// Lines to show, then the next request.
#[derive(Debug)]
pub struct SyncStep {
    pub say: Vec<Line>,
    pub request: SyncRequest,
}

/// The state of one `commit_and_push` run.
#[derive(Debug)]
pub struct SyncMachine {
    pub data_dir: String,
    /// Prepended to the commit message; when given, connectivity is not probed
    /// (the caller already knows it is offline).
    pub offline_prefix: Option<String>,
    /// Optional suffix supplied by the user.
    pub user_message: Option<String>,
    /// Whether to push after committing.
    pub push: bool,
    /// Suppress progress/result lines.
    pub quiet: bool,
    pub phase: SyncPhase,
    pub online: bool,
    pub commit_msg: String,
    pub branch: String,
}

/// A line unless `quiet`.
pub open spec fn unless_quiet(quiet: bool, is_out: bool, text: Seq<char>) -> Seq<(bool, Seq<char>)> {
    if quiet {
        seq![]
    } else {
        seq![(is_out, text)]
    }
}

/// The commit message: prefix, `Data sync: <now>`, and ` - <msg>` when the
/// user gave one. The prefix is the caller's, else empty online and
/// `Offline ` offline.
pub open spec fn commit_text(
    offline_prefix: Option<String>,
    online: bool,
    now: Seq<char>,
    user_message: Option<String>,
) -> Seq<char> {
    let prefix = match offline_prefix {
        Some(p) => p@,
        None => if online {
            ""@
        } else {
            "Offline "@
        },
    };
    let suffix = match user_message {
        Some(m) => " - "@ + m@,
        None => ""@,
    };
    prefix + "Data sync: "@ + now + suffix
}

pub open spec fn not_a_repo_text(dir: Seq<char>) -> Seq<char> {
    "DATA_DIR '"@ + dir + "' is not a git repository"@
}

pub open spec fn no_changes_text(dir: Seq<char>) -> Seq<char> {
    "No changes in "@ + dir + ". Nothing to commit."@
}

pub open spec fn committed_text(msg: Seq<char>) -> Seq<char> {
    "Committed: "@ + msg
}

pub open spec fn pushed_text(branch: Seq<char>) -> Seq<char> {
    "Pushed to origin/"@ + branch + "."@
}

pub open spec fn internet_text() -> Seq<char> {
    "Internet detected, checking git remote…"@
}

pub open spec fn offline_text() -> Seq<char> {
    "Offline: changes committed locally but not pushed."@
}

impl SyncMachine {
    /// Whether `e` answers the request this machine is waiting on.
    pub open spec fn accepts(&self, e: SyncEvent) -> bool {
        match (self.phase, e) {
            (SyncPhase::Start, SyncEvent::Begin) => true,
            (SyncPhase::AwaitRepo, SyncEvent::IsRepo(_)) => true,
            (SyncPhase::AwaitInternet, SyncEvent::HasInternet(_)) => true,
            (SyncPhase::AwaitReachable, SyncEvent::Reachable(_)) => true,
            (SyncPhase::AwaitPull, SyncEvent::Pulled(_)) => true,
            (SyncPhase::AwaitDirty, SyncEvent::Dirty(_)) => true,
            (SyncPhase::AwaitTimestamp, SyncEvent::Now(_)) => true,
            (SyncPhase::AwaitCommit, SyncEvent::Committed(_)) => true,
            (SyncPhase::AwaitBranch, SyncEvent::Branch(_)) => true,
            (SyncPhase::AwaitPush, SyncEvent::Pushed(_)) => true,
            _ => false,
        }
    }

    /// What holds of the phase at every step: pushing is only ever pending
    /// online with pushing asked for, and connectivity is only probed when the
    /// caller did not declare itself offline.
    pub open spec fn wf(&self) -> bool {
        &&& (self.phase == SyncPhase::AwaitBranch || self.phase == SyncPhase::AwaitPush) ==> (
        self.online && self.push)
        &&& (self.phase == SyncPhase::AwaitInternet || self.phase == SyncPhase::AwaitReachable)
            ==> self.offline_prefix is None
        &&& self.phase == SyncPhase::AwaitPull ==> self.online
    }

    /// The settings a run keeps from start to finish.
    pub open spec fn same_settings(&self, other: &SyncMachine) -> bool {
        &&& self.data_dir == other.data_dir
        &&& self.offline_prefix == other.offline_prefix
        &&& self.user_message == other.user_message
        &&& self.push == other.push
        &&& self.quiet == other.quiet
    }

    /// A machine ready to sync `data_dir`.
    pub fn new(
        data_dir: String,
        offline_prefix: Option<String>,
        user_message: Option<String>,
        push: bool,
        quiet: bool,
    ) -> (m: SyncMachine)
        ensures
            m.data_dir == data_dir,
            m.offline_prefix == offline_prefix,
            m.user_message == user_message,
            m.push == push,
            m.quiet == quiet,
            m.phase == SyncPhase::Start,
            !m.online,
            m.wf(),
    {
        SyncMachine {
            data_dir,
            offline_prefix,
            user_message,
            push,
            quiet,
            phase: SyncPhase::Start,
            online: false,
            commit_msg: String::new(),
            branch: String::new(),
        }
    }

    /// After connectivity is known: pull when online, else check for changes.
    fn after_connectivity(&mut self, online: bool) -> (step: SyncStep)
        ensures
            final(self).same_settings(old(self)),
            final(self).online == online,
            final(self).commit_msg == old(self).commit_msg,
            final(self).branch == old(self).branch,
            step.say@.len() == 0,
            online ==> final(self).phase == SyncPhase::AwaitPull && step.request is Pull,
            !online ==> final(self).phase == SyncPhase::AwaitDirty && step.request is IsDirty,
    {
        self.online = online;
        if online {
            self.phase = SyncPhase::AwaitPull;
            SyncStep { say: Vec::new(), request: SyncRequest::Pull }
        } else {
            self.phase = SyncPhase::AwaitDirty;
            SyncStep { say: Vec::new(), request: SyncRequest::IsDirty }
        }
    }

    fn finish(&mut self, say: Vec<Line>, result: Result<(), Error>) -> (step: SyncStep)
        ensures
            final(self).same_settings(old(self)),
            final(self).online == old(self).online,
            final(self).commit_msg == old(self).commit_msg,
            final(self).branch == old(self).branch,
            final(self).phase == SyncPhase::Finished,
            step.say == say,
            step.request == SyncRequest::Finish(result),
    {
        self.phase = SyncPhase::Finished;
        SyncStep { say, request: SyncRequest::Finish(result) }
    }

    /// Advance the sync by one answer.
    pub fn step(&mut self, event: SyncEvent) -> (step: SyncStep)
        requires
            old(self).accepts(event),
            old(self).wf(),
        ensures
            final(self).same_settings(old(self)),
            final(self).wf(),
            (step.request is Finish) == (final(self).phase == SyncPhase::Finished),
            final(self).phase != SyncPhase::Start,
            // Never push offline or when pushing was not asked for.
            step.request is Push ==> final(self).online && final(self).push,
            // Never pull offline.
            step.request is Pull ==> final(self).online,
            // Only a dirty working tree leads to a commit.
            final(self).phase == SyncPhase::AwaitTimestamp ==> event matches SyncEvent::Dirty(
                Ok(true),
            ),
            // A caller that declared itself offline is never asked to probe connectivity.
            old(self).offline_prefix is Some ==> !(step.request is HasInternet) && !(
            step.request is Reachable),
            match (old(self).phase, event) {
                (SyncPhase::Start, SyncEvent::Begin) => {
                    &&& final(self).phase == SyncPhase::AwaitRepo
                    &&& step.say@.len() == 0
                    &&& step.request is IsRepo
                },
                (SyncPhase::AwaitRepo, SyncEvent::IsRepo(is_repo)) => if !is_repo {
                    &&& final(self).phase == SyncPhase::Finished
                    &&& step.say@.len() == 0
                    &&& step.request matches SyncRequest::Finish(Err(Error::Git(m)))
                    &&& m@ == not_a_repo_text(old(self).data_dir@)
                } else if old(self).offline_prefix is Some {
                    &&& !final(self).online
                    &&& final(self).phase == SyncPhase::AwaitDirty
                    &&& step.say@.len() == 0
                    &&& step.request is IsDirty
                } else {
                    &&& final(self).phase == SyncPhase::AwaitInternet
                    &&& step.say@.len() == 0
                    &&& step.request is HasInternet
                },
                (SyncPhase::AwaitInternet, SyncEvent::HasInternet(up)) => if up {
                    &&& final(self).phase == SyncPhase::AwaitReachable
                    &&& line_views(step.say@) == unless_quiet(old(self).quiet, false, internet_text())
                    &&& step.request is Reachable
                } else {
                    &&& !final(self).online
                    &&& final(self).phase == SyncPhase::AwaitDirty
                    &&& step.say@.len() == 0
                    &&& step.request is IsDirty
                },
                (SyncPhase::AwaitReachable, SyncEvent::Reachable(r)) => {
                    &&& final(self).online == r
                    &&& step.say@.len() == 0
                    &&& r ==> final(self).phase == SyncPhase::AwaitPull && step.request is Pull
                    &&& !r ==> final(self).phase == SyncPhase::AwaitDirty && step.request is IsDirty
                },
                (SyncPhase::AwaitPull, SyncEvent::Pulled(res)) => match res {
                    Ok(_) => {
                        &&& final(self).online == old(self).online
                        &&& final(self).phase == SyncPhase::AwaitDirty
                        &&& step.say@.len() == 0
                        &&& step.request is IsDirty
                    },
                    Err(e) => {
                        &&& final(self).phase == SyncPhase::Finished
                        &&& step.say@.len() == 0
                        &&& step.request == SyncRequest::Finish(Err(e))
                    },
                },
                (SyncPhase::AwaitDirty, SyncEvent::Dirty(res)) => match res {
                    Ok(true) => {
                        &&& final(self).online == old(self).online
                        &&& final(self).phase == SyncPhase::AwaitTimestamp
                        &&& step.say@.len() == 0
                        &&& step.request is Timestamp
                    },
                    Ok(false) => {
                        &&& final(self).phase == SyncPhase::Finished
                        &&& line_views(step.say@) == unless_quiet(
                            old(self).quiet,
                            true,
                            no_changes_text(old(self).data_dir@),
                        )
                        &&& step.request == SyncRequest::Finish(Ok(()))
                    },
                    Err(e) => {
                        &&& final(self).phase == SyncPhase::Finished
                        &&& step.say@.len() == 0
                        &&& step.request == SyncRequest::Finish(Err(e))
                    },
                },
                (SyncPhase::AwaitTimestamp, SyncEvent::Now(now)) => {
                    &&& final(self).online == old(self).online
                    &&& final(self).phase == SyncPhase::AwaitCommit
                    &&& final(self).commit_msg@ == commit_text(
                        old(self).offline_prefix,
                        old(self).online,
                        now@,
                        old(self).user_message,
                    )
                    &&& step.say@.len() == 0
                    &&& step.request matches SyncRequest::Commit(m)
                    &&& m == final(self).commit_msg
                },
                (SyncPhase::AwaitCommit, SyncEvent::Committed(res)) => match res {
                    Ok(_) => {
                        let committed = unless_quiet(
                            old(self).quiet,
                            true,
                            committed_text(old(self).commit_msg@),
                        );
                        if old(self).push && old(self).online {
                            &&& final(self).phase == SyncPhase::AwaitBranch
                            &&& line_views(step.say@) == committed
                            &&& step.request is CurrentBranch
                        } else {
                            &&& final(self).phase == SyncPhase::Finished
                            &&& line_views(step.say@) == committed + if old(self).online {
                                seq![]
                            } else {
                                unless_quiet(old(self).quiet, false, offline_text())
                            }
                            &&& step.request == SyncRequest::Finish(Ok(()))
                        }
                    },
                    Err(e) => {
                        &&& final(self).phase == SyncPhase::Finished
                        &&& step.say@.len() == 0
                        &&& step.request == SyncRequest::Finish(Err(e))
                    },
                },
                (SyncPhase::AwaitBranch, SyncEvent::Branch(res)) => match res {
                    Ok(b) => {
                        &&& final(self).phase == SyncPhase::AwaitPush
                        &&& final(self).branch == b
                        &&& step.say@.len() == 0
                        &&& step.request == SyncRequest::Push(b)
                    },
                    Err(e) => {
                        &&& final(self).phase == SyncPhase::Finished
                        &&& step.say@.len() == 0
                        &&& step.request == SyncRequest::Finish(Err(e))
                    },
                },
                (SyncPhase::AwaitPush, SyncEvent::Pushed(res)) => match res {
                    Ok(_) => {
                        &&& final(self).phase == SyncPhase::Finished
                        &&& line_views(step.say@) == unless_quiet(
                            old(self).quiet,
                            true,
                            pushed_text(old(self).branch@),
                        )
                        &&& step.request == SyncRequest::Finish(Ok(()))
                    },
                    Err(e) => {
                        &&& final(self).phase == SyncPhase::Finished
                        &&& step.say@.len() == 0
                        &&& step.request == SyncRequest::Finish(Err(e))
                    },
                },
                _ => false,
            },
    {
        let phase = self.phase;
        match event {
            SyncEvent::Begin => {
                self.phase = SyncPhase::AwaitRepo;
                SyncStep { say: Vec::new(), request: SyncRequest::IsRepo }
            },
            SyncEvent::IsRepo(is_repo) => {
                if !is_repo {
                    let mut m = String::new();
                    push_str(&mut m, "DATA_DIR '");
                    push_str(&mut m, self.data_dir.as_str());
                    push_str(&mut m, "' is not a git repository");
                    self.finish(Vec::new(), Err(Error::Git(m)))
                } else if self.offline_prefix.is_some() {
                    self.after_connectivity(false)
                } else {
                    self.phase = SyncPhase::AwaitInternet;
                    SyncStep { say: Vec::new(), request: SyncRequest::HasInternet }
                }
            },
            SyncEvent::HasInternet(up) => {
                if up {
                    let mut say: Vec<Line> = Vec::new();
                    if !self.quiet {
                        say.push(Line::Status("Internet detected, checking git remote…".to_string()));
                    }
                    self.phase = SyncPhase::AwaitReachable;
                    proof {
                        assert(line_views(say@) == unless_quiet(self.quiet, false, internet_text()));
                    }
                    SyncStep { say, request: SyncRequest::Reachable }
                } else {
                    self.after_connectivity(false)
                }
            },
            SyncEvent::Reachable(r) => self.after_connectivity(r),
            SyncEvent::Pulled(res) => match res {
                Ok(()) => {
                    self.phase = SyncPhase::AwaitDirty;
                    SyncStep { say: Vec::new(), request: SyncRequest::IsDirty }
                },
                Err(e) => self.finish(Vec::new(), Err(e)),
            },
            SyncEvent::Dirty(res) => match res {
                Ok(true) => {
                    self.phase = SyncPhase::AwaitTimestamp;
                    SyncStep { say: Vec::new(), request: SyncRequest::Timestamp }
                },
                Ok(false) => {
                    let mut say: Vec<Line> = Vec::new();
                    if !self.quiet {
                        let mut m = String::new();
                        push_str(&mut m, "No changes in ");
                        push_str(&mut m, self.data_dir.as_str());
                        push_str(&mut m, ". Nothing to commit.");
                        say.push(Line::Out(m));
                    }
                    proof {
                        assert(line_views(say@) == unless_quiet(
                            self.quiet,
                            true,
                            no_changes_text(self.data_dir@),
                        ));
                    }
                    self.finish(say, Ok(()))
                },
                Err(e) => self.finish(Vec::new(), Err(e)),
            },
            SyncEvent::Now(now) => {
                let mut m = String::new();
                match &self.offline_prefix {
                    Some(p) => push_str(&mut m, p.as_str()),
                    None => if !self.online {
                        push_str(&mut m, "Offline ");
                    },
                }
                push_str(&mut m, "Data sync: ");
                push_str(&mut m, now.as_str());
                match &self.user_message {
                    Some(u) => {
                        push_str(&mut m, " - ");
                        push_str(&mut m, u.as_str());
                    },
                    None => {},
                }
                proof {
                    reveal_strlit("");
                    assert(m@ == commit_text(self.offline_prefix, self.online, now@, self.user_message));
                }
                self.commit_msg = m.clone();
                self.phase = SyncPhase::AwaitCommit;
                SyncStep { say: Vec::new(), request: SyncRequest::Commit(m) }
            },
            SyncEvent::Committed(res) => match res {
                Ok(()) => {
                    let mut say: Vec<Line> = Vec::new();
                    if !self.quiet {
                        let mut m = String::new();
                        push_str(&mut m, "Committed: ");
                        push_str(&mut m, self.commit_msg.as_str());
                        say.push(Line::Out(m));
                    }
                    let ghost committed = line_views(say@);
                    proof {
                        assert(committed == unless_quiet(
                            self.quiet,
                            true,
                            committed_text(self.commit_msg@),
                        ));
                    }
                    if self.push && self.online {
                        self.phase = SyncPhase::AwaitBranch;
                        SyncStep { say, request: SyncRequest::CurrentBranch }
                    } else {
                        if !self.online && !self.quiet {
                            say.push(
                                Line::Status(
                                    "Offline: changes committed locally but not pushed.".to_string(),
                                ),
                            );
                        }
                        proof {
                            assert(line_views(say@) == committed + if self.online {
                                seq![]
                            } else {
                                unless_quiet(self.quiet, false, offline_text())
                            });
                        }
                        self.finish(say, Ok(()))
                    }
                },
                Err(e) => self.finish(Vec::new(), Err(e)),
            },
            SyncEvent::Branch(res) => match res {
                Ok(b) => {
                    self.branch = b.clone();
                    self.phase = SyncPhase::AwaitPush;
                    SyncStep { say: Vec::new(), request: SyncRequest::Push(b) }
                },
                Err(e) => self.finish(Vec::new(), Err(e)),
            },
            SyncEvent::Pushed(res) => match res {
                Ok(()) => {
                    let mut say: Vec<Line> = Vec::new();
                    if !self.quiet {
                        let mut m = String::new();
                        push_str(&mut m, "Pushed to origin/");
                        push_str(&mut m, self.branch.as_str());
                        push_str(&mut m, ".");
                        say.push(Line::Out(m));
                    }
                    proof {
                        assert(line_views(say@) == unless_quiet(
                            self.quiet,
                            true,
                            pushed_text(self.branch@),
                        ));
                    }
                    self.finish(say, Ok(()))
                },
                Err(e) => self.finish(Vec::new(), Err(e)),
            },
        }
    }
}

} // verus!
