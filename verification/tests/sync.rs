use localbill::commands::sync::{SyncEvent, SyncMachine, SyncRequest};
use localbill::error::Error;
use localbill::ports::Line;

/// A scripted repository: its state, and the git commands asked of it.
struct Repo {
    is_repo: bool,
    dirty: bool,
    online: bool,
    reachable: bool,
    calls: Vec<String>,
    out: Vec<String>,
    status: Vec<String>,
}

impl Repo {
    fn new(online: bool) -> Repo {
        Repo {
            is_repo: true,
            dirty: true,
            online,
            reachable: false,
            calls: Vec::new(),
            out: Vec::new(),
            status: Vec::new(),
        }
    }

    /// Run `m` to its end against this repository.
    fn run(&mut self, mut m: SyncMachine) -> Result<(), Error> {
        let mut step = m.step(SyncEvent::Begin);
        loop {
            for l in step.say {
                match l {
                    Line::Out(s) => self.out.push(s),
                    Line::Status(s) => self.status.push(s),
                }
            }
            let event = match step.request {
                SyncRequest::IsRepo => SyncEvent::IsRepo(self.is_repo),
                SyncRequest::HasInternet => SyncEvent::HasInternet(self.online),
                SyncRequest::Reachable => SyncEvent::Reachable(self.reachable),
                SyncRequest::Pull => {
                    self.calls.push("pull".to_string());
                    SyncEvent::Pulled(Ok(()))
                }
                SyncRequest::IsDirty => SyncEvent::Dirty(Ok(self.dirty)),
                SyncRequest::Timestamp => SyncEvent::Now("2024-01-01 00:00:00".to_string()),
                SyncRequest::Commit(msg) => {
                    self.calls.push(format!("commit:{msg}"));
                    SyncEvent::Committed(Ok(()))
                }
                SyncRequest::CurrentBranch => SyncEvent::Branch(Ok("main".to_string())),
                SyncRequest::Push(b) => {
                    self.calls.push(format!("push:{b}"));
                    SyncEvent::Pushed(Ok(()))
                }
                SyncRequest::Finish(r) => return r,
            };
            step = m.step(event);
        }
    }
}

fn user_sync() -> SyncMachine {
    SyncMachine::new("/mem".to_string(), None, None, true, false)
}

#[test]
fn sync_offline_commits_without_push() {
    let mut repo = Repo::new(false);
    repo.run(user_sync()).unwrap();
    assert!(repo.calls.iter().any(|c| c.starts_with("commit:")));
    assert!(!repo.calls.iter().any(|c| c.starts_with("push:")));
    assert!(repo.status.iter().any(|s| s.contains("Offline")));
}

#[test]
fn sync_nothing_to_commit_when_clean() {
    let mut repo = Repo::new(true);
    repo.dirty = false;
    repo.run(user_sync()).unwrap();
    assert!(repo.calls.is_empty());
    assert!(repo.out.iter().any(|s| s.contains("Nothing to commit")));
}

#[test]
fn sync_online_pulls_commits_and_pushes() {
    let mut repo = Repo::new(true);
    repo.reachable = true;
    let m = SyncMachine::new("/mem".to_string(), None, Some("groceries".to_string()), true, false);
    repo.run(m).unwrap();
    assert_eq!(
        repo.calls,
        ["pull", "commit:Data sync: 2024-01-01 00:00:00 - groceries", "push:main"]
    );
    assert_eq!(repo.status, ["Internet detected, checking git remote…"]);
    assert_eq!(
        repo.out,
        ["Committed: Data sync: 2024-01-01 00:00:00 - groceries", "Pushed to origin/main."]
    );
}

#[test]
fn sync_unreachable_remote_commits_offline() {
    let mut repo = Repo::new(true);
    repo.run(user_sync()).unwrap();
    assert_eq!(repo.calls, ["commit:Offline Data sync: 2024-01-01 00:00:00"]);
}

#[test]
fn sync_refuses_a_directory_that_is_not_a_repository() {
    let mut repo = Repo::new(true);
    repo.is_repo = false;
    let err = repo.run(user_sync()).unwrap_err();
    assert_eq!(err.message(), "Git error: DATA_DIR '/mem' is not a git repository");
    assert!(repo.calls.is_empty());
}

#[test]
fn quiet_sync_says_nothing() {
    let mut repo = Repo::new(false);
    let m = SyncMachine::new("/mem".to_string(), Some("Offline".to_string()), None, false, true);
    repo.run(m).unwrap();
    assert!(repo.out.is_empty() && repo.status.is_empty());
    assert_eq!(repo.calls, ["commit:OfflineData sync: 2024-01-01 00:00:00"]);
}
