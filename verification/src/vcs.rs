use vstd::prelude::*;

use crate::errors::{ErrorKind, ServiceError};

verus! {

#[verifier::external_type_specification]
#[verifier::external_body]
pub struct ExGitStatusBits(git2::Status);

/// The status of one repository working copy.
#[derive(Debug)]
pub struct GitStatus {
    pub current_branch: Option<String>,
    pub is_dirty: bool,
    pub ahead: usize,
    pub behind: usize,
    pub files: Vec<GitFileStatus>,
    pub repository_state: String,
}

/// The status of one file of a working copy.
#[derive(Debug)]
pub struct GitFileStatus {
    pub path: String,
    pub status: String,
    pub is_staged: bool,
    pub is_modified: bool,
    pub is_new: bool,
    pub is_deleted: bool,
}

/// One branch of a repository.
#[derive(Debug)]
pub struct GitBranch {
    pub name: String,
    pub is_head: bool,
    pub is_remote: bool,
    pub upstream: Option<String>,
}

/// One working tree of a repository.
#[derive(Debug)]
pub struct WorktreeInfo {
    pub name: String,
    pub path: String,
    pub branch: Option<String>,
    pub is_locked: bool,
    pub is_prunable: bool,
}

/// The raw per-file status bits of the version-control backend.
#[derive(Clone, Copy, Debug, PartialEq, Eq, Structural)]
pub struct StatusFlags {
    pub index_new: bool,
    pub index_modified: bool,
    pub index_deleted: bool,
    pub wt_new: bool,
    pub wt_modified: bool,
    pub wt_deleted: bool,
    pub ignored: bool,
}

/// One file as the version-control backend reports it: its path and its raw
/// status bits.
#[derive(Debug)]
pub struct RawFileStatus {
    pub path: String,
    pub flags: StatusFlags,
}

/// The short status string of one file: one letter per set bit, in a fixed
/// order, or `clean` when no bit is set.
pub open spec fn spec_status_string(f: StatusFlags) -> Seq<char> {
    let parts = (if f.index_new {
        "A"@
    } else {
        Seq::empty()
    }) + (if f.index_modified {
        "M"@
    } else {
        Seq::empty()
    }) + (if f.index_deleted {
        "D"@
    } else {
        Seq::empty()
    }) + (if f.wt_new {
        "??"@
    } else {
        Seq::empty()
    }) + (if f.wt_modified {
        "M"@
    } else {
        Seq::empty()
    }) + (if f.wt_deleted {
        "D"@
    } else {
        Seq::empty()
    }) + (if f.ignored {
        "!"@
    } else {
        Seq::empty()
    });
    if parts.len() == 0 {
        "clean"@
    } else {
        parts
    }
}

/// Renders the short status string of one file.
pub fn status_flags_to_string(f: StatusFlags) -> (r: String)
    ensures
        r@ == spec_status_string(f),
{
    let any = f.index_new || f.index_modified || f.index_deleted || f.wt_new || f.wt_modified
        || f.wt_deleted || f.ignored;
    if !any {
        let r = String::from_str("clean");
        proof {
            assert(spec_status_string(f) =~= "clean"@) by {
                assert((Seq::<char>::empty() + Seq::<char>::empty() + Seq::<char>::empty() + Seq::<
                    char,
                >::empty() + Seq::<char>::empty() + Seq::<char>::empty() + Seq::<
                    char,
                >::empty()).len() == 0);
            }
        }
        return r;
    }
    let mut s = String::new();
    if f.index_new {
        s.append("A");
    }
    if f.index_modified {
        s.append("M");
    }
    if f.index_deleted {
        s.append("D");
    }
    if f.wt_new {
        s.append("??");
    }
    if f.wt_modified {
        s.append("M");
    }
    if f.wt_deleted {
        s.append("D");
    }
    if f.ignored {
        s.append("!");
    }
    proof {
        reveal_strlit("A");
        reveal_strlit("M");
        reveal_strlit("D");
        reveal_strlit("??");
        reveal_strlit("!");
        assert(s@ =~= spec_status_string(f));
    }
    s
}

/// Builds the per-file status record from the backend's raw bits: staged
/// when any index bit is set, modified, new, or deleted when the matching
/// index or working-tree bit is set.
pub fn file_status_from_raw(raw: RawFileStatus) -> (r: GitFileStatus)
    ensures
        r.path == raw.path,
        r.status@ == spec_status_string(raw.flags),
        r.is_staged == (raw.flags.index_new || raw.flags.index_modified
            || raw.flags.index_deleted),
        r.is_modified == (raw.flags.wt_modified || raw.flags.index_modified),
        r.is_new == (raw.flags.wt_new || raw.flags.index_new),
        r.is_deleted == (raw.flags.wt_deleted || raw.flags.index_deleted),
{
    let status = status_flags_to_string(raw.flags);
    GitFileStatus {
        path: raw.path,
        status,
        is_staged: raw.flags.index_new || raw.flags.index_modified || raw.flags.index_deleted,
        is_modified: raw.flags.wt_modified || raw.flags.index_modified,
        is_new: raw.flags.wt_new || raw.flags.index_new,
        is_deleted: raw.flags.wt_deleted || raw.flags.index_deleted,
    }
}

/// `f` renders exactly the raw bits `flags`: its status string and each of
/// its derived fields agree with them.
pub open spec fn spec_file_from(f: GitFileStatus, flags: StatusFlags) -> bool {
    &&& f.status@ == spec_status_string(flags)
    &&& f.is_staged == (flags.index_new || flags.index_modified || flags.index_deleted)
    &&& f.is_modified == (flags.wt_modified || flags.index_modified)
    &&& f.is_new == (flags.wt_new || flags.index_new)
    &&& f.is_deleted == (flags.wt_deleted || flags.index_deleted)
}

/// A per-file status whose fields are mutually consistent: all of them
/// render one and the same set of raw bits.
pub open spec fn file_consistent(f: GitFileStatus) -> bool {
    exists|flags: StatusFlags| spec_file_from(f, flags)
}

// ---------------------------------------------------------------------------
// The version-control backend, behind trusted declarations. Every call
// depends on what is on disk, so none promises more than the shape of its
// result.
// ---------------------------------------------------------------------------

/// Relies on `git2::Repository::open`: a path opens exactly when it holds a
/// repository this backend accepts.
#[verifier::external_body]
fn open_ok(path: &str) -> bool {
    git2::Repository::open(path).is_ok()
}

/// Relies on `git2::Repository::head` and `git2::Reference::shorthand`; an
/// unborn branch reports no current branch.
#[verifier::external_body]
fn current_branch_of(path: &str) -> Result<Option<String>, String> {
    let repo = git2::Repository::open(path).map_err(|e| e.message().to_string())?;
    let out = match repo.head() {
        Ok(h) => Ok(h.shorthand().ok().map(|s| s.to_string())),
        Err(e) if e.code() == git2::ErrorCode::UnbornBranch => Ok(None),
        Err(e) => Err(e.message().to_string()),
    };
    out
}

/// Relies on `git2::Repository::statuses` with untracked files included and
/// ignored files excluded: one entry per reported file, with its raw bits.
#[verifier::external_body]
fn raw_status_entries(path: &str) -> Result<Vec<(String, git2::Status)>, String> {
    let repo = git2::Repository::open(path).map_err(|e| e.message().to_string())?;
    let mut opts = git2::StatusOptions::new();
    opts.include_untracked(true).include_ignored(false);
    let statuses = repo.statuses(Some(&mut opts)).map_err(|e| e.message().to_string())?;
    Ok(statuses.iter().map(|e| (e.path().unwrap_or("").to_string(), e.status())).collect())
}

/// Relies on `git2::Status::contains`: each field is one status bit.
#[verifier::external_body]
fn status_bits(s: git2::Status) -> StatusFlags {
    StatusFlags {
        index_new: s.contains(git2::Status::INDEX_NEW),
        index_modified: s.contains(git2::Status::INDEX_MODIFIED),
        index_deleted: s.contains(git2::Status::INDEX_DELETED),
        wt_new: s.contains(git2::Status::WT_NEW),
        wt_modified: s.contains(git2::Status::WT_MODIFIED),
        wt_deleted: s.contains(git2::Status::WT_DELETED),
        ignored: s.contains(git2::Status::IGNORED),
    }
}

/// Relies on `git2::Branch::upstream` and `git2::Repository::graph_ahead_behind`:
/// the commits ahead of and behind the upstream, zero without one.
#[verifier::external_body]
fn ahead_behind_of(path: &str) -> Result<(usize, usize), String> {
    let repo = git2::Repository::open(path).map_err(|e| e.message().to_string())?;
    let head = match repo.head() {
        Ok(h) => h,
        Err(_) => return Ok((0, 0)),
    };
    let local = head.target().ok_or_else(|| "no target for head".to_string())?;
    let up = match git2::Branch::wrap(head).upstream() {
        Ok(u) => u,
        Err(_) => return Ok((0, 0)),
    };
    let target = up.get().target().ok_or_else(|| "no target for upstream".to_string())?;
    Ok(repo.graph_ahead_behind(local, target).unwrap_or((0, 0)))
}

/// Relies on `git2::Repository::state`, rendered through its debug form.
#[verifier::external_body]
fn repository_state_of(path: &str) -> Result<String, String> {
    match git2::Repository::open(path) {
        Ok(r) => Ok(format!("{:?}", r.state())),
        Err(e) => Err(e.message().to_string()),
    }
}

/// Relies on `git2::Repository::branches` over local branches: each entry is
/// a branch's name, whether it is checked out, and its upstream's name.
#[verifier::external_body]
fn local_branch_entries(path: &str) -> Result<Vec<(String, bool, Option<String>)>, String> {
    let repo = git2::Repository::open(path).map_err(|e| e.message().to_string())?;
    let branches = repo.branches(Some(git2::BranchType::Local)).map_err(|e| e.message().to_string())?;
    let mut out = Vec::new();
    for entry in branches {
        let (b, _) = entry.map_err(|e| e.message().to_string())?;
        if let Ok(Some(name)) = b.name() {
            let upstream = b.upstream().ok().and_then(|u| u.name().ok().flatten().map(|s| s.to_string()));
            out.push((name.to_string(), b.is_head(), upstream));
        }
    }
    Ok(out)
}

/// Relies on `git2::Repository::branches` over remote branches: their names.
#[verifier::external_body]
fn remote_branch_entries(path: &str) -> Result<Vec<String>, String> {
    let repo = git2::Repository::open(path).map_err(|e| e.message().to_string())?;
    let branches = repo.branches(Some(git2::BranchType::Remote)).map_err(|e| e.message().to_string())?;
    let mut out = Vec::new();
    for entry in branches {
        let (b, _) = entry.map_err(|e| e.message().to_string())?;
        if let Ok(Some(name)) = b.name() {
            out.push(name.to_string());
        }
    }
    Ok(out)
}

/// Relies on `git2::Repository::worktrees`, `find_worktree`, and the
/// worktree's `path`, `is_locked` and `is_prunable` queries: each tracked
/// working tree's name, path, lock flag and prunable flag.
#[verifier::external_body]
fn worktree_entries(path: &str) -> Result<Vec<(String, String, bool, bool)>, String> {
    let repo = git2::Repository::open(path).map_err(|e| e.message().to_string())?;
    let names = repo.worktrees().map_err(|e| e.message().to_string())?;
    let mut out = Vec::new();
    for name in names.iter() {
        let Ok(Some(name)) = name else { continue };
        if let Ok(wt) = repo.find_worktree(name) {
            let prunable = wt.is_prunable(None).map_err(|_| "failed to check if worktree is prunable".to_string())?;
            out.push((name.to_string(), wt.path().to_string_lossy().to_string(), wt.is_locked().is_ok(), prunable));
        }
    }
    Ok(out)
}

/// Relies on `git2::Repository::worktree`: adds a working tree under the
/// given name at the given path.
#[verifier::external_body]
fn add_worktree_raw(repo_path: &str, name: &str, target: &str) -> Result<(), String> {
    let repo = git2::Repository::open(repo_path).map_err(|e| e.message().to_string())?;
    let opts = git2::WorktreeAddOptions::new();
    repo.worktree(name, std::path::Path::new(target), Some(&opts))
        .map(|_| ())
        .map_err(|e| e.message().to_string())
}

/// Relies on `git2::Repository::find_reference`: whether the full reference
/// name resolves.
#[verifier::external_body]
fn reference_exists(repo_path: &str, refname: &str) -> Result<bool, String> {
    match git2::Repository::open(repo_path) {
        Ok(r) => Ok(r.find_reference(refname).is_ok()),
        Err(e) => Err(e.message().to_string()),
    }
}

/// Relies on `git2::Repository::branch` from the commit at head.
#[verifier::external_body]
fn branch_from_head(repo_path: &str, name: &str) -> Result<(), String> {
    let repo = git2::Repository::open(repo_path).map_err(|e| e.message().to_string())?;
    let head = repo.head().map_err(|e| e.message().to_string())?;
    let target = head.target().ok_or_else(|| "no target for head".to_string())?;
    let commit = repo.find_commit(target).map_err(|e| e.message().to_string())?;
    repo.branch(name, &commit, false).map(|_| ()).map_err(|e| e.message().to_string())
}

/// Relies on `git2::Repository::branch` from the commit a reference peels to.
#[verifier::external_body]
fn branch_from_ref(repo_path: &str, name: &str, from_ref: &str) -> Result<(), String> {
    let repo = git2::Repository::open(repo_path).map_err(|e| e.message().to_string())?;
    let reference = repo.find_reference(from_ref).map_err(|e| e.message().to_string())?;
    let commit = reference.peel_to_commit().map_err(|e| e.message().to_string())?;
    repo.branch(name, &commit, false).map(|_| ()).map_err(|e| e.message().to_string())
}

/// Relies on `git2::Repository::set_head` and `checkout_tree`: checks out
/// the commit the full reference name peels to.
#[verifier::external_body]
fn checkout_ref(repo_path: &str, refname: &str) -> Result<(), String> {
    let repo = git2::Repository::open(repo_path).map_err(|e| e.message().to_string())?;
    let reference = repo.find_reference(refname).map_err(|e| e.message().to_string())?;
    let commit = reference.peel_to_commit().map_err(|e| e.message().to_string())?;
    repo.set_head(refname).map_err(|e| e.message().to_string())?;
    repo.checkout_tree(commit.as_object(), None).map_err(|e| e.message().to_string())
}

/// Relies on `git2::Worktree::prune` with the validity check enabled.
#[verifier::external_body]
fn prune_worktree(repo_path: &str, worktree_name: &str) -> Result<(), String> {
    let repo = git2::Repository::open(repo_path).map_err(|e| e.message().to_string())?;
    let worktree = repo.find_worktree(worktree_name).map_err(|e| e.message().to_string())?;
    let mut opts = git2::WorktreePruneOptions::new();
    opts.valid(true);
    worktree.prune(Some(&mut opts)).map_err(|e| e.message().to_string())
}

/// Relies on `git2::Repository::init` and `init_bare`.
#[verifier::external_body]
fn init_repo_raw(path: &str, bare: bool) -> Result<(), String> {
    let r = if bare {
        git2::Repository::init_bare(path)
    } else {
        git2::Repository::init(path)
    };
    r.map(|_| ()).map_err(|e| e.message().to_string())
}

/// Relies on `git2::Config::open_default` and `set_str` for the
/// `core.excludesfile` key.
#[verifier::external_body]
fn set_excludesfile(path: &str) -> Result<(), String> {
    let mut config = git2::Config::open_default().map_err(|e| e.message().to_string())?;
    config.set_str("core.excludesfile", path).map_err(|e| e.message().to_string())
}

/// Relies on `git2::Config::open_default` and `get_string` for the
/// `core.excludesfile` key; an unset key is `None`.
#[verifier::external_body]
fn get_excludesfile() -> Result<Option<String>, String> {
    let config = git2::Config::open_default().map_err(|e| e.message().to_string())?;
    match config.get_string("core.excludesfile") {
        Ok(p) => Ok(Some(p)),
        Err(e) if e.code() == git2::ErrorCode::NotFound => Ok(None),
        Err(e) => Err(e.message().to_string()),
    }
}

// ---------------------------------------------------------------------------
// The VersionControl surface the rest of the library consumes.
// ---------------------------------------------------------------------------

/// A branch list that is partitioned: local branches first, then remote
/// ones, with remote entries never head and never carrying an upstream.
pub open spec fn branches_partitioned(bs: Seq<GitBranch>) -> bool {
    exists|n_local: int| branches_shape(bs, n_local)
}

/// A branch list with the local branches first: exactly the entries from
/// `n_local` on are remote, and a remote entry is never head and never
/// carries an upstream.
pub open spec fn branches_shape(bs: Seq<GitBranch>, n_local: int) -> bool {
    &&& 0 <= n_local <= bs.len()
    &&& forall|i: int| 0 <= i < bs.len() ==> ((#[trigger] bs[i]).is_remote <==> i >= n_local)
    &&& forall|i: int|
        n_local <= i < bs.len() ==> (#[trigger] bs[i]).upstream is None && !bs[i].is_head
}

/// The full reference name of a branch.
pub open spec fn spec_branch_ref(branch: Seq<char>) -> Seq<char> {
    "refs/heads/"@ + branch
}

/// Builds the full reference name of a branch.
pub fn branch_ref_of(branch: &str) -> (r: String)
    ensures
        r@ == spec_branch_ref(branch@),
{
    let s = String::from_str("refs/heads/");
    s.concat(branch)
}

/// The version-control backend. Every operation takes the repository path;
/// what it returns depends on the repository on disk.
pub struct GitService {
    _private: bool,
}

impl GitService {
    /// A fresh backend handle.
    pub fn new() -> GitService {
        GitService { _private: false }
    }

    /// Whether the path holds a repository the backend can open.
    pub fn is_git_repository(path: &str) -> bool {
        open_ok(path)
    }

    /// Initialises a new repository at the path, bare or with a working
    /// copy.
    pub fn init_repository(path: &str, bare: bool) -> (r: Result<(), ServiceError>)
        ensures
            match r {
                Ok(_) => true,
                Err(e) => e.kind == ErrorKind::BackingStore,
            },
    {
        match init_repo_raw(path, bare) {
            Ok(_) => Ok(()),
            Err(m) => Err(ServiceError::backing_store(m)),
        }
    }

    /// The status of the working copy at the path: its current branch, its
    /// per-file statuses (dirty exactly when any file is reported), how far
    /// it is ahead of and behind its upstream, and the repository state.
    pub fn get_repository_status(repo_path: &str) -> (r: Result<GitStatus, ServiceError>)
        ensures
            match r {
                Ok(st) => st.is_dirty == (st.files@.len() > 0) && (forall|i: int|
                    0 <= i < st.files@.len() ==> file_consistent(#[trigger] st.files@[i])),
                Err(e) => e.kind == ErrorKind::BackingStore,
            },
    {
        let current_branch = match current_branch_of(repo_path) {
            Ok(b) => b,
            Err(m) => {
                return Err(ServiceError::backing_store(m));
            },
        };
        let entries = match raw_status_entries(repo_path) {
            Ok(v) => v,
            Err(m) => {
                return Err(ServiceError::backing_store(m));
            },
        };
        let mut files: Vec<GitFileStatus> = Vec::new();
        let mut i: usize = 0;
        while i < entries.len()
            invariant
                0 <= i <= entries@.len(),
                files@.len() == i,
                forall|j: int| 0 <= j < i ==> file_consistent(#[trigger] files@[j]),
            decreases entries@.len() - i,
        {
            let path = entries[i].0.clone();
            let bits = status_bits(entries[i].1);
            let ghost before = files@;
            let f = file_status_from_raw(RawFileStatus { path, flags: bits });
            proof {
                assert(spec_file_from(f, bits));
            }
            files.push(f);
            proof {
                assert(files@ == before.push(f));
            }
            i += 1;
        }
        let (ahead, behind) = match ahead_behind_of(repo_path) {
            Ok(v) => v,
            Err(m) => {
                return Err(ServiceError::backing_store(m));
            },
        };
        let repository_state = match repository_state_of(repo_path) {
            Ok(s) => s,
            Err(m) => {
                return Err(ServiceError::backing_store(m));
            },
        };
        let is_dirty = files.len() > 0;
        Ok(GitStatus { current_branch, is_dirty, ahead, behind, files, repository_state })
    }

    /// All branches of the repository: local branches first, each with its
    /// head flag and upstream, then remote branches, which carry neither.
    pub fn get_branches(repo_path: &str) -> (r: Result<Vec<GitBranch>, ServiceError>)
        ensures
            r matches Ok(bs) ==> branches_partitioned(bs@),
            r matches Err(e) ==> e.kind == ErrorKind::BackingStore,
    {
        let locals = match local_branch_entries(repo_path) {
            Ok(v) => v,
            Err(m) => {
                return Err(ServiceError::backing_store(m));
            },
        };
        let remotes = match remote_branch_entries(repo_path) {
            Ok(v) => v,
            Err(m) => {
                return Err(ServiceError::backing_store(m));
            },
        };
        let mut branches: Vec<GitBranch> = Vec::new();
        let mut i: usize = 0;
        while i < locals.len()
            invariant
                0 <= i <= locals@.len(),
                branches@.len() == i,
                forall|j: int| 0 <= j < i ==> !(#[trigger] branches@[j]).is_remote,
            decreases locals@.len() - i,
        {
            let name = locals[i].0.clone();
            let is_head = locals[i].1;
            let upstream = match &locals[i].2 {
                Some(u) => Some(u.clone()),
                None => None,
            };
            branches.push(GitBranch { name, is_head, is_remote: false, upstream });
            i += 1;
        }
        let ghost n_local = branches@.len() as int;
        let mut j: usize = 0;
        while j < remotes.len()
            invariant
                0 <= j <= remotes@.len(),
                branches@.len() == n_local + j,
                0 <= n_local <= branches@.len(),
                forall|k: int| 0 <= k < n_local ==> !(#[trigger] branches@[k]).is_remote,
                forall|k: int|
                    n_local <= k < branches@.len() ==> (#[trigger] branches@[k]).is_remote && (
                    branches@[k].upstream is None) && !(branches@[k].is_head),
            decreases remotes@.len() - j,
        {
            let name = remotes[j].clone();
            branches.push(GitBranch { name, is_head: false, is_remote: true, upstream: None });
            j += 1;
        }
        proof {
            assert(branches_partitioned(branches@)) by {
                assert(branches_shape(branches@, n_local));
            }
        }
        Ok(branches)
    }

    /// Creates a working tree under the given name at the given path; when a
    /// branch is named and no such reference exists yet, the branch is first
    /// created from head.
    pub fn create_worktree(
        repo_path: &str,
        worktree_name: &str,
        worktree_path: &str,
        branch_name: Option<&str>,
    ) -> (r: Result<(), ServiceError>)
        ensures
            match r {
                Ok(_) => true,
                Err(e) => e.kind == ErrorKind::BackingStore,
            },
    {
        if let Some(branch) = branch_name {
            let refname = branch_ref_of(branch);
            let exists_already = match reference_exists(repo_path, refname.as_str()) {
                Ok(b) => b,
                Err(m) => {
                    return Err(ServiceError::backing_store(m));
                },
            };
            if !exists_already {
                if let Err(m) = branch_from_head(repo_path, branch) {
                    return Err(ServiceError::backing_store(m));
                }
            }
        }
        match add_worktree_raw(repo_path, worktree_name, worktree_path) {
            Ok(_) => Ok(()),
            Err(m) => Err(ServiceError::backing_store(m)),
        }
    }

    /// All working trees the repository tracks, each with the branch its own
    /// head reports, if it reports one.
    pub fn list_worktrees(repo_path: &str) -> (r: Result<Vec<WorktreeInfo>, ServiceError>)
        ensures
            match r {
                Ok(_) => true,
                Err(e) => e.kind == ErrorKind::BackingStore,
            },
    {
        let entries = match worktree_entries(repo_path) {
            Ok(v) => v,
            Err(m) => {
                return Err(ServiceError::backing_store(m));
            },
        };
        let mut out: Vec<WorktreeInfo> = Vec::new();
        let mut i: usize = 0;
        while i < entries.len()
            invariant
                0 <= i <= entries@.len(),
            decreases entries@.len() - i,
        {
            let name = entries[i].0.clone();
            let path = entries[i].1.clone();
            let is_locked = entries[i].2;
            let is_prunable = entries[i].3;
            let branch = match current_branch_of(path.as_str()) {
                Ok(b) => b,
                Err(_) => None,
            };
            out.push(WorktreeInfo { name, path, branch, is_locked, is_prunable });
            i += 1;
        }
        Ok(out)
    }

    /// Removes a working tree by name, pruning it if it is valid.
    pub fn remove_worktree(repo_path: &str, worktree_name: &str) -> (r: Result<(), ServiceError>)
        ensures
            match r {
                Ok(_) => true,
                Err(e) => e.kind == ErrorKind::BackingStore,
            },
    {
        match prune_worktree(repo_path, worktree_name) {
            Ok(_) => Ok(()),
            Err(m) => Err(ServiceError::backing_store(m)),
        }
    }

    /// Checks out a branch by name.
    pub fn checkout_branch(repo_path: &str, branch_name: &str) -> (r: Result<(), ServiceError>)
        ensures
            match r {
                Ok(_) => true,
                Err(e) => e.kind == ErrorKind::BackingStore,
            },
    {
        let refname = branch_ref_of(branch_name);
        match checkout_ref(repo_path, refname.as_str()) {
            Ok(_) => Ok(()),
            Err(m) => Err(ServiceError::backing_store(m)),
        }
    }

    /// Creates a branch from another branch, or from head when none is
    /// named.
    pub fn create_branch(repo_path: &str, branch_name: &str, from_branch: Option<&str>) -> (r:
        Result<(), ServiceError>)
        ensures
            match r {
                Ok(_) => true,
                Err(e) => e.kind == ErrorKind::BackingStore,
            },
    {
        let outcome = match from_branch {
            Some(from) => {
                let refname = branch_ref_of(from);
                branch_from_ref(repo_path, branch_name, refname.as_str())
            },
            None => branch_from_head(repo_path, branch_name),
        };
        match outcome {
            Ok(_) => Ok(()),
            Err(m) => Err(ServiceError::backing_store(m)),
        }
    }

    /// Sets the global ignore file.
    pub fn set_global_gitignore(gitignore_path: &str) -> (r: Result<(), ServiceError>)
        ensures
            match r {
                Ok(_) => true,
                Err(e) => e.kind == ErrorKind::BackingStore,
            },
    {
        match set_excludesfile(gitignore_path) {
            Ok(_) => Ok(()),
            Err(m) => Err(ServiceError::backing_store(m)),
        }
    }

    /// The global ignore file, if one is configured.
    pub fn get_global_gitignore() -> (r: Result<Option<String>, ServiceError>)
        ensures
            match r {
                Ok(_) => true,
                Err(e) => e.kind == ErrorKind::BackingStore,
            },
    {
        match get_excludesfile() {
            Ok(p) => Ok(p),
            Err(m) => Err(ServiceError::backing_store(m)),
        }
    }
}

} // verus!
