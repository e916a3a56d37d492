use vstd::multiset::Multiset;
use vstd::prelude::*;

use crate::dict::StrDict;
use crate::errors::{ErrorKind, ServiceError};
use crate::text;
use crate::vcs::GitStatus;

verus! {

/// Lifecycle of one workspace. `Archived` is sticky: reconciliation never
/// overwrites it.
#[derive(Clone, Copy, Debug, PartialEq, Eq, Structural)]
pub enum WorkspaceStatus {
    Active,
    Inactive,
    Archived,
    Broken,
}

/// The view of an optional string.
pub open spec fn opt_str_view(o: Option<String>) -> Option<Seq<char>> {
    match o {
        Some(s) => Some(s@),
        None => None,
    }
}

/// The views of a list of strings.
pub open spec fn strings_view(s: Seq<String>) -> Seq<Seq<char>> {
    s.map_values(|t: String| t@)
}

/// No two entries are equal.
pub open spec fn nodup_seq(s: Seq<Seq<char>>) -> bool {
    forall|i: int, j: int| 0 <= i < j < s.len() ==> s[i] != s[j]
}

/// The durable record of one workspace.
#[derive(Debug)]
pub struct WorkspaceMetadata {
    pub id: u64,
    pub name: String,
    pub repository_path: String,
    pub workspace_path: String,
    pub branch: Option<String>,
    pub status: WorkspaceStatus,
    pub created_at: u64,
    pub updated_at: u64,
    pub last_accessed_at: Option<u64>,
    pub archived_at: Option<u64>,
    pub description: Option<String>,
    pub tags: Vec<String>,
    pub custom_fields: StrDict,
}

/// The mathematical content of one workspace record.
pub ghost struct WorkspaceMetadataView {
    pub id: u64,
    pub name: Seq<char>,
    pub repository_path: Seq<char>,
    pub workspace_path: Seq<char>,
    pub branch: Option<Seq<char>>,
    pub status: WorkspaceStatus,
    pub created_at: u64,
    pub updated_at: u64,
    pub last_accessed_at: Option<u64>,
    pub archived_at: Option<u64>,
    pub description: Option<Seq<char>>,
    pub tags: Seq<Seq<char>>,
    pub custom_fields: Map<Seq<char>, Seq<char>>,
}

impl View for WorkspaceMetadata {
    type V = WorkspaceMetadataView;

    open spec fn view(&self) -> WorkspaceMetadataView {
        WorkspaceMetadataView {
            id: self.id,
            name: self.name@,
            repository_path: self.repository_path@,
            workspace_path: self.workspace_path@,
            branch: opt_str_view(self.branch),
            status: self.status,
            created_at: self.created_at,
            updated_at: self.updated_at,
            last_accessed_at: self.last_accessed_at,
            archived_at: self.archived_at,
            description: opt_str_view(self.description),
            tags: strings_view(self.tags@),
            custom_fields: self.custom_fields@,
        }
    }
}

/// Copies a list of strings.
fn clone_strings(v: &Vec<String>) -> (r: Vec<String>)
    ensures
        strings_view(r@) == strings_view(v@),
{
    let mut r: Vec<String> = Vec::new();
    let mut i: usize = 0;
    while i < v.len()
        invariant
            0 <= i <= v@.len(),
            r@.len() == i,
            forall|j: int| 0 <= j < i ==> #[trigger] r@[j]@ == v@[j]@,
        decreases v@.len() - i,
    {
        let ghost before = r@;
        let c = v[i].clone();
        r.push(c);
        proof {
            assert(r@ == before.push(c));
        }
        i += 1;
    }
    proof {
        assert(strings_view(r@) =~= strings_view(v@));
    }
    r
}

fn clone_opt_string(v: &Option<String>) -> (r: Option<String>)
    ensures
        opt_str_view(r) == opt_str_view(*v),
{
    match v {
        Some(s) => Some(s.clone()),
        None => None,
    }
}

impl Clone for WorkspaceMetadata {
    fn clone(&self) -> (r: Self)
        ensures
            r@ == self@,
            r.custom_fields.wf() == self.custom_fields.wf(),
    {
        let r = WorkspaceMetadata {
            id: self.id,
            name: self.name.clone(),
            repository_path: self.repository_path.clone(),
            workspace_path: self.workspace_path.clone(),
            branch: clone_opt_string(&self.branch),
            status: self.status,
            created_at: self.created_at,
            updated_at: self.updated_at,
            last_accessed_at: self.last_accessed_at,
            archived_at: self.archived_at,
            description: clone_opt_string(&self.description),
            tags: clone_strings(&self.tags),
            custom_fields: self.custom_fields.clone(),
        };
        proof {
            assert(r@.tags =~= self@.tags);
        }
        r
    }
}

/// What a caller asks for when creating a workspace.
#[derive(Debug)]
pub struct CreateWorkspaceRequest {
    pub name: String,
    pub repository_path: String,
    pub branch: Option<String>,
    pub description: Option<String>,
    pub tags: Vec<String>,
    pub base_path: Option<String>,
}

/// What a caller asks for when archiving a workspace.
#[derive(Debug)]
pub struct ArchiveWorkspaceRequest {
    pub workspace_id: u64,
    pub keep_files: bool,
    pub archive_reason: Option<String>,
}

/// A workspace record together with what the filesystem and the
/// version-control backend say about it right now.
#[derive(Debug)]
pub struct WorkspaceInfo {
    pub metadata: WorkspaceMetadata,
    pub git_status: Option<GitStatus>,
    pub path_exists: bool,
    pub is_git_worktree: bool,
}

/// What the filesystem and the version-control backend say about a
/// workspace path; probed by the caller right before the call that takes it.
#[derive(Clone, Copy, Debug, PartialEq, Eq, Structural)]
pub struct PathProbe {
    pub exists: bool,
    pub is_git_repository: bool,
}

/// What the caller established about a repository before creating a
/// workspace in it.
#[derive(Clone, Copy, Debug, PartialEq, Eq, Structural)]
pub struct RepoProbe {
    pub is_managed: bool,
    pub is_git_repository: bool,
}

/// The plan for creating one workspace: where its working tree goes and
/// under which name the version-control backend tracks it.
#[derive(Debug)]
pub struct WorkspacePlan {
    pub workspace_id: u64,
    pub workspace_path: String,
    pub worktree_name: String,
    pub branch: Option<String>,
}

/// What archiving asks the caller to do before the archive is committed.
#[derive(Debug)]
pub struct ArchivePlan {
    pub remove_files: bool,
    pub worktree_name: String,
    pub workspace_path: String,
}

/// What restoring asks the caller to do before the restore is committed.
#[derive(Debug)]
pub struct RestorePlan {
    pub recreate: bool,
    pub worktree_name: String,
    pub workspace_path: String,
    pub branch: Option<String>,
}

/// What deleting asks the caller to remove, best effort.
#[derive(Debug)]
pub struct DeletePlan {
    pub worktree_name: String,
    pub workspace_path: String,
}

/// The derived summary of the registry: counts by status plus the id list.
/// A cache, never authoritative; rebuilt from the records after every
/// mutating call.
#[derive(Debug)]
pub struct WorkspaceIndex {
    pub total_count: usize,
    pub active_count: usize,
    pub archived_count: usize,
    pub broken_count: usize,
    pub workspace_ids: Vec<u64>,
}

/// The mathematical content of the summary index.
pub ghost struct WorkspaceIndexView {
    pub total_count: int,
    pub active_count: int,
    pub archived_count: int,
    pub broken_count: int,
    pub workspace_ids: Seq<u64>,
}

impl View for WorkspaceIndex {
    type V = WorkspaceIndexView;

    open spec fn view(&self) -> WorkspaceIndexView {
        WorkspaceIndexView {
            total_count: self.total_count as int,
            active_count: self.active_count as int,
            archived_count: self.archived_count as int,
            broken_count: self.broken_count as int,
            workspace_ids: self.workspace_ids@,
        }
    }
}

/// How many records hold status `st`.
pub open spec fn count_status(s: Seq<WorkspaceMetadataView>, st: WorkspaceStatus) -> nat
    decreases s.len(),
{
    if s.len() == 0 {
        0
    } else {
        count_status(s.drop_last(), st) + (if s.last().status == st {
            1nat
        } else {
            0nat
        })
    }
}

/// The summary that a registry describes: the index is correct exactly when
/// it equals this.
pub open spec fn spec_index(s: Seq<WorkspaceMetadataView>) -> WorkspaceIndexView {
    WorkspaceIndexView {
        total_count: s.len() as int,
        active_count: count_status(s, WorkspaceStatus::Active) as int,
        archived_count: count_status(s, WorkspaceStatus::Archived) as int,
        broken_count: count_status(s, WorkspaceStatus::Broken) as int,
        workspace_ids: s.map_values(|w: WorkspaceMetadataView| w.id),
    }
}

/// A record with id `id` exists.
pub open spec fn has_workspace(s: Seq<WorkspaceMetadataView>, id: u64) -> bool {
    exists|i: int| 0 <= i < s.len() && s[i].id == id
}

/// The index of the record with id `id`.
pub open spec fn index_of_workspace(s: Seq<WorkspaceMetadataView>, id: u64) -> int {
    choose|i: int| 0 <= i < s.len() && s[i].id == id
}

/// The record with id `id`.
pub open spec fn workspace_of(s: Seq<WorkspaceMetadataView>, id: u64) -> WorkspaceMetadataView {
    s[index_of_workspace(s, id)]
}

/// The manager's invariant: ids unique and below the allocation counter, a
/// working-tree path unique per repository among the records, tag sets free
/// of duplicates, and the summary index exactly the derived aggregate.
pub open spec fn workspace_manager_inv(v: WorkspaceManagerView) -> bool {
    &&& forall|i: int, j: int| 0 <= i < j < v.workspaces.len() ==> v.workspaces[i].id
        != v.workspaces[j].id
    &&& forall|i: int| 0 <= i < v.workspaces.len() ==> #[trigger] v.workspaces[i].id < v.next_id
    &&& forall|i: int, j: int|
        0 <= i < j < v.workspaces.len() ==> !(v.workspaces[i].repository_path
            == v.workspaces[j].repository_path && v.workspaces[i].workspace_path
            == v.workspaces[j].workspace_path)
    &&& forall|i: int| 0 <= i < v.workspaces.len() ==> nodup_seq(#[trigger] v.workspaces[i].tags)
    &&& v.index == spec_index(v.workspaces)
}

/// The name under which the version-control backend tracks a workspace's
/// working tree: a stable name derived from the workspace id.
pub open spec fn spec_worktree_name(id: u64) -> Seq<char> {
    "ws-"@ + text::spec_pad8(id)
}

/// Builds the working-tree name of a workspace.
pub fn worktree_name_for(id: u64) -> (r: String)
    ensures
        r@ == spec_worktree_name(id),
{
    let mut s = String::from_str("ws-");
    let p = text::pad8(id);
    s.append(p.as_str());
    s
}

/// The working-tree location of a new workspace: inside the caller-supplied
/// base path, or else beside the repository, in a directory named after the
/// repository and the workspace.
pub open spec fn spec_new_workspace_path(
    repo: Seq<char>,
    base_path: Option<Seq<char>>,
    name: Seq<char>,
) -> Seq<char> {
    text::spec_join(
        match base_path {
            Some(b) => b,
            None => text::spec_parent(repo),
        },
        text::spec_file_name(repo) + seq!['-'] + name,
    )
}

/// The registry has a record claiming this working-tree path for this
/// repository.
pub open spec fn path_in_use(
    s: Seq<WorkspaceMetadataView>,
    repo: Seq<char>,
    path: Seq<char>,
) -> bool {
    exists|i: int|
        0 <= i < s.len() && s[i].repository_path == repo && (#[trigger] s[i].workspace_path)
            == path
}

/// Orchestrates creation, archival, restoration, deletion and health
/// reconciliation of workspaces. Holds the registry of records and its
/// derived summary index; the caller owns all filesystem and
/// version-control work, handing in probes and carrying out plans.
pub struct WorkspaceManagerService {
    workspaces: Vec<WorkspaceMetadata>,
    next_id: u64,
    index: WorkspaceIndex,
}

/// The mathematical content of the manager.
pub ghost struct WorkspaceManagerView {
    pub workspaces: Seq<WorkspaceMetadataView>,
    pub next_id: u64,
    pub index: WorkspaceIndexView,
}

impl View for WorkspaceManagerService {
    type V = WorkspaceManagerView;

    closed spec fn view(&self) -> WorkspaceManagerView {
        WorkspaceManagerView {
            workspaces: self.workspaces@.map_values(|w: WorkspaceMetadata| w@),
            next_id: self.next_id,
            index: self.index@,
        }
    }
}

/// With pairwise-distinct ids, the chosen index of an id is the index where
/// it stands.
pub proof fn lemma_workspace_index_unique(s: Seq<WorkspaceMetadataView>, i: int, id: u64)
    requires
        forall|a: int, b: int| 0 <= a < b < s.len() ==> s[a].id != s[b].id,
        0 <= i < s.len(),
        s[i].id == id,
    ensures
        index_of_workspace(s, id) == i,
        has_workspace(s, id),
        workspace_of(s, id) == s[i],
{
    assert(has_workspace(s, id));
    let j = index_of_workspace(s, id);
    if j != i {
        if j < i {
            assert(s[j].id != s[i].id);
        } else {
            assert(s[i].id != s[j].id);
        }
    }
}

/// Membership in the view list is membership among the strings.
proof fn lemma_strings_view_contains(s: Seq<String>)
    ensures
        forall|x: Seq<char>| strings_view(s).contains(x) <==> text::spec_contains_string(s, x),
{
    assert forall|x: Seq<char>|
        strings_view(s).contains(x) <==> text::spec_contains_string(s, x) by {
        if strings_view(s).contains(x) {
            let k = choose|k: int| 0 <= k < strings_view(s).len() && strings_view(s)[k] == x;
            assert(s[k]@ == x);
        }
        if text::spec_contains_string(s, x) {
            let k = choose|k: int| 0 <= k < s.len() && s[k]@ == x;
            assert(strings_view(s)[k] == x);
        }
    }
}

impl WorkspaceManagerService {
    /// The registry is consistent: see [`workspace_manager_inv`], and every
    /// record's custom-field mapping is well formed.
    pub open spec fn wf(&self) -> bool {
        &&& workspace_manager_inv(self@)
        &&& self.reps_wf()
    }

    /// Representation well-formedness of the stored records.
    pub closed spec fn reps_wf(&self) -> bool {
        forall|i: int|
            0 <= i < self.workspaces@.len() ==> (
            #[trigger] self.workspaces@[i]).custom_fields.wf()
    }

    /// A fresh manager with no workspaces.
    pub fn new() -> (r: WorkspaceManagerService)
        ensures
            r.wf(),
            r@.workspaces.len() == 0,
            r@.next_id == 1,
    {
        let r = WorkspaceManagerService {
            workspaces: Vec::new(),
            next_id: 1,
            index: WorkspaceIndex {
                total_count: 0,
                active_count: 0,
                archived_count: 0,
                broken_count: 0,
                workspace_ids: Vec::new(),
            },
        };
        proof {
            assert(r@.index.workspace_ids =~= spec_index(r@.workspaces).workspace_ids);
        }
        r
    }

    fn position_of_workspace(&self, workspace_id: u64) -> (r: Option<usize>)
        ensures
            match r {
                Some(i) => i < self@.workspaces.len() && self@.workspaces[i as int].id
                    == workspace_id,
                None => !has_workspace(self@.workspaces, workspace_id),
            },
    {
        let mut i: usize = 0;
        while i < self.workspaces.len()
            invariant
                0 <= i <= self.workspaces@.len(),
                self@.workspaces.len() == self.workspaces@.len(),
                forall|j: int| 0 <= j < i ==> self@.workspaces[j].id != workspace_id,
                forall|j: int|
                    0 <= j < self.workspaces@.len() ==> #[trigger] self@.workspaces[j].id
                        == self.workspaces@[j].id,
            decreases self.workspaces@.len() - i,
        {
            if self.workspaces[i].id == workspace_id {
                return Some(i);
            }
            i += 1;
        }
        None
    }

    /// Rebuilds the summary index from the records; called after every
    /// mutation, so that the cache always equals the derived aggregate.
    fn reindex(&mut self)
        ensures
            final(self).workspaces@ == old(self).workspaces@,
            final(self)@.workspaces == old(self)@.workspaces,
            final(self)@.next_id == old(self)@.next_id,
            final(self)@.index == spec_index(final(self)@.workspaces),
    {
        let mut total: usize = 0;
        let mut active: usize = 0;
        let mut archived: usize = 0;
        let mut broken: usize = 0;
        let mut ids: Vec<u64> = Vec::new();
        let mut i: usize = 0;
        proof {
            assert(self@.workspaces.take(0) =~= Seq::empty());
            assert(Seq::<WorkspaceMetadataView>::empty().map_values(
                |w: WorkspaceMetadataView| w.id,
            ) =~= Seq::<u64>::empty());
        }
        while i < self.workspaces.len()
            invariant
                0 <= i <= self.workspaces@.len(),
                self@.workspaces.len() == self.workspaces@.len(),
                total == i,
                active <= i,
                archived <= i,
                broken <= i,
                active == count_status(self@.workspaces.take(i as int), WorkspaceStatus::Active),
                archived == count_status(
                    self@.workspaces.take(i as int),
                    WorkspaceStatus::Archived,
                ),
                broken == count_status(self@.workspaces.take(i as int), WorkspaceStatus::Broken),
                ids@ == self@.workspaces.take(i as int).map_values(
                    |w: WorkspaceMetadataView| w.id,
                ),
                forall|j: int|
                    0 <= j < self.workspaces@.len() ==> #[trigger] self@.workspaces[j]
                        == self.workspaces@[j]@,
            decreases self.workspaces@.len() - i,
        {
            proof {
                assert(self@.workspaces.take(i + 1).drop_last() =~= self@.workspaces.take(
                    i as int,
                ));
                assert(self@.workspaces.take(i + 1).last() == self@.workspaces[i as int]);
            }
            let st = self.workspaces[i].status;
            if matches!(st, WorkspaceStatus::Active) {
                active += 1;
            }
            if matches!(st, WorkspaceStatus::Archived) {
                archived += 1;
            }
            if matches!(st, WorkspaceStatus::Broken) {
                broken += 1;
            }
            let ghost idsbefore = ids@;
            ids.push(self.workspaces[i].id);
            proof {
                assert(ids@ =~= self@.workspaces.take(i + 1).map_values(
                    |w: WorkspaceMetadataView| w.id,
                ));
            }
            total += 1;
            i += 1;
        }
        proof {
            assert(self@.workspaces.take(self.workspaces@.len() as int) =~= self@.workspaces);
        }
        self.index = WorkspaceIndex {
            total_count: total,
            active_count: active,
            archived_count: archived,
            broken_count: broken,
            workspace_ids: ids,
        };
    }

    /// The deterministic working-tree location of a new workspace: inside
    /// the caller-supplied base path, or else beside the repository, in a
    /// directory named after the repository and the workspace.
    pub fn determine_workspace_path(repo_path: &str, request: &CreateWorkspaceRequest) -> (r:
        Result<String, ServiceError>)
        ensures
            r.is_ok() <==> text::spec_has_filename(repo_path@),
            match r {
                Ok(p) => p@ == spec_new_workspace_path(
                    repo_path@,
                    opt_str_view(request.base_path),
                    request.name@,
                ),
                Err(e) => e.kind == ErrorKind::Validation,
            },
    {
        let split = text::split_path(repo_path);
        match split {
            None => {
                proof {
                    if repo_path@.len() == 0 {
                    } else if repo_path@[repo_path@.len() - 1] == '/' {
                    } else {
                        text::lemma_no_slash(repo_path@);
                    }
                }
                Err(ServiceError::validation(String::from_str(
                    "cannot determine the repository name",
                )))
            },
            Some((parent, fname)) => {
                proof {
                    text::lemma_split_of_join(parent@, fname@);
                }
                let base = match &request.base_path {
                    Some(b) => b.clone(),
                    None => parent,
                };
                let mut dir = fname;
                proof {
                    reveal_strlit("-");
                    assert("-"@ =~= seq!['-']);
                }
                dir.append("-");
                dir.append(request.name.as_str());
                Ok(text::path_join(base.as_str(), dir.as_str()))
            },
        }
    }

    fn path_in_use_now(&self, repo_path: &str, path: &str) -> (r: bool)
        ensures
            r == path_in_use(self@.workspaces, repo_path@, path@),
    {
        let repo = String::from_str(repo_path);
        let p = String::from_str(path);
        let mut i: usize = 0;
        while i < self.workspaces.len()
            invariant
                0 <= i <= self.workspaces@.len(),
                self@.workspaces.len() == self.workspaces@.len(),
                repo@ == repo_path@,
                p@ == path@,
                forall|j: int|
                    0 <= j < i ==> !(self@.workspaces[j].repository_path == repo_path@ && (
                    #[trigger] self@.workspaces[j].workspace_path) == path@),
                forall|j: int|
                    0 <= j < self.workspaces@.len() ==> #[trigger] self@.workspaces[j]
                        == self.workspaces@[j]@,
            decreases self.workspaces@.len() - i,
        {
            if crate::text::string_eq(&self.workspaces[i].repository_path, &repo)
                && crate::text::string_eq(&self.workspaces[i].workspace_path, &p) {
                proof {
                    assert(self@.workspaces[i as int].repository_path == repo_path@);
                    assert(self@.workspaces[i as int].workspace_path == path@);
                    assert(path_in_use(self@.workspaces, repo_path@, path@));
                }
                return true;
            }
            i += 1;
        }
        false
    }

    /// First half of creating a workspace: requires the repository to be
    /// under management and a valid version-control repository, computes the
    /// deterministic working-tree location, refuses a location the registry
    /// already claims, and returns the plan — the working-tree name derived
    /// from the workspace id, and where to create it. Nothing changes until
    /// `commit_create_workspace`.
    pub fn plan_create_workspace(
        &self,
        repo_path: &str,
        request: &CreateWorkspaceRequest,
        repo: RepoProbe,
    ) -> (r: Result<WorkspacePlan, ServiceError>)
        requires
            self.wf(),
        ensures
            r.is_ok() <==> (repo.is_managed && repo.is_git_repository && text::spec_has_filename(
                repo_path@,
            ) && !path_in_use(
                self@.workspaces,
                repo_path@,
                spec_new_workspace_path(repo_path@, opt_str_view(request.base_path), request.name@),
            )),
            match r {
                Ok(plan) => {
                    &&& plan.workspace_id == self@.next_id
                    &&& plan.workspace_path@ == spec_new_workspace_path(
                        repo_path@,
                        opt_str_view(request.base_path),
                        request.name@,
                    )
                    &&& plan.worktree_name@ == spec_worktree_name(self@.next_id)
                    &&& opt_str_view(plan.branch) == opt_str_view(request.branch)
                },
                Err(e) => {
                    &&& (e.kind == ErrorKind::Validation <==> !(repo.is_managed
                        && repo.is_git_repository && text::spec_has_filename(repo_path@)))
                    &&& (e.kind == ErrorKind::Conflict <==> repo.is_managed
                        && repo.is_git_repository && text::spec_has_filename(repo_path@)
                        && path_in_use(
                        self@.workspaces,
                        repo_path@,
                        spec_new_workspace_path(
                            repo_path@,
                            opt_str_view(request.base_path),
                            request.name@,
                        ),
                    ))
                },
            },
    {
        if !repo.is_managed {
            return Err(ServiceError::validation(String::from_str(
                "the repository is not under management",
            )));
        }
        if !repo.is_git_repository {
            return Err(ServiceError::validation(String::from_str(
                "the path is not a valid repository",
            )));
        }
        let workspace_path = match Self::determine_workspace_path(repo_path, request) {
            Ok(p) => p,
            Err(e) => {
                return Err(e);
            },
        };
        if self.path_in_use_now(repo_path, workspace_path.as_str()) {
            return Err(ServiceError::conflict(String::from_str(
                "the workspace path is already in use",
            )));
        }
        Ok(WorkspacePlan {
            workspace_id: self.next_id,
            workspace_path,
            worktree_name: worktree_name_for(self.next_id),
            branch: clone_opt_string(&request.branch),
        })
    }

    /// Refuses a target location that already exists on disk; checked after
    /// planning and before any working tree is created there.
    pub fn check_target_path(path_exists: bool) -> (r: Result<(), ServiceError>)
        ensures
            r.is_ok() <==> !path_exists,
            match r {
                Ok(_) => true,
                Err(e) => e.kind == ErrorKind::Conflict,
            },
    {
        if path_exists {
            return Err(ServiceError::conflict(String::from_str(
                "the workspace path already exists",
            )));
        }
        Ok(())
    }

    /// Second half of creating a workspace, called once the working tree
    /// exists: stores the new record as `Active`, stamped with `now_ms`, its
    /// tag set deduplicated, and rebuilds the summary index.
    pub fn commit_create_workspace(
        &mut self,
        repo_path: &str,
        request: CreateWorkspaceRequest,
        now_ms: u64,
    ) -> (r: Result<WorkspaceMetadata, ServiceError>)
        requires
            old(self).wf(),
            old(self)@.next_id < u64::MAX,
        ensures
            final(self).wf(),
            r.is_ok() <==> (text::spec_has_filename(repo_path@) && !path_in_use(
                old(self)@.workspaces,
                repo_path@,
                spec_new_workspace_path(repo_path@, opt_str_view(request.base_path), request.name@),
            )),
            match r {
                Ok(m) => {
                    &&& m@.id == old(self)@.next_id
                    &&& m@.name == request.name@
                    &&& m@.repository_path == repo_path@
                    &&& m@.workspace_path == spec_new_workspace_path(
                        repo_path@,
                        opt_str_view(request.base_path),
                        request.name@,
                    )
                    &&& m@.branch == opt_str_view(request.branch)
                    &&& m@.status == WorkspaceStatus::Active
                    &&& m@.created_at == now_ms
                    &&& m@.updated_at == now_ms
                    &&& m@.last_accessed_at == Some(now_ms)
                    &&& m@.archived_at == None::<u64>
                    &&& m@.description == opt_str_view(request.description)
                    &&& nodup_seq(m@.tags)
                    &&& forall|x: Seq<char>|
                        m@.tags.contains(x) <==> text::spec_contains_string(request.tags@, x)
                    &&& m@.custom_fields == Map::<Seq<char>, Seq<char>>::empty()
                    &&& m.custom_fields.wf()
                    &&& final(self)@.workspaces == old(self)@.workspaces.push(m@)
                    &&& final(self)@.next_id == old(self)@.next_id + 1
                },
                Err(e) => {
                    &&& final(self)@ == old(self)@
                    &&& (e.kind == ErrorKind::Validation <==> !text::spec_has_filename(
                        repo_path@,
                    ))
                    &&& (e.kind == ErrorKind::Conflict <==> text::spec_has_filename(repo_path@)
                        && path_in_use(
                        old(self)@.workspaces,
                        repo_path@,
                        spec_new_workspace_path(
                            repo_path@,
                            opt_str_view(request.base_path),
                            request.name@,
                        ),
                    ))
                },
            },
    {
        let workspace_path = match Self::determine_workspace_path(repo_path, &request) {
            Ok(p) => p,
            Err(e) => {
                return Err(e);
            },
        };
        if self.path_in_use_now(repo_path, workspace_path.as_str()) {
            return Err(ServiceError::conflict(String::from_str(
                "the workspace path is already in use",
            )));
        }
        let id = self.next_id;
        let tags = dedup_tags(&request.tags);
        let ghost tagsv = tags@;
        let metadata = WorkspaceMetadata {
            id,
            name: request.name,
            repository_path: String::from_str(repo_path),
            workspace_path,
            branch: request.branch,
            status: WorkspaceStatus::Active,
            created_at: now_ms,
            updated_at: now_ms,
            last_accessed_at: Some(now_ms),
            archived_at: None,
            description: request.description,
            tags,
            custom_fields: StrDict::new(),
        };
        let result = metadata.clone();
        let ghost before = self@.workspaces;
        let ghost mv = metadata@;
        proof {
            lemma_strings_view_contains(tagsv);
            lemma_strings_view_contains(request.tags@);
            assert(mv.custom_fields =~= Map::<Seq<char>, Seq<char>>::empty());
            assert forall|a: int|
                0 <= a < before.len() implies !(before[a].repository_path == repo_path@ && (
            #[trigger] before[a].workspace_path) == mv.workspace_path) by {
                if before[a].repository_path == repo_path@ && before[a].workspace_path
                    == mv.workspace_path {
                    assert(path_in_use(before, repo_path@, mv.workspace_path));
                }
            }
        }
        proof {
            assert(metadata.custom_fields.wf());
        }
        let ghost cbefore = self.workspaces@;
        self.workspaces.push(metadata);
        proof {
            assert forall|a: int|
                0 <= a < self.workspaces@.len() implies (
            #[trigger] self.workspaces@[a]).custom_fields.wf() by {
                if a < cbefore.len() {
                    assert(self.workspaces@[a] == cbefore[a]);
                }
            }
        }
        self.next_id = id + 1;
        self.reindex();
        proof {
            let ws = self@.workspaces;
            assert(ws =~= before.push(mv));
            assert forall|a: int| 0 <= a < ws.len() implies #[trigger] ws[a].id < self@.next_id by {
                if a < before.len() {
                    assert(ws[a] == before[a]);
                }
            }
            assert forall|a: int, b: int| 0 <= a < b < ws.len() implies ws[a].id != ws[b].id by {
                if b < before.len() {
                    assert(ws[a] == before[a]);
                    assert(ws[b] == before[b]);
                } else {
                    assert(ws[a] == before[a]);
                    assert(before[a].id < old(self)@.next_id);
                }
            }
            assert forall|a: int, b: int|
                0 <= a < b < ws.len() implies !(ws[a].repository_path == ws[b].repository_path
                && ws[a].workspace_path == ws[b].workspace_path) by {
                if b < before.len() {
                    assert(ws[a] == before[a]);
                    assert(ws[b] == before[b]);
                } else {
                    assert(ws[a] == before[a]);
                    assert(ws[b] == mv);
                }
            }
            assert forall|a: int| 0 <= a < ws.len() implies nodup_seq(#[trigger] ws[a].tags) by {
                if a < before.len() {
                    assert(ws[a] == before[a]);
                } else {
                    assert(ws[a] == mv);
                }
            }
        }
        Ok(result)
    }

    /// The record of one workspace, if it exists.
    pub fn load_workspace_metadata(&self, workspace_id: u64) -> (r: Result<
        WorkspaceMetadata,
        ServiceError,
    >)
        requires
            self.wf(),
        ensures
            r.is_ok() <==> has_workspace(self@.workspaces, workspace_id),
            match r {
                Ok(m) => m@ == workspace_of(self@.workspaces, workspace_id)
                    && m.custom_fields.wf(),
                Err(e) => e.kind == ErrorKind::NotFound,
            },
    {
        let i = match self.position_of_workspace(workspace_id) {
            Some(i) => i,
            None => {
                return Err(ServiceError::not_found(String::from_str(
                    "workspace metadata not found",
                )));
            },
        };
        proof {
            lemma_workspace_index_unique(self@.workspaces, i as int, workspace_id);
        }
        Ok(self.workspaces[i].clone())
    }

    /// All workspace records, newest first by creation time.
    pub fn list_workspaces(&self) -> (r: Vec<WorkspaceMetadata>)
        requires
            self.wf(),
        ensures
            r@.map_values(|w: WorkspaceMetadata| w@).to_multiset()
                == self@.workspaces.to_multiset(),
            sorted_by_created_desc(r@.map_values(|w: WorkspaceMetadata| w@)),
            forall|i: int| 0 <= i < r@.len() ==> (#[trigger] r@[i]).custom_fields.wf(),
    {
        broadcast use vstd::seq_lib::group_to_multiset_ensures;

        let mut copy: Vec<WorkspaceMetadata> = Vec::new();
        let mut i: usize = 0;
        while i < self.workspaces.len()
            invariant
                self.wf(),
                0 <= i <= self.workspaces@.len(),
                self@.workspaces.len() == self.workspaces@.len(),
                copy@.len() == i,
                forall|j: int| 0 <= j < i ==> #[trigger] copy@[j]@ == self@.workspaces[j],
                forall|j: int| 0 <= j < i ==> (#[trigger] copy@[j]).custom_fields.wf(),
            decreases self.workspaces@.len() - i,
        {
            let ghost before = copy@;
            let c = self.workspaces[i].clone();
            copy.push(c);
            proof {
                assert(copy@ == before.push(c));
            }
            i += 1;
        }
        proof {
            assert(copy@.map_values(|w: WorkspaceMetadata| w@) =~= self@.workspaces);
        }
        let ghost all = self@.workspaces;
        let mut result: Vec<WorkspaceMetadata> = Vec::new();
        while copy.len() > 0
            invariant
                all.to_multiset() == result@.map_values(|w: WorkspaceMetadata| w@)
                    .to_multiset().add(copy@.map_values(|w: WorkspaceMetadata| w@).to_multiset()),
                sorted_by_created_desc(result@.map_values(|w: WorkspaceMetadata| w@)),
                forall|a: int, b: int|
                    0 <= a < result@.len() && 0 <= b < copy@.len() ==> (
                    #[trigger] result@[a])@.created_at >= (#[trigger] copy@[b])@.created_at,
                forall|j: int| 0 <= j < result@.len() ==> (#[trigger] result@[j]).custom_fields.wf(),
                forall|j: int| 0 <= j < copy@.len() ==> (#[trigger] copy@[j]).custom_fields.wf(),
            decreases copy@.len(),
        {
            let bi = argmax_created(&copy);
            let ghost cviews = copy@.map_values(|w: WorkspaceMetadata| w@);
            let ghost rviews = result@.map_values(|w: WorkspaceMetadata| w@);
            let w = copy.remove(bi);
            proof {
                assert(copy@.map_values(|x: WorkspaceMetadata| x@) =~= cviews.remove(bi as int));
            }
            let ghost rbefore = result@;
            result.push(w);
            proof {
                broadcast use vstd::multiset::group_multiset_axioms;

                assert(result@ == rbefore.push(w));
                assert(result@.map_values(|x: WorkspaceMetadata| x@) =~= rviews.push(w@));
                assert(cviews[bi as int] == w@);
                assert(cviews.contains(w@));
                vstd::seq_lib::to_multiset_contains(cviews, w@);
                vstd::seq_lib::to_multiset_build(rviews, w@);
                vstd::seq_lib::to_multiset_remove(cviews, bi as int);
                assert(cviews.to_multiset().count(w@) > 0);
                assert(result@.map_values(|x: WorkspaceMetadata| x@).to_multiset()
                    =~= rviews.to_multiset().insert(w@));
                assert(copy@.map_values(|x: WorkspaceMetadata| x@).to_multiset()
                    =~= cviews.to_multiset().remove(w@));
                assert(all.to_multiset() =~= result@.map_values(|x: WorkspaceMetadata| x@)
                    .to_multiset().add(
                    copy@.map_values(|x: WorkspaceMetadata| x@).to_multiset(),
                ));
                assert(sorted_by_created_desc(result@.map_values(|x: WorkspaceMetadata| x@)));
            }
        }
        proof {
            assert(copy@.map_values(|w: WorkspaceMetadata| w@).to_multiset() =~= Multiset::empty());
            assert(all.to_multiset() =~= result@.map_values(|w: WorkspaceMetadata| w@)
                .to_multiset());
        }
        result
    }
}

impl WorkspaceManagerService {
    /// First half of archiving: refuses an unknown or already-archived
    /// workspace, and says what to remove first — the working tree and its
    /// directory, exactly when files are not kept and the path still exists.
    /// A missing tree is logged by the caller, not an error; nothing changes
    /// until `commit_archive`.
    pub fn plan_archive(&self, workspace_id: u64, keep_files: bool, path_exists: bool) -> (r:
        Result<ArchivePlan, ServiceError>)
        requires
            self.wf(),
        ensures
            r.is_ok() <==> (has_workspace(self@.workspaces, workspace_id) && !(workspace_of(
                self@.workspaces,
                workspace_id,
            ).status is Archived)),
            match r {
                Ok(p) => {
                    let w = workspace_of(self@.workspaces, workspace_id);
                    &&& p.remove_files == (!keep_files && path_exists)
                    &&& p.worktree_name@ == spec_worktree_name(workspace_id)
                    &&& p.workspace_path@ == w.workspace_path
                },
                Err(e) => {
                    let has = has_workspace(self@.workspaces, workspace_id);
                    &&& (e.kind == ErrorKind::NotFound <==> !has)
                    &&& (e.kind == ErrorKind::Conflict <==> has && workspace_of(
                        self@.workspaces,
                        workspace_id,
                    ).status is Archived)
                },
            },
    {
        let i = match self.position_of_workspace(workspace_id) {
            Some(i) => i,
            None => {
                return Err(ServiceError::not_found(String::from_str(
                    "workspace metadata not found",
                )));
            },
        };
        proof {
            lemma_workspace_index_unique(self@.workspaces, i as int, workspace_id);
        }
        if matches!(self.workspaces[i].status, WorkspaceStatus::Archived) {
            return Err(ServiceError::conflict(String::from_str(
                "the workspace is already archived",
            )));
        }
        Ok(ArchivePlan {
            remove_files: !keep_files && path_exists,
            worktree_name: worktree_name_for(workspace_id),
            workspace_path: self.workspaces[i].workspace_path.clone(),
        })
    }

    /// Second half of archiving, called once any file removal has been
    /// carried out: marks the record `Archived`, stamps the archive time,
    /// records the reason under the `archive_reason` custom field, and
    /// rebuilds the summary index.
    pub fn commit_archive(
        &mut self,
        workspace_id: u64,
        archive_reason: Option<String>,
        now_ms: u64,
    ) -> (r: Result<WorkspaceMetadata, ServiceError>)
        requires
            old(self).wf(),
        ensures
            final(self).wf(),
            final(self)@.next_id == old(self)@.next_id,
            r.is_ok() <==> (has_workspace(old(self)@.workspaces, workspace_id) && !(workspace_of(
                old(self)@.workspaces,
                workspace_id,
            ).status is Archived)),
            match r {
                Ok(m) => {
                    let i = index_of_workspace(old(self)@.workspaces, workspace_id);
                    let w = old(self)@.workspaces[i];
                    let neww = WorkspaceMetadataView {
                        status: WorkspaceStatus::Archived,
                        archived_at: Some(now_ms),
                        updated_at: now_ms,
                        custom_fields: match archive_reason {
                            Some(reason) => w.custom_fields.insert("archive_reason"@, reason@),
                            None => w.custom_fields,
                        },
                        ..w
                    };
                    &&& final(self)@.workspaces == old(self)@.workspaces.update(i, neww)
                    &&& m@ == neww
                    &&& m.custom_fields.wf()
                },
                Err(e) => {
                    let has = has_workspace(old(self)@.workspaces, workspace_id);
                    &&& final(self)@ == old(self)@
                    &&& (e.kind == ErrorKind::NotFound <==> !has)
                    &&& (e.kind == ErrorKind::Conflict <==> has && workspace_of(
                        old(self)@.workspaces,
                        workspace_id,
                    ).status is Archived)
                },
            },
    {
        let i = match self.position_of_workspace(workspace_id) {
            Some(i) => i,
            None => {
                return Err(ServiceError::not_found(String::from_str(
                    "workspace metadata not found",
                )));
            },
        };
        proof {
            lemma_workspace_index_unique(self@.workspaces, i as int, workspace_id);
        }
        if matches!(self.workspaces[i].status, WorkspaceStatus::Archived) {
            return Err(ServiceError::conflict(String::from_str(
                "the workspace is already archived",
            )));
        }
        let ghost oldseq = self@.workspaces;
        let ghost oldw = self@.workspaces[i as int];
        let ghost cbefore = self.workspaces@;
        let t = &mut self.workspaces[i];
        t.status = WorkspaceStatus::Archived;
        t.archived_at = Some(now_ms);
        t.updated_at = now_ms;
        match &archive_reason {
            Some(reason) => {
                t.custom_fields.insert(String::from_str("archive_reason"), reason.clone());
            },
            None => {},
        }
        let ghost neww = WorkspaceMetadataView {
            status: WorkspaceStatus::Archived,
            archived_at: Some(now_ms),
            updated_at: now_ms,
            custom_fields: match archive_reason {
                Some(reason) => oldw.custom_fields.insert("archive_reason"@, reason@),
                None => oldw.custom_fields,
            },
            ..oldw
        };
        proof {
            assert(self@.workspaces =~= oldseq.update(i as int, neww));
            lemma_ws_update_preserves(oldseq, i as int, neww);
            assert forall|a: int|
                0 <= a < self.workspaces@.len() implies (
            #[trigger] self.workspaces@[a]).custom_fields.wf() by {
                if a != i {
                    assert(self.workspaces@[a] == cbefore[a]);
                }
            }
        }
        let result = self.workspaces[i].clone();
        self.reindex();
        Ok(result)
    }

    /// First half of restoring: refuses anything but an `Archived`
    /// workspace, and says whether the caller must recreate the working tree
    /// — exactly when its path no longer exists — and from which branch.
    /// Nothing changes until `commit_restore`.
    pub fn plan_restore(&self, workspace_id: u64, path_exists: bool) -> (r: Result<
        RestorePlan,
        ServiceError,
    >)
        requires
            self.wf(),
        ensures
            r.is_ok() <==> (has_workspace(self@.workspaces, workspace_id) && workspace_of(
                self@.workspaces,
                workspace_id,
            ).status is Archived),
            match r {
                Ok(p) => {
                    let w = workspace_of(self@.workspaces, workspace_id);
                    &&& p.recreate == !path_exists
                    &&& p.worktree_name@ == spec_worktree_name(workspace_id)
                    &&& p.workspace_path@ == w.workspace_path
                    &&& opt_str_view(p.branch) == w.branch
                },
                Err(e) => {
                    let has = has_workspace(self@.workspaces, workspace_id);
                    &&& (e.kind == ErrorKind::NotFound <==> !has)
                    &&& (e.kind == ErrorKind::Conflict <==> has && !(workspace_of(
                        self@.workspaces,
                        workspace_id,
                    ).status is Archived))
                },
            },
    {
        let i = match self.position_of_workspace(workspace_id) {
            Some(i) => i,
            None => {
                return Err(ServiceError::not_found(String::from_str(
                    "workspace metadata not found",
                )));
            },
        };
        proof {
            lemma_workspace_index_unique(self@.workspaces, i as int, workspace_id);
        }
        if !matches!(self.workspaces[i].status, WorkspaceStatus::Archived) {
            return Err(ServiceError::conflict(String::from_str(
                "only an archived workspace can be restored",
            )));
        }
        Ok(RestorePlan {
            recreate: !path_exists,
            worktree_name: worktree_name_for(workspace_id),
            workspace_path: self.workspaces[i].workspace_path.clone(),
            branch: clone_opt_string(&self.workspaces[i].branch),
        })
    }

    /// Second half of restoring, called once the working tree exists again:
    /// marks the record `Active`, clears the archive time, stamps access and
    /// update times, drops the `archive_reason` custom field, and rebuilds
    /// the summary index.
    pub fn commit_restore(&mut self, workspace_id: u64, now_ms: u64) -> (r: Result<
        WorkspaceMetadata,
        ServiceError,
    >)
        requires
            old(self).wf(),
        ensures
            final(self).wf(),
            final(self)@.next_id == old(self)@.next_id,
            r.is_ok() <==> (has_workspace(old(self)@.workspaces, workspace_id) && workspace_of(
                old(self)@.workspaces,
                workspace_id,
            ).status is Archived),
            match r {
                Ok(m) => {
                    let i = index_of_workspace(old(self)@.workspaces, workspace_id);
                    let w = old(self)@.workspaces[i];
                    let neww = WorkspaceMetadataView {
                        status: WorkspaceStatus::Active,
                        archived_at: None,
                        updated_at: now_ms,
                        last_accessed_at: Some(now_ms),
                        custom_fields: w.custom_fields.remove("archive_reason"@),
                        ..w
                    };
                    &&& final(self)@.workspaces == old(self)@.workspaces.update(i, neww)
                    &&& m@ == neww
                    &&& m.custom_fields.wf()
                },
                Err(e) => {
                    let has = has_workspace(old(self)@.workspaces, workspace_id);
                    &&& final(self)@ == old(self)@
                    &&& (e.kind == ErrorKind::NotFound <==> !has)
                    &&& (e.kind == ErrorKind::Conflict <==> has && !(workspace_of(
                        old(self)@.workspaces,
                        workspace_id,
                    ).status is Archived))
                },
            },
    {
        let i = match self.position_of_workspace(workspace_id) {
            Some(i) => i,
            None => {
                return Err(ServiceError::not_found(String::from_str(
                    "workspace metadata not found",
                )));
            },
        };
        proof {
            lemma_workspace_index_unique(self@.workspaces, i as int, workspace_id);
        }
        if !matches!(self.workspaces[i].status, WorkspaceStatus::Archived) {
            return Err(ServiceError::conflict(String::from_str(
                "only an archived workspace can be restored",
            )));
        }
        let ghost oldseq = self@.workspaces;
        let ghost oldw = self@.workspaces[i as int];
        let ghost cbefore = self.workspaces@;
        let t = &mut self.workspaces[i];
        t.status = WorkspaceStatus::Active;
        t.archived_at = None;
        t.updated_at = now_ms;
        t.last_accessed_at = Some(now_ms);
        t.custom_fields.remove(&String::from_str("archive_reason"));
        let ghost neww = WorkspaceMetadataView {
            status: WorkspaceStatus::Active,
            archived_at: None,
            updated_at: now_ms,
            last_accessed_at: Some(now_ms),
            custom_fields: oldw.custom_fields.remove("archive_reason"@),
            ..oldw
        };
        proof {
            assert(self@.workspaces =~= oldseq.update(i as int, neww));
            lemma_ws_update_preserves(oldseq, i as int, neww);
            assert forall|a: int|
                0 <= a < self.workspaces@.len() implies (
            #[trigger] self.workspaces@[a]).custom_fields.wf() by {
                if a != i {
                    assert(self.workspaces@[a] == cbefore[a]);
                }
            }
        }
        let result = self.workspaces[i].clone();
        self.reindex();
        Ok(result)
    }

    /// First half of deleting: refuses an unknown workspace and says what to
    /// remove, best effort — the working tree by its derived name, and the
    /// directory if it still exists. Nothing changes until `commit_delete`.
    pub fn plan_delete(&self, workspace_id: u64) -> (r: Result<DeletePlan, ServiceError>)
        requires
            self.wf(),
        ensures
            r.is_ok() <==> has_workspace(self@.workspaces, workspace_id),
            match r {
                Ok(p) => {
                    let w = workspace_of(self@.workspaces, workspace_id);
                    &&& p.worktree_name@ == spec_worktree_name(workspace_id)
                    &&& p.workspace_path@ == w.workspace_path
                },
                Err(e) => e.kind == ErrorKind::NotFound,
            },
    {
        let i = match self.position_of_workspace(workspace_id) {
            Some(i) => i,
            None => {
                return Err(ServiceError::not_found(String::from_str(
                    "workspace metadata not found",
                )));
            },
        };
        proof {
            lemma_workspace_index_unique(self@.workspaces, i as int, workspace_id);
        }
        Ok(DeletePlan {
            worktree_name: worktree_name_for(workspace_id),
            workspace_path: self.workspaces[i].workspace_path.clone(),
        })
    }

    /// Second half of deleting, called after the best-effort file removal:
    /// drops the record and rebuilds the summary index. Filesystem state the
    /// caller found already gone does not matter here.
    pub fn commit_delete(&mut self, workspace_id: u64) -> (r: Result<(), ServiceError>)
        requires
            old(self).wf(),
        ensures
            final(self).wf(),
            final(self)@.next_id == old(self)@.next_id,
            r.is_ok() <==> has_workspace(old(self)@.workspaces, workspace_id),
            match r {
                Ok(_) => final(self)@.workspaces == old(self)@.workspaces.remove(
                    index_of_workspace(old(self)@.workspaces, workspace_id),
                ),
                Err(e) => final(self)@ == old(self)@ && e.kind == ErrorKind::NotFound,
            },
    {
        let i = match self.position_of_workspace(workspace_id) {
            Some(i) => i,
            None => {
                return Err(ServiceError::not_found(String::from_str(
                    "workspace metadata not found",
                )));
            },
        };
        proof {
            lemma_workspace_index_unique(self@.workspaces, i as int, workspace_id);
        }
        let ghost oldseq = self@.workspaces;
        let ghost cbefore = self.workspaces@;
        self.workspaces.remove(i);
        proof {
            assert(self@.workspaces =~= oldseq.remove(i as int));
            lemma_ws_remove_preserves(oldseq, i as int);
            assert forall|a: int|
                0 <= a < self.workspaces@.len() implies (
            #[trigger] self.workspaces@[a]).custom_fields.wf() by {
                let x: int = if a < i {
                    a
                } else {
                    a + 1
                };
                assert(self.workspaces@[a] == cbefore[x]);
            }
        }
        self.reindex();
        Ok(())
    }
}

/// One edit of a workspace's tag set or custom fields, with set-insert and
/// set-remove semantics.
pub enum MetadataEdit {
    AddTag(String),
    RemoveTag(String),
    SetCustomField(String, String),
    RemoveCustomField(String),
}

/// `tags` with every occurrence of `t` removed, order kept.
pub open spec fn tags_without(tags: Seq<Seq<char>>, t: Seq<char>) -> Seq<Seq<char>>
    decreases tags.len(),
{
    if tags.len() == 0 {
        tags
    } else {
        let d = tags_without(tags.drop_last(), t);
        if tags.last() == t {
            d
        } else {
            d.push(tags.last())
        }
    }
}

/// What removing a tag does: exactly the other tags stay, in order; no
/// duplicates appear; and a tag set that never held `t` is untouched.
pub proof fn lemma_tags_without(tags: Seq<Seq<char>>, t: Seq<char>)
    ensures
        forall|x: Seq<char>| tags_without(tags, t).contains(x) <==> (tags.contains(x) && x != t),
        nodup_seq(tags) ==> nodup_seq(tags_without(tags, t)),
        !tags.contains(t) ==> tags_without(tags, t) == tags,
    decreases tags.len(),
{
    if tags.len() > 0 {
        let d = tags.drop_last();
        lemma_tags_without(d, t);
        assert forall|x: Seq<char>| d.contains(x) implies tags.contains(x) by {
            let k = choose|k: int| 0 <= k < d.len() && d[k] == x;
            assert(tags[k] == x);
        }
        assert forall|x: Seq<char>|
            tags.contains(x) implies (d.contains(x) || x == tags.last()) by {
            let k = choose|k: int| 0 <= k < tags.len() && tags[k] == x;
            if k < tags.len() - 1 {
                assert(d[k] == x);
            }
        }
        let r = tags_without(tags, t);
        let rd = tags_without(d, t);
        assert forall|x: Seq<char>| r.contains(x) implies (tags.contains(x) && x != t) by {
            if tags.last() == t {
                assert(rd.contains(x));
            } else {
                let k = choose|k: int| 0 <= k < r.len() && r[k] == x;
                if k < rd.len() {
                    assert(rd[k] == x);
                    assert(rd.contains(x));
                } else {
                    assert(x == tags.last());
                }
            }
        }
        assert forall|x: Seq<char>| tags.contains(x) && x != t implies r.contains(x) by {
            if d.contains(x) {
                assert(rd.contains(x));
                let k = choose|k: int| 0 <= k < rd.len() && rd[k] == x;
                if tags.last() == t {
                    assert(r[k] == x);
                } else {
                    assert(r[k] == x);
                }
            } else {
                assert(x == tags.last());
                assert(tags.last() != t);
                assert(r[r.len() - 1] == x);
            }
        }
        if nodup_seq(tags) {
            assert forall|a: int, b: int| 0 <= a < b < d.len() implies d[a] != d[b] by {
                assert(d[a] == tags[a]);
                assert(d[b] == tags[b]);
            }
            if tags.last() != t {
                assert forall|a: int, b: int| 0 <= a < b < r.len() implies r[a] != r[b] by {
                    if b < rd.len() {
                        assert(r[a] == rd[a]);
                        assert(r[b] == rd[b]);
                        assert(rd[a] != rd[b]);
                    } else {
                        assert(r[a] == rd[a]);
                        assert(rd.contains(rd[a]));
                        assert(d.contains(rd[a]));
                        assert(r[b] == tags.last());
                        let k = choose|k: int| 0 <= k < d.len() && d[k] == rd[a];
                        assert(tags[k] == rd[a]);
                        assert(tags[k] != tags[tags.len() - 1]);
                    }
                }
            }
        }
        if !tags.contains(t) {
            assert(tags[tags.len() - 1] == tags.last());
            assert(tags.last() != t);
            assert(!d.contains(t));
            assert(r =~= tags);
        }
    }
}

/// The record after one metadata edit, stamped with the update time.
pub open spec fn spec_apply_edit(
    w: WorkspaceMetadataView,
    edit: &MetadataEdit,
    now_ms: u64,
) -> WorkspaceMetadataView {
    match edit {
        MetadataEdit::AddTag(t) => WorkspaceMetadataView {
            tags: if w.tags.contains(t@) {
                w.tags
            } else {
                w.tags.push(t@)
            },
            updated_at: now_ms,
            ..w
        },
        MetadataEdit::RemoveTag(t) => WorkspaceMetadataView {
            tags: tags_without(w.tags, t@),
            updated_at: now_ms,
            ..w
        },
        MetadataEdit::SetCustomField(k, v) => WorkspaceMetadataView {
            custom_fields: w.custom_fields.insert(k@, v@),
            updated_at: now_ms,
            ..w
        },
        MetadataEdit::RemoveCustomField(k) => WorkspaceMetadataView {
            custom_fields: w.custom_fields.remove(k@),
            updated_at: now_ms,
            ..w
        },
    }
}

/// Adding a tag and then removing it returns the workspace to its original
/// tag set, whenever the tag was not there to begin with.
pub proof fn lemma_tag_round_trip(
    w: WorkspaceMetadataView,
    t: String,
    now1: u64,
    now2: u64,
)
    requires
        !w.tags.contains(t@),
    ensures
        spec_apply_edit(spec_apply_edit(w, &MetadataEdit::AddTag(t), now1), &MetadataEdit::RemoveTag(t), now2).tags
            == w.tags,
{
    let w1 = spec_apply_edit(w, &MetadataEdit::AddTag(t), now1);
    assert(w1.tags == w.tags.push(t@));
    lemma_tags_without(w.tags, t@);
    assert(w1.tags.drop_last() =~= w.tags);
    assert(w1.tags.last() == t@);
    assert(tags_without(w1.tags, t@) == tags_without(w.tags, t@));
}

/// Setting a custom field and then removing it returns the workspace to its
/// original custom fields, whenever the key was not set to begin with.
pub proof fn lemma_custom_field_round_trip(
    w: WorkspaceMetadataView,
    k: String,
    v: String,
    now1: u64,
    now2: u64,
)
    requires
        !w.custom_fields.contains_key(k@),
    ensures
        spec_apply_edit(
            spec_apply_edit(w, &MetadataEdit::SetCustomField(k, v), now1),
            &MetadataEdit::RemoveCustomField(k),
            now2,
        ).custom_fields == w.custom_fields,
{
    assert(w.custom_fields.insert(k@, v@).remove(k@) =~= w.custom_fields);
}

/// The health of a workspace as reconciliation reports it: `Archived` is
/// sticky and never overwritten; otherwise the workspace is `Broken` when
/// its path is missing or is not a valid working copy, else `Active`.
pub open spec fn spec_reconcile(st: WorkspaceStatus, probe: PathProbe) -> WorkspaceStatus {
    if st is Archived {
        WorkspaceStatus::Archived
    } else if !probe.exists || !probe.is_git_repository {
        WorkspaceStatus::Broken
    } else {
        WorkspaceStatus::Active
    }
}

impl WorkspaceManagerService {
    /// Reconciles a workspace's status with what the filesystem and the
    /// version-control backend report, per [`spec_reconcile`], and stamps
    /// the update time. A read-only health probe of the disk: it never
    /// touches files.
    pub fn update_workspace_status(
        &mut self,
        workspace_id: u64,
        probe: PathProbe,
        now_ms: u64,
    ) -> (r: Result<WorkspaceMetadata, ServiceError>)
        requires
            old(self).wf(),
        ensures
            final(self).wf(),
            final(self)@.next_id == old(self)@.next_id,
            r.is_ok() <==> has_workspace(old(self)@.workspaces, workspace_id),
            match r {
                Ok(m) => {
                    let i = index_of_workspace(old(self)@.workspaces, workspace_id);
                    let w = old(self)@.workspaces[i];
                    let neww = WorkspaceMetadataView {
                        status: spec_reconcile(w.status, probe),
                        updated_at: now_ms,
                        ..w
                    };
                    &&& final(self)@.workspaces == old(self)@.workspaces.update(i, neww)
                    &&& m@ == neww
                    &&& m.custom_fields.wf()
                },
                Err(e) => final(self)@ == old(self)@ && e.kind == ErrorKind::NotFound,
            },
    {
        let i = match self.position_of_workspace(workspace_id) {
            Some(i) => i,
            None => {
                return Err(ServiceError::not_found(String::from_str(
                    "workspace metadata not found",
                )));
            },
        };
        proof {
            lemma_workspace_index_unique(self@.workspaces, i as int, workspace_id);
        }
        let ghost oldseq = self@.workspaces;
        let ghost oldw = self@.workspaces[i as int];
        let ghost cbefore = self.workspaces@;
        let status = if matches!(self.workspaces[i].status, WorkspaceStatus::Archived) {
            WorkspaceStatus::Archived
        } else if !probe.exists || !probe.is_git_repository {
            WorkspaceStatus::Broken
        } else {
            WorkspaceStatus::Active
        };
        let t = &mut self.workspaces[i];
        t.status = status;
        t.updated_at = now_ms;
        proof {
            let neww = WorkspaceMetadataView {
                status: spec_reconcile(oldw.status, probe),
                updated_at: now_ms,
                ..oldw
            };
            assert(self@.workspaces =~= oldseq.update(i as int, neww));
            lemma_ws_update_preserves(oldseq, i as int, neww);
            assert forall|a: int|
                0 <= a < self.workspaces@.len() implies (
            #[trigger] self.workspaces@[a]).custom_fields.wf() by {
                if a != i {
                    assert(self.workspaces@[a] == cbefore[a]);
                } else {
                    assert(self.workspaces@[a].custom_fields == cbefore[a].custom_fields);
                }
            }
        }
        let result = self.workspaces[i].clone();
        self.reindex();
        Ok(result)
    }

    /// Stamps a workspace as just accessed: only its access and update times
    /// change.
    pub fn access_workspace(&mut self, workspace_id: u64, now_ms: u64) -> (r: Result<
        WorkspaceMetadata,
        ServiceError,
    >)
        requires
            old(self).wf(),
        ensures
            final(self).wf(),
            final(self)@.next_id == old(self)@.next_id,
            r.is_ok() <==> has_workspace(old(self)@.workspaces, workspace_id),
            match r {
                Ok(m) => {
                    let i = index_of_workspace(old(self)@.workspaces, workspace_id);
                    let w = old(self)@.workspaces[i];
                    let neww = WorkspaceMetadataView {
                        last_accessed_at: Some(now_ms),
                        updated_at: now_ms,
                        ..w
                    };
                    &&& final(self)@.workspaces == old(self)@.workspaces.update(i, neww)
                    &&& m@ == neww
                    &&& m.custom_fields.wf()
                },
                Err(e) => final(self)@ == old(self)@ && e.kind == ErrorKind::NotFound,
            },
    {
        let i = match self.position_of_workspace(workspace_id) {
            Some(i) => i,
            None => {
                return Err(ServiceError::not_found(String::from_str(
                    "workspace metadata not found",
                )));
            },
        };
        proof {
            lemma_workspace_index_unique(self@.workspaces, i as int, workspace_id);
        }
        let ghost oldseq = self@.workspaces;
        let ghost oldw = self@.workspaces[i as int];
        let ghost cbefore = self.workspaces@;
        let t = &mut self.workspaces[i];
        t.last_accessed_at = Some(now_ms);
        t.updated_at = now_ms;
        proof {
            let neww = WorkspaceMetadataView {
                last_accessed_at: Some(now_ms),
                updated_at: now_ms,
                ..oldw
            };
            assert(self@.workspaces =~= oldseq.update(i as int, neww));
            lemma_ws_update_preserves(oldseq, i as int, neww);
            assert forall|a: int|
                0 <= a < self.workspaces@.len() implies (
            #[trigger] self.workspaces@[a]).custom_fields.wf() by {
                if a != i {
                    assert(self.workspaces@[a] == cbefore[a]);
                } else {
                    assert(self.workspaces@[a].custom_fields == cbefore[a].custom_fields);
                }
            }
        }
        let result = self.workspaces[i].clone();
        self.reindex();
        Ok(result)
    }

    /// Applies one tag or custom-field edit to a workspace, per
    /// [`spec_apply_edit`]: set-insert and set-remove semantics, where
    /// adding a present tag and removing an absent tag or key are no-ops,
    /// not errors.
    pub fn update_workspace_metadata(
        &mut self,
        workspace_id: u64,
        edit: &MetadataEdit,
        now_ms: u64,
    ) -> (r: Result<WorkspaceMetadata, ServiceError>)
        requires
            old(self).wf(),
        ensures
            final(self).wf(),
            final(self)@.next_id == old(self)@.next_id,
            r.is_ok() <==> has_workspace(old(self)@.workspaces, workspace_id),
            match r {
                Ok(m) => {
                    let i = index_of_workspace(old(self)@.workspaces, workspace_id);
                    let w = old(self)@.workspaces[i];
                    &&& final(self)@.workspaces == old(self)@.workspaces.update(
                        i,
                        spec_apply_edit(w, edit, now_ms),
                    )
                    &&& m@ == spec_apply_edit(w, edit, now_ms)
                    &&& m.custom_fields.wf()
                },
                Err(e) => final(self)@ == old(self)@ && e.kind == ErrorKind::NotFound,
            },
    {
        let i = match self.position_of_workspace(workspace_id) {
            Some(i) => i,
            None => {
                return Err(ServiceError::not_found(String::from_str(
                    "workspace metadata not found",
                )));
            },
        };
        proof {
            lemma_workspace_index_unique(self@.workspaces, i as int, workspace_id);
        }
        let ghost oldseq = self@.workspaces;
        let ghost oldw = self@.workspaces[i as int];
        let ghost cbefore = self.workspaces@;
        match edit {
            MetadataEdit::AddTag(tag) => {
                let present = text::contains_string(&self.workspaces[i].tags, tag);
                proof {
                    lemma_strings_view_contains(self.workspaces@[i as int].tags@);
                }
                let t = &mut self.workspaces[i];
                t.updated_at = now_ms;
                if !present {
                    let ghost tagsbefore = t.tags@;
                    t.tags.push(tag.clone());
                    proof {
                        assert(strings_view(t.tags@) =~= strings_view(tagsbefore).push(tag@));
                        assert forall|a: int, b: int|
                            0 <= a < b < strings_view(t.tags@).len() implies strings_view(
                            t.tags@,
                        )[a] != strings_view(t.tags@)[b] by {
                            if b < tagsbefore.len() {
                                assert(strings_view(tagsbefore)[a] != strings_view(tagsbefore)[b]);
                            } else {
                                assert(strings_view(t.tags@)[b] == tag@);
                                assert(!oldw.tags.contains(tag@));
                                assert(oldw.tags[a] != tag@);
                            }
                        }
                    }
                }
            },
            MetadataEdit::RemoveTag(tag) => {
                let mut kept: Vec<String> = Vec::new();
                let n = self.workspaces[i].tags.len();
                let mut j: usize = 0;
                proof {
                    assert(strings_view(self.workspaces@[i as int].tags@.take(0)) =~= Seq::<
                        Seq<char>,
                    >::empty());
                }
                while j < n
                    invariant
                        0 <= j <= n,
                        i < self.workspaces@.len(),
                        self@ == old(self)@,
                        n == self.workspaces@[i as int].tags@.len(),
                        strings_view(kept@) == tags_without(
                            strings_view(self.workspaces@[i as int].tags@.take(j as int)),
                            tag@,
                        ),
                    decreases n - j,
                {
                    let ghost tagsfull = self.workspaces@[i as int].tags@;
                    proof {
                        assert(strings_view(tagsfull.take(j + 1)).drop_last() =~= strings_view(
                            tagsfull.take(j as int),
                        ));
                        assert(strings_view(tagsfull.take(j + 1)).last() == tagsfull[j as int]@);
                    }
                    let keep = !text::string_eq(&self.workspaces[i].tags[j], tag);
                    if keep {
                        let ghost keptbefore = kept@;
                        let c = self.workspaces[i].tags[j].clone();
                        kept.push(c);
                        proof {
                            assert(kept@ == keptbefore.push(c));
                            assert(strings_view(kept@) =~= strings_view(keptbefore).push(
                                tagsfull[j as int]@,
                            ));
                        }
                    }
                    j += 1;
                }
                proof {
                    assert(self.workspaces@[i as int].tags@.take(n as int)
                        =~= self.workspaces@[i as int].tags@);
                    lemma_tags_without(oldw.tags, tag@);
                }
                let t = &mut self.workspaces[i];
                t.tags = kept;
                t.updated_at = now_ms;
            },
            MetadataEdit::SetCustomField(k, v) => {
                let t = &mut self.workspaces[i];
                t.custom_fields.insert(k.clone(), v.clone());
                t.updated_at = now_ms;
            },
            MetadataEdit::RemoveCustomField(k) => {
                let t = &mut self.workspaces[i];
                t.custom_fields.remove(k);
                t.updated_at = now_ms;
            },
        }
        proof {
            let neww = spec_apply_edit(oldw, edit, now_ms);
            assert(self@.workspaces =~= oldseq.update(i as int, neww));
            assert(nodup_seq(neww.tags)) by {
                match edit {
                    MetadataEdit::RemoveTag(tag) => {
                        lemma_tags_without(oldw.tags, tag@);
                    },
                    _ => {},
                }
            }
            lemma_ws_update_preserves(oldseq, i as int, neww);
            assert forall|a: int|
                0 <= a < self.workspaces@.len() implies (
            #[trigger] self.workspaces@[a]).custom_fields.wf() by {
                if a != i {
                    assert(self.workspaces@[a] == cbefore[a]);
                }
            }
        }
        let result = self.workspaces[i].clone();
        self.reindex();
        Ok(result)
    }

    /// Adds a tag; a tag already present stays single (set-insert).
    pub fn add_workspace_tag(&mut self, workspace_id: u64, tag: String, now_ms: u64) -> (r: Result<
        WorkspaceMetadata,
        ServiceError,
    >)
        requires
            old(self).wf(),
        ensures
            final(self).wf(),
            final(self)@.next_id == old(self)@.next_id,
            r.is_ok() <==> has_workspace(old(self)@.workspaces, workspace_id),
            match r {
                Ok(m) => {
                    let i = index_of_workspace(old(self)@.workspaces, workspace_id);
                    let w = old(self)@.workspaces[i];
                    &&& final(self)@.workspaces == old(self)@.workspaces.update(
                        i,
                        spec_apply_edit(w, &MetadataEdit::AddTag(tag), now_ms),
                    )
                    &&& m@ == spec_apply_edit(w, &MetadataEdit::AddTag(tag), now_ms)
                    &&& m.custom_fields.wf()
                },
                Err(e) => final(self)@ == old(self)@ && e.kind == ErrorKind::NotFound,
            },
    {
        self.update_workspace_metadata(workspace_id, &MetadataEdit::AddTag(tag), now_ms)
    }

    /// Removes a tag; an absent tag is a no-op, not an error (set-remove).
    pub fn remove_workspace_tag(&mut self, workspace_id: u64, tag: String, now_ms: u64) -> (r:
        Result<WorkspaceMetadata, ServiceError>)
        requires
            old(self).wf(),
        ensures
            final(self).wf(),
            final(self)@.next_id == old(self)@.next_id,
            r.is_ok() <==> has_workspace(old(self)@.workspaces, workspace_id),
            match r {
                Ok(m) => {
                    let i = index_of_workspace(old(self)@.workspaces, workspace_id);
                    let w = old(self)@.workspaces[i];
                    &&& final(self)@.workspaces == old(self)@.workspaces.update(
                        i,
                        spec_apply_edit(w, &MetadataEdit::RemoveTag(tag), now_ms),
                    )
                    &&& m@ == spec_apply_edit(w, &MetadataEdit::RemoveTag(tag), now_ms)
                    &&& m.custom_fields.wf()
                },
                Err(e) => final(self)@ == old(self)@ && e.kind == ErrorKind::NotFound,
            },
    {
        self.update_workspace_metadata(workspace_id, &MetadataEdit::RemoveTag(tag), now_ms)
    }

    /// Sets one custom field, replacing any previous value under the key.
    pub fn set_custom_field(
        &mut self,
        workspace_id: u64,
        key: String,
        value: String,
        now_ms: u64,
    ) -> (r: Result<WorkspaceMetadata, ServiceError>)
        requires
            old(self).wf(),
        ensures
            final(self).wf(),
            final(self)@.next_id == old(self)@.next_id,
            r.is_ok() <==> has_workspace(old(self)@.workspaces, workspace_id),
            match r {
                Ok(m) => {
                    let i = index_of_workspace(old(self)@.workspaces, workspace_id);
                    let w = old(self)@.workspaces[i];
                    &&& final(self)@.workspaces == old(self)@.workspaces.update(
                        i,
                        spec_apply_edit(w, &MetadataEdit::SetCustomField(key, value), now_ms),
                    )
                    &&& m@ == spec_apply_edit(w, &MetadataEdit::SetCustomField(key, value), now_ms)
                    &&& m.custom_fields.wf()
                },
                Err(e) => final(self)@ == old(self)@ && e.kind == ErrorKind::NotFound,
            },
    {
        self.update_workspace_metadata(
            workspace_id,
            &MetadataEdit::SetCustomField(key, value),
            now_ms,
        )
    }

    /// Removes one custom field; an absent key is a no-op, not an error.
    pub fn remove_custom_field(&mut self, workspace_id: u64, key: String, now_ms: u64) -> (r:
        Result<WorkspaceMetadata, ServiceError>)
        requires
            old(self).wf(),
        ensures
            final(self).wf(),
            final(self)@.next_id == old(self)@.next_id,
            r.is_ok() <==> has_workspace(old(self)@.workspaces, workspace_id),
            match r {
                Ok(m) => {
                    let i = index_of_workspace(old(self)@.workspaces, workspace_id);
                    let w = old(self)@.workspaces[i];
                    &&& final(self)@.workspaces == old(self)@.workspaces.update(
                        i,
                        spec_apply_edit(w, &MetadataEdit::RemoveCustomField(key), now_ms),
                    )
                    &&& m@ == spec_apply_edit(w, &MetadataEdit::RemoveCustomField(key), now_ms)
                    &&& m.custom_fields.wf()
                },
                Err(e) => final(self)@ == old(self)@ && e.kind == ErrorKind::NotFound,
            },
    {
        self.update_workspace_metadata(workspace_id, &MetadataEdit::RemoveCustomField(key), now_ms)
    }
}

/// An update in place that keeps a record's id, paths, and tag uniqueness
/// keeps the registry invariant's structural parts.
proof fn lemma_ws_update_preserves(s: Seq<WorkspaceMetadataView>, i: int, e: WorkspaceMetadataView)
    requires
        forall|a: int, b: int| 0 <= a < b < s.len() ==> s[a].id != s[b].id,
        forall|a: int, b: int|
            0 <= a < b < s.len() ==> !(s[a].repository_path == s[b].repository_path
                && s[a].workspace_path == s[b].workspace_path),
        forall|a: int| 0 <= a < s.len() ==> nodup_seq(#[trigger] s[a].tags),
        0 <= i < s.len(),
        e.id == s[i].id,
        e.repository_path == s[i].repository_path,
        e.workspace_path == s[i].workspace_path,
        nodup_seq(e.tags),
    ensures
        forall|a: int, b: int|
            0 <= a < b < s.update(i, e).len() ==> s.update(i, e)[a].id != s.update(i, e)[b].id,
        forall|a: int, b: int|
            0 <= a < b < s.update(i, e).len() ==> !(s.update(i, e)[a].repository_path == s.update(
                i,
                e,
            )[b].repository_path && s.update(i, e)[a].workspace_path == s.update(
                i,
                e,
            )[b].workspace_path),
        forall|a: int| 0 <= a < s.update(i, e).len() ==> nodup_seq(#[trigger] s.update(i, e)[a].tags),
{
    let t = s.update(i, e);
    assert forall|a: int, b: int| 0 <= a < b < t.len() implies t[a].id != t[b].id by {
        assert(s[a].id != s[b].id);
    }
    assert forall|a: int, b: int|
        0 <= a < b < t.len() implies !(t[a].repository_path == t[b].repository_path
        && t[a].workspace_path == t[b].workspace_path) by {
        assert(!(s[a].repository_path == s[b].repository_path && s[a].workspace_path
            == s[b].workspace_path));
    }
    assert forall|a: int| 0 <= a < t.len() implies nodup_seq(#[trigger] t[a].tags) by {
        if a != i {
            assert(t[a] == s[a]);
        }
    }
}

/// Removing a record keeps every other record findable under its id and
/// unchanged, and keeps the registry invariant's structural parts.
proof fn lemma_ws_remove_preserves(s: Seq<WorkspaceMetadataView>, b: int)
    requires
        forall|a: int, c: int| 0 <= a < c < s.len() ==> s[a].id != s[c].id,
        forall|a: int, c: int|
            0 <= a < c < s.len() ==> !(s[a].repository_path == s[c].repository_path
                && s[a].workspace_path == s[c].workspace_path),
        forall|a: int| 0 <= a < s.len() ==> nodup_seq(#[trigger] s[a].tags),
        0 <= b < s.len(),
    ensures
        forall|a: int, c: int|
            0 <= a < c < s.remove(b).len() ==> s.remove(b)[a].id != s.remove(b)[c].id,
        forall|a: int, c: int|
            0 <= a < c < s.remove(b).len() ==> !(s.remove(b)[a].repository_path == s.remove(
                b,
            )[c].repository_path && s.remove(b)[a].workspace_path == s.remove(
                b,
            )[c].workspace_path),
        forall|a: int| 0 <= a < s.remove(b).len() ==> nodup_seq(#[trigger] s.remove(b)[a].tags),
        !has_workspace(s.remove(b), s[b].id),
        forall|id: u64|
            has_workspace(s.remove(b), id) ==> has_workspace(s, id) && workspace_of(
                s.remove(b),
                id,
            ) == workspace_of(s, id),
        forall|id: u64| id != s[b].id && has_workspace(s, id) ==> has_workspace(s.remove(b), id),
{
    let t = s.remove(b);
    assert forall|a: int, c: int| 0 <= a < c < t.len() implies t[a].id != t[c].id && !(
    t[a].repository_path == t[c].repository_path && t[a].workspace_path
        == t[c].workspace_path) by {
        let x: int = if a < b {
            a
        } else {
            a + 1
        };
        let y: int = if c < b {
            c
        } else {
            c + 1
        };
        assert(t[a] == s[x]);
        assert(t[c] == s[y]);
        assert(s[x].id != s[y].id);
        assert(!(s[x].repository_path == s[y].repository_path && s[x].workspace_path
            == s[y].workspace_path));
    }
    assert forall|a: int| 0 <= a < t.len() implies nodup_seq(#[trigger] t[a].tags) by {
        let x: int = if a < b {
            a
        } else {
            a + 1
        };
        assert(t[a] == s[x]);
        assert(nodup_seq(s[x].tags));
    }
    assert(!has_workspace(t, s[b].id)) by {
        if has_workspace(t, s[b].id) {
            let i = choose|i: int| 0 <= i < t.len() && t[i].id == s[b].id;
            let x: int = if i < b {
                i
            } else {
                i + 1
            };
            assert(t[i] == s[x]);
            if x < b {
                assert(s[x].id != s[b].id);
            } else {
                assert(s[b].id != s[x].id);
            }
        }
    }
    assert forall|id: u64| has_workspace(t, id) implies has_workspace(s, id) && workspace_of(
        t,
        id,
    ) == workspace_of(s, id) by {
        let i = choose|i: int| 0 <= i < t.len() && t[i].id == id;
        let x: int = if i < b {
            i
        } else {
            i + 1
        };
        assert(t[i] == s[x]);
        lemma_workspace_index_unique(s, x, id);
        lemma_workspace_index_unique(t, i, id);
    }
    assert forall|id: u64| id != s[b].id && has_workspace(s, id) implies has_workspace(t, id) by {
        let i = choose|i: int| 0 <= i < s.len() && s[i].id == id;
        if i < b {
            assert(t[i] == s[i]);
        } else {
            assert(i > b);
            assert(t[i - 1] == s[i]);
        }
    }
}

/// Aggregate figures over the whole registry.
#[derive(Debug)]
pub struct WorkspaceStatistics {
    pub total_count: usize,
    pub active_count: usize,
    pub inactive_count: usize,
    pub archived_count: usize,
    pub broken_count: usize,
    pub branch_counts: Vec<(String, u64)>,
    pub tag_counts: Vec<(String, u64)>,
    pub oldest_workspace: Option<u64>,
    pub newest_workspace: Option<u64>,
}

/// How many records carry `b` as their branch.
pub open spec fn count_with_branch(s: Seq<WorkspaceMetadataView>, b: Seq<char>) -> nat
    decreases s.len(),
{
    if s.len() == 0 {
        0
    } else {
        count_with_branch(s.drop_last(), b) + (if s.last().branch == Some(b) {
            1nat
        } else {
            0nat
        })
    }
}

/// How many records carry `t` among their tags.
pub open spec fn count_with_tag(s: Seq<WorkspaceMetadataView>, t: Seq<char>) -> nat
    decreases s.len(),
{
    if s.len() == 0 {
        0
    } else {
        count_with_tag(s.drop_last(), t) + (if s.last().tags.contains(t) {
            1nat
        } else {
            0nat
        })
    }
}

/// A histogram over the registry: keys pairwise distinct, each with its
/// exact occurrence count.
pub open spec fn histogram_counts_ok(
    h: Seq<(String, u64)>,
    s: Seq<WorkspaceMetadataView>,
    by_tag: bool,
) -> bool {
    &&& forall|i: int, j: int| 0 <= i < j < h.len() ==> h[i].0@ != h[j].0@
    &&& forall|i: int|
        0 <= i < h.len() ==> (#[trigger] h[i]).1 == (if by_tag {
            count_with_tag(s, h[i].0@)
        } else {
            count_with_branch(s, h[i].0@)
        })
}

/// The records that survive cleaning: everything not `Broken`, in order.
pub open spec fn retained_workspaces(s: Seq<WorkspaceMetadataView>) -> Seq<WorkspaceMetadataView>
    decreases s.len(),
{
    if s.len() == 0 {
        Seq::empty()
    } else {
        retained_workspaces(s.drop_last()) + (if s.last().status is Broken {
            Seq::empty()
        } else {
            seq![s.last()]
        })
    }
}

/// The ids of the `Broken` records, in registry order.
pub open spec fn broken_ids(s: Seq<WorkspaceMetadataView>) -> Seq<u64>
    decreases s.len(),
{
    if s.len() == 0 {
        Seq::empty()
    } else {
        broken_ids(s.drop_last()) + (if s.last().status is Broken {
            seq![s.last().id]
        } else {
            Seq::empty()
        })
    }
}

/// What survives a cleaning is a subsequence of what was tracked, and the
/// registry invariant's structural parts carry over.
proof fn lemma_retained_ws_props(s: Seq<WorkspaceMetadataView>)
    ensures
        retained_workspaces(s).len() <= s.len(),
        forall|i: int|
            #![trigger retained_workspaces(s)[i]]
            0 <= i < retained_workspaces(s).len() ==> exists|j: int|
                0 <= j < s.len() && s[j] == retained_workspaces(s)[i],
        (forall|a: int, b: int| 0 <= a < b < s.len() ==> s[a].id != s[b].id) ==> (forall|
            a: int,
            b: int,
        |
            0 <= a < b < retained_workspaces(s).len() ==> retained_workspaces(s)[a].id
                != retained_workspaces(s)[b].id),
        ((forall|a: int, b: int| 0 <= a < b < s.len() ==> s[a].id != s[b].id) && (forall|
            a: int,
            b: int,
        |
            0 <= a < b < s.len() ==> !(s[a].repository_path == s[b].repository_path
                && s[a].workspace_path == s[b].workspace_path))) ==> (forall|a: int, b: int|
            0 <= a < b < retained_workspaces(s).len() ==> !(
            retained_workspaces(s)[a].repository_path == retained_workspaces(
                s,
            )[b].repository_path && retained_workspaces(s)[a].workspace_path
                == retained_workspaces(s)[b].workspace_path)),
    decreases s.len(),
{
    if s.len() > 0 {
        let d = s.drop_last();
        lemma_retained_ws_props(d);
        let r = retained_workspaces(s);
        let rd = retained_workspaces(d);
        assert forall|i: int|
            #![trigger r[i]]
            0 <= i < r.len() implies exists|j: int| 0 <= j < s.len() && s[j] == r[i] by {
            if i < rd.len() {
                assert(r[i] == rd[i]);
                let j = choose|j: int| 0 <= j < d.len() && d[j] == rd[i];
                assert(s[j] == r[i]);
            } else {
                assert(r[i] == s.last());
                assert(s[s.len() - 1] == r[i]);
            }
        }
        if forall|a: int, b: int| 0 <= a < b < s.len() ==> s[a].id != s[b].id {
            assert forall|a: int, b: int| 0 <= a < b < d.len() implies d[a].id != d[b].id by {
                assert(d[a] == s[a]);
                assert(d[b] == s[b]);
            }
            assert forall|a: int, b: int| 0 <= a < b < r.len() implies r[a].id != r[b].id by {
                if b < rd.len() {
                    assert(rd[a].id != rd[b].id);
                } else {
                    assert(r[b] == s.last());
                    let j = choose|j: int| 0 <= j < d.len() && d[j] == rd[a];
                    assert(r[a] == s[j]);
                    assert(s[j].id != s[s.len() - 1].id);
                }
            }
            if forall|a: int, b: int|
                0 <= a < b < s.len() ==> !(s[a].repository_path == s[b].repository_path
                    && s[a].workspace_path == s[b].workspace_path) {
                assert forall|a: int, b: int|
                    0 <= a < b < d.len() implies !(d[a].repository_path == d[b].repository_path
                    && d[a].workspace_path == d[b].workspace_path) by {
                    assert(d[a] == s[a]);
                    assert(d[b] == s[b]);
                }
                assert forall|a: int, b: int|
                    0 <= a < b < r.len() implies !(r[a].repository_path == r[b].repository_path
                    && r[a].workspace_path == r[b].workspace_path) by {
                    if b < rd.len() {
                        assert(!(rd[a].repository_path == rd[b].repository_path
                            && rd[a].workspace_path == rd[b].workspace_path));
                    } else {
                        assert(r[b] == s.last());
                        let j = choose|j: int| 0 <= j < d.len() && d[j] == rd[a];
                        assert(r[a] == s[j]);
                        assert(!(s[j].repository_path == s[s.len() - 1].repository_path
                            && s[j].workspace_path == s[s.len() - 1].workspace_path));
                    }
                }
            }
        }
    }
}

/// The histogram holds an entry for `k`.
pub open spec fn histogram_has_key(h: Seq<(String, u64)>, k: Seq<char>) -> bool {
    exists|i: int| 0 <= i < h.len() && h[i].0@ == k
}

impl WorkspaceManagerService {
    fn collect_branch_names(&self) -> (r: Vec<String>)
        ensures
            nodup_seq(strings_view(r@)),
            forall|j: int|
                0 <= j < self@.workspaces.len() ==> match (#[trigger] self@.workspaces[j]).branch {
                    Some(b) => text::spec_contains_string(r@, b),
                    None => true,
                },
    {
        let mut r: Vec<String> = Vec::new();
        let mut i: usize = 0;
        while i < self.workspaces.len()
            invariant
                0 <= i <= self.workspaces@.len(),
                self@.workspaces.len() == self.workspaces@.len(),
                nodup_seq(strings_view(r@)),
                forall|j: int|
                    0 <= j < i ==> match (#[trigger] self@.workspaces[j]).branch {
                        Some(b) => text::spec_contains_string(r@, b),
                        None => true,
                    },
                forall|j: int|
                    0 <= j < self.workspaces@.len() ==> #[trigger] self@.workspaces[j]
                        == self.workspaces@[j]@,
            decreases self.workspaces@.len() - i,
        {
            match &self.workspaces[i].branch {
                Some(rb) => {
                    let present = text::contains_string(&r, rb);
                    if !present {
                        let ghost before = r@;
                        let c = rb.clone();
                        r.push(c);
                        proof {
                            assert(r@ == before.push(c));
                            assert forall|a: int, b: int|
                                0 <= a < b < strings_view(r@).len() implies strings_view(r@)[a]
                                != strings_view(r@)[b] by {
                                if b < before.len() {
                                    assert(strings_view(before)[a] != strings_view(before)[b]);
                                } else {
                                    assert(r@[b]@ == rb@);
                                    assert(!text::spec_contains_string(before, rb@));
                                    assert(before[a]@ != rb@);
                                }
                            }
                            assert forall|x: Seq<char>|
                                text::spec_contains_string(before, x) implies text::spec_contains_string(
                                r@,
                                x,
                            ) by {
                                let k = choose|k: int| 0 <= k < before.len() && before[k]@ == x;
                                assert(r@[k] == before[k]);
                            }
                            assert(r@[before.len() as int]@ == rb@);
                        }
                    }
                },
                None => {},
            }
            i += 1;
        }
        r
    }

    fn collect_tag_names(&self) -> (r: Vec<String>)
        ensures
            nodup_seq(strings_view(r@)),
            forall|j: int, t: Seq<char>|
                0 <= j < self@.workspaces.len() && (#[trigger] self@.workspaces[j].tags.contains(
                    t,
                )) ==> text::spec_contains_string(r@, t),
    {
        let mut r: Vec<String> = Vec::new();
        let mut i: usize = 0;
        while i < self.workspaces.len()
            invariant
                0 <= i <= self.workspaces@.len(),
                self@.workspaces.len() == self.workspaces@.len(),
                nodup_seq(strings_view(r@)),
                forall|j: int, t: Seq<char>|
                    0 <= j < i && (#[trigger] self@.workspaces[j].tags.contains(t))
                        ==> text::spec_contains_string(r@, t),
                forall|j: int|
                    0 <= j < self.workspaces@.len() ==> #[trigger] self@.workspaces[j]
                        == self.workspaces@[j]@,
            decreases self.workspaces@.len() - i,
        {
            let n = self.workspaces[i].tags.len();
            let mut k: usize = 0;
            while k < n
                invariant
                    0 <= k <= n,
                    i < self.workspaces@.len(),
                    self@.workspaces.len() == self.workspaces@.len(),
                    n == self.workspaces@[i as int].tags@.len(),
                    nodup_seq(strings_view(r@)),
                    forall|j: int, t: Seq<char>|
                        0 <= j < i && (#[trigger] self@.workspaces[j].tags.contains(t))
                            ==> text::spec_contains_string(r@, t),
                    forall|x: int|
                        0 <= x < k ==> text::spec_contains_string(
                            r@,
                            (#[trigger] self@.workspaces[i as int].tags[x]),
                        ),
                    forall|j: int|
                        0 <= j < self.workspaces@.len() ==> #[trigger] self@.workspaces[j]
                            == self.workspaces@[j]@,
                decreases n - k,
            {
                let tag = &self.workspaces[i].tags[k];
                let present = text::contains_string(&r, tag);
                proof {
                    assert(self@.workspaces[i as int].tags[k as int] == tag@);
                }
                if !present {
                    let ghost before = r@;
                    let c = tag.clone();
                    r.push(c);
                    proof {
                        assert(r@ == before.push(c));
                        assert forall|a: int, b: int|
                            0 <= a < b < strings_view(r@).len() implies strings_view(r@)[a]
                            != strings_view(r@)[b] by {
                            if b < before.len() {
                                assert(strings_view(before)[a] != strings_view(before)[b]);
                            } else {
                                assert(r@[b]@ == tag@);
                                assert(!text::spec_contains_string(before, tag@));
                                assert(before[a]@ != tag@);
                            }
                        }
                        assert forall|x: Seq<char>|
                            text::spec_contains_string(before, x) implies text::spec_contains_string(
                            r@,
                            x,
                        ) by {
                            let w = choose|w: int| 0 <= w < before.len() && before[w]@ == x;
                            assert(r@[w] == before[w]);
                        }
                        assert(r@[before.len() as int]@ == tag@);
                    }
                }
                k += 1;
            }
            proof {
                assert forall|t: Seq<char>|
                    (#[trigger] self@.workspaces[i as int].tags.contains(
                        t,
                    )) implies text::spec_contains_string(r@, t) by {
                    let x = choose|x: int|
                        0 <= x < self@.workspaces[i as int].tags.len()
                            && self@.workspaces[i as int].tags[x] == t;
                    assert(text::spec_contains_string(r@, self@.workspaces[i as int].tags[x]));
                }
            }
            i += 1;
        }
        r
    }

    fn count_branch(&self, b: &String) -> (r: u64)
        ensures
            r == count_with_branch(self@.workspaces, b@),
    {
        let mut r: u64 = 0;
        let mut i: usize = 0;
        proof {
            assert(self@.workspaces.take(0) =~= Seq::empty());
        }
        while i < self.workspaces.len()
            invariant
                0 <= i <= self.workspaces@.len(),
                self@.workspaces.len() == self.workspaces@.len(),
                r <= i,
                r == count_with_branch(self@.workspaces.take(i as int), b@),
                forall|j: int|
                    0 <= j < self.workspaces@.len() ==> #[trigger] self@.workspaces[j]
                        == self.workspaces@[j]@,
            decreases self.workspaces@.len() - i,
        {
            proof {
                assert(self@.workspaces.take(i + 1).drop_last() =~= self@.workspaces.take(
                    i as int,
                ));
                assert(self@.workspaces.take(i + 1).last() == self@.workspaces[i as int]);
            }
            let here = match &self.workspaces[i].branch {
                Some(rb) => text::string_eq(rb, b),
                None => false,
            };
            if here {
                r += 1;
            }
            i += 1;
        }
        proof {
            assert(self@.workspaces.take(self.workspaces@.len() as int) =~= self@.workspaces);
        }
        r
    }

    fn count_tag(&self, t: &String) -> (r: u64)
        ensures
            r == count_with_tag(self@.workspaces, t@),
    {
        let mut r: u64 = 0;
        let mut i: usize = 0;
        proof {
            assert(self@.workspaces.take(0) =~= Seq::empty());
        }
        while i < self.workspaces.len()
            invariant
                0 <= i <= self.workspaces@.len(),
                self@.workspaces.len() == self.workspaces@.len(),
                r <= i,
                r == count_with_tag(self@.workspaces.take(i as int), t@),
                forall|j: int|
                    0 <= j < self.workspaces@.len() ==> #[trigger] self@.workspaces[j]
                        == self.workspaces@[j]@,
            decreases self.workspaces@.len() - i,
        {
            proof {
                assert(self@.workspaces.take(i + 1).drop_last() =~= self@.workspaces.take(
                    i as int,
                ));
                assert(self@.workspaces.take(i + 1).last() == self@.workspaces[i as int]);
                lemma_strings_view_contains(self.workspaces@[i as int].tags@);
            }
            let here = text::contains_string(&self.workspaces[i].tags, t);
            if here {
                r += 1;
            }
            i += 1;
        }
        proof {
            assert(self@.workspaces.take(self.workspaces@.len() as int) =~= self@.workspaces);
        }
        r
    }

    fn branch_histogram(&self) -> (r: Vec<(String, u64)>)
        ensures
            histogram_counts_ok(r@, self@.workspaces, false),
            forall|j: int|
                0 <= j < self@.workspaces.len() ==> match (#[trigger] self@.workspaces[j]).branch {
                    Some(b) => histogram_has_key(r@, b),
                    None => true,
                },
    {
        let names = self.collect_branch_names();
        let mut r: Vec<(String, u64)> = Vec::new();
        let mut k: usize = 0;
        while k < names.len()
            invariant
                0 <= k <= names@.len(),
                nodup_seq(strings_view(names@)),
                r@.len() == k,
                forall|i: int| 0 <= i < k ==> (#[trigger] r@[i]).0@ == names@[i]@ && r@[i].1
                    == count_with_branch(self@.workspaces, names@[i]@),
            decreases names@.len() - k,
        {
            let ghost before = r@;
            let name = names[k].clone();
            let count = self.count_branch(&name);
            r.push((name, count));
            proof {
                assert(r@ == before.push((r@[k as int].0, count)));
            }
            k += 1;
        }
        proof {
            assert forall|i: int, j: int| 0 <= i < j < r@.len() implies r@[i].0@ != r@[j].0@ by {
                assert(strings_view(names@)[i] != strings_view(names@)[j]);
            }
            assert forall|j: int|
                0 <= j < self@.workspaces.len() implies match (
            #[trigger] self@.workspaces[j]).branch {
                Some(b) => histogram_has_key(r@, b),
                None => true,
            } by {
                match self@.workspaces[j].branch {
                    Some(b) => {
                        let w = choose|w: int| 0 <= w < names@.len() && names@[w]@ == b;
                        assert(r@[w].0@ == b);
                    },
                    None => {},
                }
            }
        }
        r
    }

    fn tag_histogram(&self) -> (r: Vec<(String, u64)>)
        ensures
            histogram_counts_ok(r@, self@.workspaces, true),
            forall|j: int, t: Seq<char>|
                0 <= j < self@.workspaces.len() && (#[trigger] self@.workspaces[j].tags.contains(
                    t,
                )) ==> histogram_has_key(r@, t),
    {
        let names = self.collect_tag_names();
        let mut r: Vec<(String, u64)> = Vec::new();
        let mut k: usize = 0;
        while k < names.len()
            invariant
                0 <= k <= names@.len(),
                nodup_seq(strings_view(names@)),
                r@.len() == k,
                forall|i: int| 0 <= i < k ==> (#[trigger] r@[i]).0@ == names@[i]@ && r@[i].1
                    == count_with_tag(self@.workspaces, names@[i]@),
            decreases names@.len() - k,
        {
            let ghost before = r@;
            let name = names[k].clone();
            let count = self.count_tag(&name);
            r.push((name, count));
            proof {
                assert(r@ == before.push(r@[k as int]));
            }
            k += 1;
        }
        proof {
            assert forall|i: int, j: int| 0 <= i < j < r@.len() implies r@[i].0@ != r@[j].0@ by {
                assert(strings_view(names@)[i] != strings_view(names@)[j]);
            }
            assert forall|j: int, t: Seq<char>|
                0 <= j < self@.workspaces.len() && (#[trigger] self@.workspaces[j].tags.contains(
                    t,
                )) implies histogram_has_key(r@, t) by {
                let w = choose|w: int| 0 <= w < names@.len() && names@[w]@ == t;
                assert(r@[w].0@ == t);
            }
        }
        r
    }

    /// The workspaces carrying a tag, newest first. Tag search is a pure
    /// read-side query over the listing.
    pub fn find_workspaces_by_tag(&self, tag: &str) -> (r: Vec<WorkspaceMetadata>)
        requires
            self.wf(),
        ensures
            sorted_by_created_desc(r@.map_values(|w: WorkspaceMetadata| w@)),
            forall|i: int|
                0 <= i < r@.len() ==> (#[trigger] r@[i])@.tags.contains(tag@)
                    && self@.workspaces.contains(r@[i]@),
            forall|w: WorkspaceMetadataView|
                self@.workspaces.contains(w) && w.tags.contains(tag@) ==> r@.map_values(
                    |x: WorkspaceMetadata| x@,
                ).contains(w),
            forall|i: int| 0 <= i < r@.len() ==> (#[trigger] r@[i]).custom_fields.wf(),
    {
        let all = self.list_workspaces();
        let ghost allv = all@.map_values(|w: WorkspaceMetadata| w@);
        let tagstr = String::from_str(tag);
        let mut r: Vec<WorkspaceMetadata> = Vec::new();
        let mut i: usize = 0;
        while i < all.len()
            invariant
                0 <= i <= all@.len(),
                allv == all@.map_values(|w: WorkspaceMetadata| w@),
                tagstr@ == tag@,
                sorted_by_created_desc(allv),
                sorted_by_created_desc(r@.map_values(|w: WorkspaceMetadata| w@)),
                forall|a: int, j: int|
                    0 <= a < r@.len() && i <= j < allv.len() ==> (
                    #[trigger] r@[a])@.created_at >= (#[trigger] allv[j]).created_at,
                forall|a: int|
                    0 <= a < r@.len() ==> (#[trigger] r@[a])@.tags.contains(tag@) && allv.contains(
                        r@[a]@,
                    ),
                forall|j: int|
                    0 <= j < i && (#[trigger] allv[j]).tags.contains(tag@) ==> r@.map_values(
                        |x: WorkspaceMetadata| x@,
                    ).contains(allv[j]),
                forall|a: int| 0 <= a < r@.len() ==> (#[trigger] r@[a]).custom_fields.wf(),
                forall|a: int| 0 <= a < all@.len() ==> (#[trigger] all@[a]).custom_fields.wf(),
            decreases all@.len() - i,
        {
            let has = text::contains_string(&all[i].tags, &tagstr);
            proof {
                lemma_strings_view_contains(all@[i as int].tags@);
            }
            if has {
                let ghost rbefore = r@;
                let c = all[i].clone();
                r.push(c);
                proof {
                    assert(r@ == rbefore.push(c));
                    assert(r@.map_values(|x: WorkspaceMetadata| x@) =~= rbefore.map_values(
                        |x: WorkspaceMetadata| x@,
                    ).push(allv[i as int]));
                    assert(allv.contains(allv[i as int]));
                    assert forall|j: int|
                        0 <= j < i + 1 && (#[trigger] allv[j]).tags.contains(
                            tag@,
                        ) implies r@.map_values(|x: WorkspaceMetadata| x@).contains(allv[j]) by {
                        if j < i {
                            let k = choose|k: int|
                                0 <= k < rbefore.len() && (#[trigger] rbefore[k])@ == allv[j];
                            assert(r@.map_values(|x: WorkspaceMetadata| x@)[k] == allv[j]);
                        } else {
                            assert(r@.map_values(|x: WorkspaceMetadata| x@)[rbefore.len() as int]
                                == allv[j]);
                        }
                    }
                }
            } else {
                proof {
                    assert forall|j: int|
                        0 <= j < i + 1 && (#[trigger] allv[j]).tags.contains(
                            tag@,
                        ) implies r@.map_values(|x: WorkspaceMetadata| x@).contains(allv[j]) by {
                        assert(j < i || allv[j] == all@[i as int]@);
                    }
                }
            }
            i += 1;
        }
        proof {
            broadcast use vstd::multiset::group_multiset_axioms;

            assert forall|a: int|
                0 <= a < r@.len() implies (#[trigger] r@[a])@.tags.contains(tag@)
                && self@.workspaces.contains(r@[a]@) by {
                assert(allv.contains(r@[a]@));
                vstd::seq_lib::to_multiset_contains(allv, r@[a]@);
                vstd::seq_lib::to_multiset_contains(self@.workspaces, r@[a]@);
            }
            assert forall|w: WorkspaceMetadataView|
                self@.workspaces.contains(w) && w.tags.contains(tag@) implies r@.map_values(
                |x: WorkspaceMetadata| x@,
            ).contains(w) by {
                vstd::seq_lib::to_multiset_contains(allv, w);
                vstd::seq_lib::to_multiset_contains(self@.workspaces, w);
                assert(allv.contains(w));
                let j = choose|j: int| 0 <= j < allv.len() && allv[j] == w;
            }
        }
        r
    }

    /// The workspaces in a given status, newest first. Status filtering is a
    /// pure read-side query over the listing.
    pub fn find_workspaces_by_status(&self, status: WorkspaceStatus) -> (r: Vec<WorkspaceMetadata>)
        requires
            self.wf(),
        ensures
            sorted_by_created_desc(r@.map_values(|w: WorkspaceMetadata| w@)),
            forall|i: int|
                0 <= i < r@.len() ==> (#[trigger] r@[i])@.status == status
                    && self@.workspaces.contains(r@[i]@),
            forall|w: WorkspaceMetadataView|
                self@.workspaces.contains(w) && w.status == status ==> r@.map_values(
                    |x: WorkspaceMetadata| x@,
                ).contains(w),
            forall|i: int| 0 <= i < r@.len() ==> (#[trigger] r@[i]).custom_fields.wf(),
    {
        let all = self.list_workspaces();
        let ghost allv = all@.map_values(|w: WorkspaceMetadata| w@);
        let mut r: Vec<WorkspaceMetadata> = Vec::new();
        let mut i: usize = 0;
        while i < all.len()
            invariant
                0 <= i <= all@.len(),
                allv == all@.map_values(|w: WorkspaceMetadata| w@),
                sorted_by_created_desc(allv),
                sorted_by_created_desc(r@.map_values(|w: WorkspaceMetadata| w@)),
                forall|a: int, j: int|
                    0 <= a < r@.len() && i <= j < allv.len() ==> (
                    #[trigger] r@[a])@.created_at >= (#[trigger] allv[j]).created_at,
                forall|a: int|
                    0 <= a < r@.len() ==> (#[trigger] r@[a])@.status == status && allv.contains(
                        r@[a]@,
                    ),
                forall|j: int|
                    0 <= j < i && (#[trigger] allv[j]).status == status ==> r@.map_values(
                        |x: WorkspaceMetadata| x@,
                    ).contains(allv[j]),
                forall|a: int| 0 <= a < r@.len() ==> (#[trigger] r@[a]).custom_fields.wf(),
                forall|a: int| 0 <= a < all@.len() ==> (#[trigger] all@[a]).custom_fields.wf(),
            decreases all@.len() - i,
        {
            let matches_status = all[i].status == status;
            if matches_status {
                let ghost rbefore = r@;
                let c = all[i].clone();
                r.push(c);
                proof {
                    assert(r@ == rbefore.push(c));
                    assert(r@.map_values(|x: WorkspaceMetadata| x@) =~= rbefore.map_values(
                        |x: WorkspaceMetadata| x@,
                    ).push(allv[i as int]));
                    assert(allv.contains(allv[i as int]));
                    assert forall|j: int|
                        0 <= j < i + 1 && (#[trigger] allv[j]).status == status implies r@.map_values(
                        |x: WorkspaceMetadata| x@,
                    ).contains(allv[j]) by {
                        if j < i {
                            let k = choose|k: int|
                                0 <= k < rbefore.len() && (#[trigger] rbefore[k])@ == allv[j];
                            assert(r@.map_values(|x: WorkspaceMetadata| x@)[k] == allv[j]);
                        } else {
                            assert(r@.map_values(|x: WorkspaceMetadata| x@)[rbefore.len() as int]
                                == allv[j]);
                        }
                    }
                }
            } else {
                proof {
                    assert forall|j: int|
                        0 <= j < i + 1 && (#[trigger] allv[j]).status == status implies r@.map_values(
                        |x: WorkspaceMetadata| x@,
                    ).contains(allv[j]) by {
                        assert(j < i || allv[j] == all@[i as int]@);
                    }
                }
            }
            i += 1;
        }
        proof {
            broadcast use vstd::multiset::group_multiset_axioms;

            assert forall|a: int|
                0 <= a < r@.len() implies (#[trigger] r@[a])@.status == status
                && self@.workspaces.contains(r@[a]@) by {
                assert(allv.contains(r@[a]@));
                vstd::seq_lib::to_multiset_contains(allv, r@[a]@);
                vstd::seq_lib::to_multiset_contains(self@.workspaces, r@[a]@);
            }
            assert forall|w: WorkspaceMetadataView|
                self@.workspaces.contains(w) && w.status == status implies r@.map_values(
                |x: WorkspaceMetadata| x@,
            ).contains(w) by {
                vstd::seq_lib::to_multiset_contains(allv, w);
                vstd::seq_lib::to_multiset_contains(self@.workspaces, w);
                assert(allv.contains(w));
                let j = choose|j: int| 0 <= j < allv.len() && allv[j] == w;
            }
        }
        r
    }

    /// Deletes every `Broken` workspace record and reports their ids, in
    /// registry order. The caller removes whatever is left of their files.
    pub fn cleanup_broken_workspaces(&mut self) -> (r: Vec<u64>)
        requires
            old(self).wf(),
        ensures
            final(self).wf(),
            final(self)@.next_id == old(self)@.next_id,
            final(self)@.workspaces == retained_workspaces(old(self)@.workspaces),
            r@ == broken_ids(old(self)@.workspaces),
    {
        let mut kept: Vec<WorkspaceMetadata> = Vec::new();
        let mut removed: Vec<u64> = Vec::new();
        let mut i: usize = 0;
        while i < self.workspaces.len()
            invariant
                old(self).wf(),
                self@ == old(self)@,
                0 <= i <= self.workspaces@.len(),
                self@.workspaces.len() == self.workspaces@.len(),
                kept@.map_values(|w: WorkspaceMetadata| w@) == retained_workspaces(
                    self@.workspaces.take(i as int),
                ),
                removed@ == broken_ids(self@.workspaces.take(i as int)),
                forall|j: int| 0 <= j < kept@.len() ==> (#[trigger] kept@[j]).custom_fields.wf(),
            decreases self.workspaces@.len() - i,
        {
            proof {
                assert(self@.workspaces.take(i + 1).drop_last() =~= self@.workspaces.take(
                    i as int,
                ));
                assert(self@.workspaces.take(i + 1).last() == self@.workspaces[i as int]);
            }
            if matches!(self.workspaces[i].status, WorkspaceStatus::Broken) {
                let ghost rbefore = removed@;
                removed.push(self.workspaces[i].id);
                proof {
                    assert(removed@ =~= broken_ids(self@.workspaces.take(i + 1)));
                    assert(kept@.map_values(|w: WorkspaceMetadata| w@) =~= retained_workspaces(
                        self@.workspaces.take(i + 1),
                    ));
                }
            } else {
                let ghost kbefore = kept@;
                let c = self.workspaces[i].clone();
                kept.push(c);
                proof {
                    assert(kept@ == kbefore.push(c));
                    assert(kept@.map_values(|w: WorkspaceMetadata| w@) =~= retained_workspaces(
                        self@.workspaces.take(i + 1),
                    ));
                    assert(removed@ =~= broken_ids(self@.workspaces.take(i + 1)));
                }
            }
            i += 1;
        }
        proof {
            assert(self@.workspaces.take(self.workspaces@.len() as int) =~= self@.workspaces);
            lemma_retained_ws_props(old(self)@.workspaces);
        }
        self.workspaces = kept;
        proof {
            assert(self@.workspaces == retained_workspaces(old(self)@.workspaces));
            assert forall|a: int|
                0 <= a < self@.workspaces.len() implies #[trigger] self@.workspaces[a].id
                < self@.next_id by {
                let j = choose|j: int|
                    0 <= j < old(self)@.workspaces.len() && old(self)@.workspaces[j]
                        == retained_workspaces(old(self)@.workspaces)[a];
                assert(old(self)@.workspaces[j].id < old(self)@.next_id);
            }
            assert forall|a: int|
                0 <= a < self@.workspaces.len() implies nodup_seq(
                #[trigger] self@.workspaces[a].tags,
            ) by {
                let j = choose|j: int|
                    0 <= j < old(self)@.workspaces.len() && old(self)@.workspaces[j]
                        == retained_workspaces(old(self)@.workspaces)[a];
                assert(nodup_seq(old(self)@.workspaces[j].tags));
            }
        }
        self.reindex();
        removed
    }

    /// The record of one workspace together with the probed facts: whether
    /// its path exists, whether it is a valid working copy (only a path that
    /// exists can be), and the backend status the caller read for it.
    pub fn get_workspace_info(
        &self,
        workspace_id: u64,
        probe: PathProbe,
        git_status: Option<GitStatus>,
    ) -> (r: Result<WorkspaceInfo, ServiceError>)
        requires
            self.wf(),
        ensures
            r.is_ok() <==> has_workspace(self@.workspaces, workspace_id),
            match r {
                Ok(info) => {
                    &&& info.metadata@ == workspace_of(self@.workspaces, workspace_id)
                    &&& info.metadata.custom_fields.wf()
                    &&& info.path_exists == probe.exists
                    &&& info.is_git_worktree == (probe.exists && probe.is_git_repository)
                    &&& info.git_status == git_status
                },
                Err(e) => e.kind == ErrorKind::NotFound,
            },
    {
        let metadata = match self.load_workspace_metadata(workspace_id) {
            Ok(m) => m,
            Err(e) => {
                return Err(e);
            },
        };
        Ok(WorkspaceInfo {
            metadata,
            git_status,
            path_exists: probe.exists,
            is_git_worktree: probe.exists && probe.is_git_repository,
        })
    }

    /// Aggregate figures over the registry: counts by status, histograms of
    /// branches and tags, and the ids of the oldest and newest workspaces by
    /// creation time.
    pub fn get_workspace_statistics(&self) -> (r: WorkspaceStatistics)
        requires
            self.wf(),
        ensures
            r.total_count == self@.workspaces.len(),
            histogram_counts_ok(r.branch_counts@, self@.workspaces, false),
            forall|j: int|
                0 <= j < self@.workspaces.len() ==> match (#[trigger] self@.workspaces[j]).branch {
                    Some(b) => histogram_has_key(r.branch_counts@, b),
                    None => true,
                },
            histogram_counts_ok(r.tag_counts@, self@.workspaces, true),
            forall|j: int, t: Seq<char>|
                0 <= j < self@.workspaces.len() && (#[trigger] self@.workspaces[j].tags.contains(
                    t,
                )) ==> histogram_has_key(r.tag_counts@, t),
            r.active_count == count_status(self@.workspaces, WorkspaceStatus::Active),
            r.inactive_count == count_status(self@.workspaces, WorkspaceStatus::Inactive),
            r.archived_count == count_status(self@.workspaces, WorkspaceStatus::Archived),
            r.broken_count == count_status(self@.workspaces, WorkspaceStatus::Broken),
            match r.oldest_workspace {
                None => self@.workspaces.len() == 0,
                Some(id) => has_workspace(self@.workspaces, id) && (forall|j: int|
                    0 <= j < self@.workspaces.len() ==> (#[trigger] self@.workspaces[j]).created_at
                        >= workspace_of(self@.workspaces, id).created_at),
            },
            match r.newest_workspace {
                None => self@.workspaces.len() == 0,
                Some(id) => has_workspace(self@.workspaces, id) && (forall|j: int|
                    0 <= j < self@.workspaces.len() ==> (#[trigger] self@.workspaces[j]).created_at
                        <= workspace_of(self@.workspaces, id).created_at),
            },
    {
        let mut active: usize = 0;
        let mut inactive: usize = 0;
        let mut archived: usize = 0;
        let mut broken: usize = 0;
        let mut i: usize = 0;
        proof {
            assert(self@.workspaces.take(0) =~= Seq::empty());
        }
        while i < self.workspaces.len()
            invariant
                0 <= i <= self.workspaces@.len(),
                self@.workspaces.len() == self.workspaces@.len(),
                active <= i,
                inactive <= i,
                archived <= i,
                broken <= i,
                active == count_status(self@.workspaces.take(i as int), WorkspaceStatus::Active),
                inactive == count_status(
                    self@.workspaces.take(i as int),
                    WorkspaceStatus::Inactive,
                ),
                archived == count_status(
                    self@.workspaces.take(i as int),
                    WorkspaceStatus::Archived,
                ),
                broken == count_status(self@.workspaces.take(i as int), WorkspaceStatus::Broken),
                forall|j: int|
                    0 <= j < self.workspaces@.len() ==> #[trigger] self@.workspaces[j]
                        == self.workspaces@[j]@,
            decreases self.workspaces@.len() - i,
        {
            proof {
                assert(self@.workspaces.take(i + 1).drop_last() =~= self@.workspaces.take(
                    i as int,
                ));
                assert(self@.workspaces.take(i + 1).last() == self@.workspaces[i as int]);
            }
            let st = self.workspaces[i].status;
            if matches!(st, WorkspaceStatus::Active) {
                active += 1;
            }
            if matches!(st, WorkspaceStatus::Inactive) {
                inactive += 1;
            }
            if matches!(st, WorkspaceStatus::Archived) {
                archived += 1;
            }
            if matches!(st, WorkspaceStatus::Broken) {
                broken += 1;
            }
            i += 1;
        }
        proof {
            assert(self@.workspaces.take(self.workspaces@.len() as int) =~= self@.workspaces);
        }
        let (oldest_workspace, newest_workspace) = if self.workspaces.len() == 0 {
            (None, None)
        } else {
            let lo = argmin_created(&self.workspaces);
            let hi = argmax_created(&self.workspaces);
            proof {
                lemma_workspace_index_unique(
                    self@.workspaces,
                    lo as int,
                    self.workspaces@[lo as int].id,
                );
                lemma_workspace_index_unique(
                    self@.workspaces,
                    hi as int,
                    self.workspaces@[hi as int].id,
                );
            }
            (Some(self.workspaces[lo].id), Some(self.workspaces[hi].id))
        };
        WorkspaceStatistics {
            total_count: self.workspaces.len(),
            active_count: active,
            inactive_count: inactive,
            archived_count: archived,
            broken_count: broken,
            branch_counts: self.branch_histogram(),
            tag_counts: self.tag_histogram(),
            oldest_workspace,
            newest_workspace,
        }
    }

    /// The derived summary index, as last rebuilt: always equal to the
    /// aggregate the records describe.
    pub fn workspace_index(&self) -> (r: &WorkspaceIndex)
        requires
            self.wf(),
        ensures
            r@ == spec_index(self@.workspaces),
    {
        &self.index
    }
}

/// The index of a record with the earliest creation time.
fn argmin_created(v: &Vec<WorkspaceMetadata>) -> (r: usize)
    requires
        v@.len() > 0,
    ensures
        r < v@.len(),
        forall|j: int|
            0 <= j < v@.len() ==> (#[trigger] v@[j])@.created_at >= v@[r as int]@.created_at,
{
    let mut best: usize = 0;
    let mut i: usize = 1;
    while i < v.len()
        invariant
            0 <= best < i <= v@.len(),
            forall|j: int|
                0 <= j < i ==> (#[trigger] v@[j])@.created_at >= v@[best as int]@.created_at,
        decreases v@.len() - i,
    {
        if v[i].created_at < v[best].created_at {
            best = i;
        }
        i += 1;
    }
    best
}

/// Records ordered newest first by creation time.
pub open spec fn sorted_by_created_desc(s: Seq<WorkspaceMetadataView>) -> bool {
    forall|a: int, b: int| 0 <= a <= b < s.len() ==> s[a].created_at >= s[b].created_at
}

/// The index of a record with the latest creation time.
fn argmax_created(v: &Vec<WorkspaceMetadata>) -> (r: usize)
    requires
        v@.len() > 0,
    ensures
        r < v@.len(),
        forall|j: int|
            0 <= j < v@.len() ==> (#[trigger] v@[j])@.created_at <= v@[r as int]@.created_at,
{
    let mut best: usize = 0;
    let mut i: usize = 1;
    while i < v.len()
        invariant
            0 <= best < i <= v@.len(),
            forall|j: int|
                0 <= j < i ==> (#[trigger] v@[j])@.created_at <= v@[best as int]@.created_at,
        decreases v@.len() - i,
    {
        if v[i].created_at > v[best].created_at {
            best = i;
        }
        i += 1;
    }
    best
}

/// Keeps the first occurrence of each tag, preserving membership.
fn dedup_tags(v: &Vec<String>) -> (r: Vec<String>)
    ensures
        nodup_seq(strings_view(r@)),
        forall|x: Seq<char>|
            text::spec_contains_string(r@, x) <==> text::spec_contains_string(v@, x),
{
    let mut r: Vec<String> = Vec::new();
    let mut i: usize = 0;
    while i < v.len()
        invariant
            0 <= i <= v@.len(),
            nodup_seq(strings_view(r@)),
            forall|x: Seq<char>|
                text::spec_contains_string(r@, x) <==> text::spec_contains_string(
                    v@.take(i as int),
                    x,
                ),
        decreases v@.len() - i,
    {
        let present = text::contains_string(&r, &v[i]);
        proof {
            assert(v@.take(i + 1).drop_last() =~= v@.take(i as int));
            assert(v@.take(i + 1).last() == v@[i as int]);
            assert forall|x: Seq<char>|
                text::spec_contains_string(v@.take(i + 1), x) implies (text::spec_contains_string(
                v@.take(i as int),
                x,
            ) || x == v@[i as int]@) by {
                let k = choose|k: int|
                    0 <= k < v@.take(i + 1).len() && (#[trigger] v@.take(i + 1)[k])@ == x;
                if k < i {
                    assert(v@.take(i as int)[k]@ == x);
                }
            }
        }
        if !present {
            let ghost before = r@;
            let c = v[i].clone();
            r.push(c);
            proof {
                assert(r@ == before.push(c));
                assert forall|a: int, b: int|
                    0 <= a < b < strings_view(r@).len() implies strings_view(r@)[a]
                    != strings_view(r@)[b] by {
                    if b < before.len() {
                        assert(strings_view(before)[a] != strings_view(before)[b]);
                    } else {
                        assert(r@[b]@ == v@[i as int]@);
                        assert(!text::spec_contains_string(before, v@[i as int]@));
                        assert(before[a]@ != v@[i as int]@);
                    }
                }
                assert forall|x: Seq<char>|
                    text::spec_contains_string(r@, x) implies text::spec_contains_string(
                    v@.take(i + 1),
                    x,
                ) by {
                    let k = choose|k: int| 0 <= k < r@.len() && r@[k]@ == x;
                    if k < before.len() {
                        assert(text::spec_contains_string(before, x));
                        let k2 = choose|k2: int| 0 <= k2 < i && v@.take(i as int)[k2]@ == x;
                        assert(v@.take(i + 1)[k2]@ == x);
                    } else {
                        assert(v@.take(i + 1)[i as int]@ == x);
                    }
                }
                assert forall|x: Seq<char>|
                    text::spec_contains_string(v@.take(i + 1), x) implies text::spec_contains_string(
                    r@,
                    x,
                ) by {
                    if text::spec_contains_string(v@.take(i as int), x) {
                        assert(text::spec_contains_string(before, x));
                        let k = choose|k: int| 0 <= k < before.len() && before[k]@ == x;
                        assert(r@[k] == before[k]);
                        assert(r@[k]@ == x);
                    } else {
                        assert(x == v@[i as int]@);
                        assert(r@[before.len() as int]@ == x);
                    }
                }
            }
        } else {
            proof {
                assert forall|x: Seq<char>|
                    text::spec_contains_string(v@.take(i + 1), x) implies text::spec_contains_string(
                    r@,
                    x,
                ) by {
                    if !text::spec_contains_string(v@.take(i as int), x) {
                        assert(x == v@[i as int]@);
                    }
                }
                assert forall|x: Seq<char>|
                    text::spec_contains_string(r@, x) implies text::spec_contains_string(
                    v@.take(i + 1),
                    x,
                ) by {
                    assert(text::spec_contains_string(v@.take(i as int), x));
                    let k2 = choose|k2: int| 0 <= k2 < i && v@.take(i as int)[k2]@ == x;
                    assert(v@.take(i + 1)[k2]@ == x);
                }
            }
        }
        i += 1;
    }
    proof {
        assert(v@.take(v@.len() as int) =~= v@);
    }
    r
}

} // verus!
