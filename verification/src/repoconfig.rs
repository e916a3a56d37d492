use vstd::prelude::*;

use crate::dict::StrDict;
use crate::errors::{ErrorKind, ServiceError};
use crate::text;
use crate::workspace::{nodup_seq, opt_str_view};

verus! {

/// One named script a repository offers.
#[derive(Debug)]
pub struct RepositoryScript {
    pub name: String,
    pub command: String,
    pub description: Option<String>,
    pub working_directory: Option<String>,
    pub env_vars: StrDict,
}

/// The mathematical content of one script entry.
pub ghost struct RepositoryScriptView {
    pub name: Seq<char>,
    pub command: Seq<char>,
    pub description: Option<Seq<char>>,
    pub working_directory: Option<Seq<char>>,
    pub env_vars: Map<Seq<char>, Seq<char>>,
}

impl View for RepositoryScript {
    type V = RepositoryScriptView;

    open spec fn view(&self) -> RepositoryScriptView {
        RepositoryScriptView {
            name: self.name@,
            command: self.command@,
            description: opt_str_view(self.description),
            working_directory: opt_str_view(self.working_directory),
            env_vars: self.env_vars@,
        }
    }
}

impl Clone for RepositoryScript {
    fn clone(&self) -> (r: Self)
        ensures
            r@ == self@,
            r.env_vars.wf() == self.env_vars.wf(),
    {
        RepositoryScript {
            name: self.name.clone(),
            command: self.command.clone(),
            description: match &self.description {
                Some(s) => Some(s.clone()),
                None => None,
            },
            working_directory: match &self.working_directory {
                Some(s) => Some(s.clone()),
                None => None,
            },
            env_vars: self.env_vars.clone(),
        }
    }
}

/// The per-repository settings and script definitions.
#[derive(Debug)]
pub struct RepositoryConfig {
    pub name: String,
    pub path: String,
    pub default_branch: Option<String>,
    pub workhorse_dir: String,
    pub created_at: u64,
    pub updated_at: u64,
    pub auto_fetch: bool,
    pub auto_prune: bool,
    pub scripts: Vec<RepositoryScript>,
}

/// The views of a list of script entries.
pub open spec fn scripts_view(s: Seq<RepositoryScript>) -> Seq<RepositoryScriptView> {
    s.map_values(|x: RepositoryScript| x@)
}

/// No two script entries share a name.
pub open spec fn script_names_unique(s: Seq<RepositoryScriptView>) -> bool {
    forall|i: int, j: int| 0 <= i < j < s.len() ==> s[i].name != s[j].name
}

/// A script with this name exists.
pub open spec fn has_script(s: Seq<RepositoryScriptView>, name: Seq<char>) -> bool {
    exists|i: int| 0 <= i < s.len() && s[i].name == name
}

/// The script entries with one name removed, order kept.
pub open spec fn scripts_without(
    s: Seq<RepositoryScriptView>,
    name: Seq<char>,
) -> Seq<RepositoryScriptView>
    decreases s.len(),
{
    if s.len() == 0 {
        s
    } else {
        let d = scripts_without(s.drop_last(), name);
        if s.last().name == name {
            d
        } else {
            d.push(s.last())
        }
    }
}

/// What removing a script does: exactly the other entries stay, in order,
/// and distinct names stay distinct.
proof fn lemma_scripts_without(s: Seq<RepositoryScriptView>, name: Seq<char>)
    ensures
        forall|x: RepositoryScriptView|
            scripts_without(s, name).contains(x) <==> (s.contains(x) && x.name != name),
        script_names_unique(s) ==> script_names_unique(scripts_without(s, name)),
        !has_script(s, name) ==> scripts_without(s, name) == s,
    decreases s.len(),
{
    if s.len() > 0 {
        let d = s.drop_last();
        lemma_scripts_without(d, name);
        assert forall|x: RepositoryScriptView| d.contains(x) implies s.contains(x) by {
            let k = choose|k: int| 0 <= k < d.len() && d[k] == x;
            assert(s[k] == x);
        }
        assert forall|x: RepositoryScriptView|
            s.contains(x) implies (d.contains(x) || x == s.last()) by {
            let k = choose|k: int| 0 <= k < s.len() && s[k] == x;
            if k < s.len() - 1 {
                assert(d[k] == x);
            }
        }
        let r = scripts_without(s, name);
        let rd = scripts_without(d, name);
        assert forall|x: RepositoryScriptView|
            r.contains(x) implies (s.contains(x) && x.name != name) by {
            if s.last().name == name {
                assert(rd.contains(x));
            } else {
                let k = choose|k: int| 0 <= k < r.len() && r[k] == x;
                if k < rd.len() {
                    assert(rd[k] == x);
                    assert(rd.contains(x));
                } else {
                    assert(x == s.last());
                }
            }
        }
        assert forall|x: RepositoryScriptView| s.contains(x) && x.name != name implies r.contains(
            x,
        ) by {
            if d.contains(x) {
                assert(rd.contains(x));
                let k = choose|k: int| 0 <= k < rd.len() && rd[k] == x;
                assert(r[k] == x);
            } else {
                assert(x == s.last());
                assert(r[r.len() - 1] == x);
            }
        }
        if script_names_unique(s) {
            assert forall|a: int, b: int| 0 <= a < b < d.len() implies d[a].name != d[b].name by {
                assert(d[a] == s[a]);
                assert(d[b] == s[b]);
            }
            if s.last().name != name {
                assert forall|a: int, b: int| 0 <= a < b < r.len() implies r[a].name
                    != r[b].name by {
                    if b < rd.len() {
                        assert(r[a] == rd[a]);
                        assert(r[b] == rd[b]);
                        assert(rd[a].name != rd[b].name);
                    } else {
                        assert(r[a] == rd[a]);
                        assert(rd.contains(rd[a]));
                        assert(d.contains(rd[a]));
                        assert(r[b] == s.last());
                        let k = choose|k: int| 0 <= k < d.len() && d[k] == rd[a];
                        assert(s[k] == rd[a]);
                        assert(s[k].name != s[s.len() - 1].name);
                    }
                }
            }
        }
        if !has_script(s, name) {
            assert(s[s.len() - 1].name != name);
            assert(!has_script(d, name)) by {
                if has_script(d, name) {
                    let k = choose|k: int| 0 <= k < d.len() && d[k].name == name;
                    assert(s[k].name == name);
                }
            }
            assert(r =~= s);
        }
    }
}

impl RepositoryConfig {
    /// Script names are pairwise distinct and every script's environment
    /// mapping is well formed.
    pub open spec fn wf(&self) -> bool {
        &&& script_names_unique(scripts_view(self.scripts@))
        &&& forall|i: int|
            0 <= i < self.scripts@.len() ==> (#[trigger] self.scripts@[i]).env_vars.wf()
    }
}

/// What the filesystem and the version-control backend say about a
/// repository path; probed by the caller right before the call that takes
/// it.
#[derive(Clone, Copy, Debug, PartialEq, Eq, Structural)]
pub struct RepoPathProbe {
    pub exists: bool,
    pub is_dir: bool,
    pub is_git_repository: bool,
    pub has_workhorse_dir: bool,
}

impl RepoPathProbe {
    /// A path that validation accepts.
    pub open spec fn valid(self) -> bool {
        self.exists && self.is_dir && self.is_git_repository
    }
}

/// What the filesystem says about a repository's management marker.
#[derive(Clone, Copy, Debug, PartialEq, Eq, Structural)]
pub struct ManagedProbe {
    pub workhorse_dir_exists: bool,
    pub config_file_exists: bool,
}

/// What validation reports about a repository path.
#[derive(Debug)]
pub struct RepositoryValidationResult {
    pub is_valid: bool,
    pub is_git_repo: bool,
    pub has_workhorse_dir: bool,
    pub path_exists: bool,
    pub error_message: Option<String>,
    pub warnings: Vec<String>,
}

/// What a caller asks for when putting a repository under management.
#[derive(Debug)]
pub struct AddRepositoryRequest {
    pub path: String,
    pub name: Option<String>,
    pub default_branch: Option<String>,
    pub auto_fetch: bool,
    pub auto_prune: bool,
}

/// Manages per-repository settings and script definitions. The records live
/// in memory here; the caller reads and writes their on-disk form and does
/// all directory work.
pub struct RepositoryManagerService {
    _private: bool,
}

impl RepositoryManagerService {
    /// A fresh manager.
    pub fn new() -> RepositoryManagerService {
        RepositoryManagerService { _private: false }
    }

    /// Judges a repository path from the probed facts: valid exactly when it
    /// exists, is a directory, and is a version-control repository. An
    /// existing management directory is reported and warned about, never an
    /// error.
    pub fn validate_repository(probe: RepoPathProbe) -> (r: RepositoryValidationResult)
        ensures
            r.is_valid == probe.valid(),
            r.path_exists == probe.exists,
            r.is_git_repo == (probe.exists && probe.is_dir && probe.is_git_repository),
            r.has_workhorse_dir == (probe.valid() && probe.has_workhorse_dir),
            r.error_message is Some <==> !probe.valid(),
            r.warnings@.len() == (if probe.valid() && probe.has_workhorse_dir {
                1int
            } else {
                0int
            }),
    {
        if !probe.exists {
            return RepositoryValidationResult {
                is_valid: false,
                is_git_repo: false,
                has_workhorse_dir: false,
                path_exists: false,
                error_message: Some(String::from_str("the path does not exist")),
                warnings: Vec::new(),
            };
        }
        if !probe.is_dir {
            return RepositoryValidationResult {
                is_valid: false,
                is_git_repo: false,
                has_workhorse_dir: false,
                path_exists: true,
                error_message: Some(String::from_str("the path is not a directory")),
                warnings: Vec::new(),
            };
        }
        if !probe.is_git_repository {
            return RepositoryValidationResult {
                is_valid: false,
                is_git_repo: false,
                has_workhorse_dir: false,
                path_exists: true,
                error_message: Some(String::from_str("the directory is not a repository")),
                warnings: Vec::new(),
            };
        }
        let mut warnings: Vec<String> = Vec::new();
        if probe.has_workhorse_dir {
            warnings.push(String::from_str(
                "the repository already holds a management directory",
            ));
        }
        RepositoryValidationResult {
            is_valid: true,
            is_git_repo: true,
            has_workhorse_dir: probe.has_workhorse_dir,
            path_exists: true,
            error_message: None,
            warnings,
        }
    }

    /// Whether a repository is under management: its management directory
    /// and its configuration file both exist.
    pub fn is_managed_repository(probe: ManagedProbe) -> (r: bool)
        ensures
            r == (probe.workhorse_dir_exists && probe.config_file_exists),
    {
        probe.workhorse_dir_exists && probe.config_file_exists
    }

    /// The management directory of a repository.
    pub fn get_workhorse_dir(repo_path: &str) -> (r: String)
        ensures
            r@ == repo_path@ + "/.workhorse"@,
    {
        let s = String::from_str(repo_path);
        s.concat("/.workhorse")
    }

    /// The directory holding one record file per workspace.
    pub fn get_workspaces_dir(repo_path: &str) -> (r: String)
        ensures
            r@ == repo_path@ + "/.workhorse/workspaces"@,
    {
        let s = String::from_str(repo_path);
        s.concat("/.workhorse/workspaces")
    }

    /// The directory holding configuration files.
    pub fn get_configs_dir(repo_path: &str) -> (r: String)
        ensures
            r@ == repo_path@ + "/.workhorse/configs"@,
    {
        let s = String::from_str(repo_path);
        s.concat("/.workhorse/configs")
    }

    /// The directory holding script files.
    pub fn get_scripts_dir(repo_path: &str) -> (r: String)
        ensures
            r@ == repo_path@ + "/.workhorse/scripts"@,
    {
        let s = String::from_str(repo_path);
        s.concat("/.workhorse/scripts")
    }

    /// The directory holding log files.
    pub fn get_logs_dir(repo_path: &str) -> (r: String)
        ensures
            r@ == repo_path@ + "/.workhorse/logs"@,
    {
        let s = String::from_str(repo_path);
        s.concat("/.workhorse/logs")
    }

    /// The directory holding temporary files.
    pub fn get_temp_dir(repo_path: &str) -> (r: String)
        ensures
            r@ == repo_path@ + "/.workhorse/temp"@,
    {
        let s = String::from_str(repo_path);
        s.concat("/.workhorse/temp")
    }

    /// Builds the configuration of a newly managed repository: validation
    /// must accept the path; the name falls back to the path's final
    /// component, or `repository` where the path has none; the default
    /// branch falls back to the branch the backend reports as current.
    pub fn add_repository(
        request: AddRepositoryRequest,
        probe: RepoPathProbe,
        current_branch: Option<String>,
        now_ms: u64,
    ) -> (r: Result<RepositoryConfig, ServiceError>)
        ensures
            r.is_ok() <==> probe.valid(),
            match r {
                Ok(c) => {
                    &&& c.wf()
                    &&& c.name@ == (match request.name {
                        Some(n) => n@,
                        None => if text::spec_has_filename(request.path@) {
                            text::spec_file_name(request.path@)
                        } else {
                            "repository"@
                        },
                    })
                    &&& c.path@ == request.path@
                    &&& opt_str_view(c.default_branch) == (match request.default_branch {
                        Some(b) => Some(b@),
                        None => opt_str_view(current_branch),
                    })
                    &&& c.workhorse_dir@ == request.path@ + "/.workhorse"@
                    &&& c.created_at == now_ms
                    &&& c.updated_at == now_ms
                    &&& c.auto_fetch == request.auto_fetch
                    &&& c.auto_prune == request.auto_prune
                    &&& c.scripts@.len() == 0
                },
                Err(e) => e.kind == ErrorKind::Validation,
            },
    {
        if !probe.exists || !probe.is_dir || !probe.is_git_repository {
            return Err(ServiceError::validation(String::from_str("repository validation failed")));
        }
        let workhorse_dir = Self::get_workhorse_dir(request.path.as_str());
        let name = match request.name {
            Some(n) => n,
            None => match text::split_path(request.path.as_str()) {
                Some((parent, fname)) => {
                    proof {
                        text::lemma_split_of_join(parent@, fname@);
                    }
                    fname
                },
                None => {
                    proof {
                        if request.path@.len() == 0 {
                        } else if request.path@[request.path@.len() - 1] == '/' {
                        } else {
                            text::lemma_no_slash(request.path@);
                        }
                    }
                    String::from_str("repository")
                },
            },
        };
        let default_branch = match request.default_branch {
            Some(b) => Some(b),
            None => current_branch,
        };
        Ok(RepositoryConfig {
            name,
            path: request.path,
            default_branch,
            workhorse_dir,
            created_at: now_ms,
            updated_at: now_ms,
            auto_fetch: request.auto_fetch,
            auto_prune: request.auto_prune,
            scripts: Vec::new(),
        })
    }

    /// Adds a script to the configuration; a duplicate name is rejected
    /// before anything changes.
    pub fn add_script(
        config: &mut RepositoryConfig,
        script: RepositoryScript,
        now_ms: u64,
    ) -> (r: Result<(), ServiceError>)
        requires
            old(config).wf(),
            script.env_vars.wf(),
        ensures
            final(config).wf(),
            r.is_ok() <==> !has_script(scripts_view(old(config).scripts@), script@.name),
            match r {
                Ok(_) => {
                    &&& scripts_view(final(config).scripts@) == scripts_view(
                        old(config).scripts@,
                    ).push(script@)
                    &&& final(config).updated_at == now_ms
                    &&& final(config).name@ == old(config).name@
                    &&& final(config).path@ == old(config).path@
                },
                Err(e) => *final(config) == *old(config) && e.kind == ErrorKind::Validation,
            },
    {
        let mut i: usize = 0;
        while i < config.scripts.len()
            invariant
                old(config).wf(),
                0 <= i <= config.scripts@.len(),
                *config == *old(config),
                forall|j: int|
                    0 <= j < i ==> (#[trigger] scripts_view(config.scripts@)[j]).name
                        != script@.name,
            decreases config.scripts@.len() - i,
        {
            if text::string_eq(&config.scripts[i].name, &script.name) {
                proof {
                    assert(scripts_view(config.scripts@)[i as int].name == script@.name);
                    assert(has_script(scripts_view(config.scripts@), script@.name));
                    assert(config.wf());
                }
                return Err(ServiceError::validation(String::from_str(
                    "a script with this name already exists",
                )));
            }
            i += 1;
        }
        proof {
            assert(!has_script(scripts_view(config.scripts@), script@.name)) by {
                if has_script(scripts_view(config.scripts@), script@.name) {
                    let k = choose|k: int|
                        0 <= k < scripts_view(config.scripts@).len() && scripts_view(
                            config.scripts@,
                        )[k].name == script@.name;
                    assert((#[trigger] scripts_view(config.scripts@)[k]).name != script@.name);
                }
            }
        }
        let ghost before = scripts_view(config.scripts@);
        let ghost sv = script@;
        config.scripts.push(script);
        config.updated_at = now_ms;
        proof {
            assert(scripts_view(config.scripts@) =~= before.push(sv));
            assert forall|a: int, b: int|
                0 <= a < b < scripts_view(config.scripts@).len() implies scripts_view(
                config.scripts@,
            )[a].name != scripts_view(config.scripts@)[b].name by {
                if b < before.len() {
                    assert(before[a].name != before[b].name);
                } else {
                    assert(scripts_view(config.scripts@)[b] == sv);
                    assert((#[trigger] before[a]).name != sv.name) by {
                        if before[a].name == sv.name {
                            assert(has_script(before, sv.name));
                        }
                    }
                }
            }
        }
        Ok(())
    }

    /// Removes a script by name; an unknown name is an error and nothing
    /// changes.
    pub fn remove_script(config: &mut RepositoryConfig, script_name: &str, now_ms: u64) -> (r:
        Result<(), ServiceError>)
        requires
            old(config).wf(),
        ensures
            final(config).wf(),
            r.is_ok() <==> has_script(scripts_view(old(config).scripts@), script_name@),
            match r {
                Ok(_) => {
                    &&& scripts_view(final(config).scripts@) == scripts_without(
                        scripts_view(old(config).scripts@),
                        script_name@,
                    )
                    &&& final(config).updated_at == now_ms
                    &&& final(config).name@ == old(config).name@
                    &&& final(config).path@ == old(config).path@
                },
                Err(e) => *final(config) == *old(config) && e.kind == ErrorKind::NotFound,
            },
    {
        let name = String::from_str(script_name);
        let mut found = false;
        let mut kept: Vec<RepositoryScript> = Vec::new();
        let n = config.scripts.len();
        let mut i: usize = 0;
        proof {
            assert(scripts_view(config.scripts@.take(0)) =~= Seq::empty());
        }
        while i < n
            invariant
                0 <= i <= n,
                *config == *old(config),
                name@ == script_name@,
                n == config.scripts@.len(),
                scripts_view(kept@) == scripts_without(
                    scripts_view(config.scripts@.take(i as int)),
                    script_name@,
                ),
                found == has_script(scripts_view(config.scripts@.take(i as int)), script_name@),
                forall|j: int| 0 <= j < kept@.len() ==> (#[trigger] kept@[j]).env_vars.wf(),
                forall|j: int|
                    0 <= j < config.scripts@.len() ==> (
                    #[trigger] config.scripts@[j]).env_vars.wf(),
            decreases n - i,
        {
            proof {
                assert(scripts_view(config.scripts@.take(i + 1)).drop_last() =~= scripts_view(
                    config.scripts@.take(i as int),
                ));
                assert(scripts_view(config.scripts@.take(i + 1)).last() == config.scripts@[
                    i as int]@);
                assert forall|x: Seq<char>|
                    has_script(scripts_view(config.scripts@.take(i + 1)), x) implies (has_script(
                    scripts_view(config.scripts@.take(i as int)),
                    x,
                ) || x == config.scripts@[i as int]@.name) by {
                    let k = choose|k: int|
                        0 <= k < scripts_view(config.scripts@.take(i + 1)).len() && (
                        #[trigger] scripts_view(config.scripts@.take(i + 1))[k]).name == x;
                    if k < i {
                        assert(scripts_view(config.scripts@.take(i as int))[k].name == x);
                    }
                }
            }
            if text::string_eq(&config.scripts[i].name, &name) {
                found = true;
                proof {
                    assert(scripts_view(config.scripts@.take(i + 1))[i as int].name
                        == script_name@);
                    assert(has_script(scripts_view(config.scripts@.take(i + 1)), script_name@));
                }
            } else {
                let ghost kbefore = kept@;
                let c = config.scripts[i].clone();
                kept.push(c);
                proof {
                    assert(kept@ == kbefore.push(c));
                    assert(scripts_view(kept@) =~= scripts_view(kbefore).push(config.scripts@[
                        i as int]@));
                    if has_script(scripts_view(config.scripts@.take(i + 1)), script_name@) {
                        assert(has_script(scripts_view(config.scripts@.take(i as int)), script_name@));
                    }
                }
            }
            i += 1;
        }
        proof {
            assert(config.scripts@.take(n as int) =~= config.scripts@);
            assert(scripts_view(config.scripts@.take(n as int)) =~= scripts_view(config.scripts@));
        }
        if !found {
            return Err(ServiceError::not_found(String::from_str("no script with this name")));
        }
        config.scripts = kept;
        config.updated_at = now_ms;
        proof {
            lemma_scripts_without(scripts_view(old(config).scripts@), script_name@);
            assert forall|a: int, b: int|
                0 <= a < b < scripts_view(config.scripts@).len() implies scripts_view(
                config.scripts@,
            )[a].name != scripts_view(config.scripts@)[b].name by {
                let r = scripts_view(config.scripts@);
                assert(r.contains(r[a]));
                assert(r.contains(r[b]));
            }
        }
        Ok(())
    }

    /// The scripts of a configuration.
    pub fn get_scripts(config: &RepositoryConfig) -> (r: Vec<RepositoryScript>)
        requires
            config.wf(),
        ensures
            scripts_view(r@) == scripts_view(config.scripts@),
            forall|i: int| 0 <= i < r@.len() ==> (#[trigger] r@[i]).env_vars.wf(),
    {
        let mut r: Vec<RepositoryScript> = Vec::new();
        let mut i: usize = 0;
        while i < config.scripts.len()
            invariant
                0 <= i <= config.scripts@.len(),
                r@.len() == i,
                forall|j: int| 0 <= j < i ==> #[trigger] r@[j]@ == config.scripts@[j]@,
                forall|j: int| 0 <= j < i ==> (#[trigger] r@[j]).env_vars.wf(),
                forall|j: int|
                    0 <= j < config.scripts@.len() ==> (
                    #[trigger] config.scripts@[j]).env_vars.wf(),
            decreases config.scripts@.len() - i,
        {
            let ghost before = r@;
            let c = config.scripts[i].clone();
            r.push(c);
            proof {
                assert(r@ == before.push(c));
            }
            i += 1;
        }
        proof {
            assert(scripts_view(r@) =~= scripts_view(config.scripts@));
        }
        r
    }
}

} // verus!
