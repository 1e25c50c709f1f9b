//! Project-level sync configuration: which shared paths map to which
//! project paths, the managed packages, and the global settings. The
//! shell loads and saves the file; the lookups are here.

use vstd::prelude::*;
use crate::text::str_eq;

verus! {

/// One path mapping between the shared resources and the project.
#[derive(Debug, Clone)]
pub struct Mapping {
    /// Path in the shared resources.
    pub shared: String,
    /// Path in the project.
    pub project: String,
    /// Patterns excluded from this mapping.
    pub exclude: Vec<String>,
}

/// The mappings of one package.
#[derive(Debug, Clone)]
pub struct PackageSettings {
    pub mappings: Vec<Mapping>,
}

/// The packages of one project, by name.
#[derive(Debug, Clone)]
pub struct ProjectSettings {
    pub packages: Vec<(String, PackageSettings)>,
}

/// Per-project settings, by project name.
#[derive(Debug, Clone)]
pub struct WorkspaceSettings {
    pub projects: Vec<(String, ProjectSettings)>,
}

/// One managed shared package.
#[derive(Debug, Clone)]
pub struct ManagedPackage {
    pub name: String,
    /// Package kind, such as "cursor-rules" or "generic".
    pub package_type: Option<String>,
    pub enabled: bool,
    pub description: Option<String>,
    /// Location inside the shared resources.
    pub location: String,
    pub git_remote: Option<String>,
}

/// Settings that apply to every sync operation.
#[derive(Debug, Clone)]
pub struct GlobalSettings {
    /// "both", "to_project", or "to_shared".
    pub sync_direction: Option<String>,
    pub conflict_resolution: Option<String>,
    /// Seconds between automatic checks; zero disables them.
    pub auto_check_interval: Option<u64>,
    pub show_changelog: Option<bool>,
    pub continue_on_error: Option<bool>,
    pub auto_init_repo: Option<bool>,
}

/// The project configuration.
#[derive(Debug, Clone)]
pub struct ProjectConfig {
    pub workspace_settings: WorkspaceSettings,
    pub managed_packages: Vec<ManagedPackage>,
    pub global_settings: GlobalSettings,
}

impl Default for ProjectConfig {
    /// No projects, no packages, no overrides.
    fn default() -> (r: ProjectConfig)
        ensures
            r.workspace_settings.projects@.len() == 0,
            r.managed_packages@.len() == 0,
    {
        ProjectConfig {
            workspace_settings: WorkspaceSettings { projects: Vec::new() },
            managed_packages: Vec::new(),
            global_settings: GlobalSettings {
                sync_direction: None,
                conflict_resolution: None,
                auto_check_interval: None,
                show_changelog: None,
                continue_on_error: None,
                auto_init_repo: None,
            },
        }
    }
}

/// Copy a package record field by field.
fn clone_package(p: &ManagedPackage) -> (r: ManagedPackage)
    ensures
        r.name@ == p.name@,
        r.enabled == p.enabled,
        r.location@ == p.location@,
{
    ManagedPackage {
        name: p.name.clone(),
        package_type: match &p.package_type {
            Some(t) => Some(t.clone()),
            None => None,
        },
        enabled: p.enabled,
        description: match &p.description {
            Some(d) => Some(d.clone()),
            None => None,
        },
        location: p.location.clone(),
        git_remote: match &p.git_remote {
            Some(g) => Some(g.clone()),
            None => None,
        },
    }
}

/// A mapping reduced to its character sequences, so contracts survive
/// string cloning.
pub open spec fn mapping_view(m: Mapping) -> (Seq<char>, Seq<char>, Seq<Seq<char>>) {
    (m.shared@, m.project@, Seq::new(m.exclude@.len(), |k: int| m.exclude@[k]@))
}

/// The views of a mapping list.
pub open spec fn mapping_views(ms: Seq<Mapping>) -> Seq<(Seq<char>, Seq<char>, Seq<Seq<char>>)> {
    Seq::new(ms.len(), |k: int| mapping_view(ms[k]))
}

/// The mappings of every listed package, in file order.
pub open spec fn packages_mapping_views(packages: Seq<(String, PackageSettings)>) -> Seq<
    (Seq<char>, Seq<char>, Seq<Seq<char>>),
>
    decreases packages.len(),
{
    if packages.len() == 0 {
        Seq::<(Seq<char>, Seq<char>, Seq<Seq<char>>)>::empty()
    } else {
        packages_mapping_views(packages.drop_last()) + mapping_views(
            packages.last().1.mappings@,
        )
    }
}

/// The index of the first project with the given name, or -1.
pub open spec fn find_project(projects: Seq<(String, ProjectSettings)>, name: Seq<char>) -> int
    decreases projects.len(),
{
    if projects.len() == 0 {
        -1
    } else if projects[0].0@ == name {
        0
    } else {
        let r = find_project(projects.skip(1), name);
        if r == -1 {
            -1
        } else {
            r + 1
        }
    }
}

proof fn lemma_find_project_at(projects: Seq<(String, ProjectSettings)>, name: Seq<char>, k: int)
    requires
        0 <= k <= projects.len(),
        forall|q: int| 0 <= q < k ==> (#[trigger] projects[q]).0@ != name,
        k == projects.len() || projects[k].0@ == name,
    ensures
        k < projects.len() ==> find_project(projects, name) == k,
        k == projects.len() ==> find_project(projects, name) == -1,
    decreases k, projects.len(),
{
    if projects.len() == 0 {
    } else if k == 0 {
    } else {
        assert(forall|q: int|
            0 <= q < k - 1 ==> #[trigger] projects.skip(1)[q] == projects[q + 1]);
        lemma_find_project_at(projects.skip(1), name, k - 1);
    }
}

/// Copy a string list element by element.
fn clone_strings(v: &Vec<String>) -> (r: Vec<String>)
    ensures
        r@.len() == v@.len(),
        forall|k: int| 0 <= k < v@.len() ==> (#[trigger] r@[k])@ == v@[k]@,
{
    let mut r: Vec<String> = Vec::new();
    let mut k: usize = 0;
    while k < v.len()
        invariant
            0 <= k <= v@.len(),
            r@.len() == k,
            forall|q: int| 0 <= q < k ==> (#[trigger] r@[q])@ == v@[q]@,
        decreases v@.len() - k,
    {
        r.push(v[k].clone());
        k += 1;
    }
    r
}

/// Copy a mapping field by field.
fn clone_mapping(m: &Mapping) -> (r: Mapping)
    ensures
        mapping_view(r) == mapping_view(*m),
{
    let r = Mapping {
        shared: m.shared.clone(),
        project: m.project.clone(),
        exclude: clone_strings(&m.exclude),
    };
    proof {
        assert(Seq::new(r.exclude@.len(), |k: int| r.exclude@[k]@) =~= Seq::new(
            m.exclude@.len(),
            |k: int| m.exclude@[k]@,
        ));
    }
    r
}

/// Copy a mapping list element by element.
fn clone_mappings(ms: &Vec<Mapping>) -> (r: Vec<Mapping>)
    ensures
        mapping_views(r@) == mapping_views(ms@),
{
    let mut r: Vec<Mapping> = Vec::new();
    let mut k: usize = 0;
    while k < ms.len()
        invariant
            0 <= k <= ms@.len(),
            r@.len() == k,
            forall|q: int| 0 <= q < k ==> mapping_view(#[trigger] r@[q]) == mapping_view(ms@[q]),
        decreases ms@.len() - k,
    {
        r.push(clone_mapping(&ms[k]));
        k += 1;
    }
    proof {
        assert(mapping_views(r@) =~= mapping_views(ms@));
    }
    r
}

/// A package with this name is enabled in the list.
pub open spec fn has_enabled_package(pkgs: Seq<ManagedPackage>, name: Seq<char>) -> bool {
    exists|k: int| 0 <= k < pkgs.len() && (#[trigger] pkgs[k]).name@ == name && pkgs[k].enabled
}

impl ProjectConfig {
    /// Every mapping of every package of the first project with the
    /// given name, in file order; no mappings when no project matches.
    pub fn get_project_mappings(&self, project_name: &str) -> (r: Vec<Mapping>)
        ensures
            find_project(self.workspace_settings.projects@, project_name@) == -1 ==> r@.len() == 0,
            find_project(self.workspace_settings.projects@, project_name@) >= 0 ==> mapping_views(
                r@,
            ) == packages_mapping_views(
                self.workspace_settings.projects@[find_project(
                    self.workspace_settings.projects@,
                    project_name@,
                )].1.packages@,
            ),
    {
        let ghost projects = self.workspace_settings.projects@;
        let mut r: Vec<Mapping> = Vec::new();
        let mut i: usize = 0;
        while i < self.workspace_settings.projects.len()
            invariant
                0 <= i <= projects.len(),
                projects == self.workspace_settings.projects@,
                r@.len() == 0,
                forall|q: int| 0 <= q < i ==> (#[trigger] projects[q]).0@ != project_name@,
            decreases projects.len() - i,
        {
            if str_eq(self.workspace_settings.projects[i].0.as_str(), project_name) {
                proof {
                    lemma_find_project_at(projects, project_name@, i as int);
                }
                let found = &self.workspace_settings.projects[i].1;
                let ghost packages = found.packages@;
                let mut j: usize = 0;
                proof {
                    assert(mapping_views(r@) =~= packages_mapping_views(packages.take(0)));
                }
                while j < found.packages.len()
                    invariant
                        0 <= j <= packages.len(),
                        packages == found.packages@,
                        mapping_views(r@) == packages_mapping_views(packages.take(j as int)),
                    decreases packages.len() - j,
                {
                    let ghost base = r@;
                    let mut part = clone_mappings(&found.packages[j].1.mappings);
                    let ghost part_v = part@;
                    r.append(&mut part);
                    j += 1;
                    proof {
                        assert(mapping_views(r@) =~= mapping_views(base) + mapping_views(part_v));
                        assert(packages.take(j as int).drop_last() =~= packages.take(j - 1));
                        assert(packages.take(j as int).last() == packages[j - 1]);
                        assert(mapping_views(r@) =~= packages_mapping_views(
                            packages.take(j as int),
                        ));
                    }
                }
                proof {
                    assert(packages.take(packages.len() as int) =~= packages);
                }
                return r;
            }
            i += 1;
        }
        proof {
            lemma_find_project_at(projects, project_name@, projects.len() as int);
        }
        r
    }

    /// The first enabled package with the given name.
    pub fn get_package(&self, name: &str) -> (r: Option<&ManagedPackage>)
        ensures
            r matches Some(p) ==> p.name@ == name@ && p.enabled,
            r is None ==> !has_enabled_package(self.managed_packages@, name@),
    {
        let mut k: usize = 0;
        while k < self.managed_packages.len()
            invariant
                0 <= k <= self.managed_packages@.len(),
                forall|q: int|
                    0 <= q < k ==> !((#[trigger] self.managed_packages@[q]).name@ == name@
                        && self.managed_packages@[q].enabled),
            decreases self.managed_packages@.len() - k,
        {
            if self.managed_packages[k].enabled && str_eq(
                self.managed_packages[k].name.as_str(),
                name,
            ) {
                return Some(&self.managed_packages[k]);
            }
            k += 1;
        }
        None
    }

    /// Every enabled package, in file order.
    pub fn enabled_packages(&self) -> (r: Vec<ManagedPackage>)
        ensures
            forall|k: int| 0 <= k < r@.len() ==> (#[trigger] r@[k]).enabled,
    {
        let mut r: Vec<ManagedPackage> = Vec::new();
        let mut k: usize = 0;
        while k < self.managed_packages.len()
            invariant
                0 <= k <= self.managed_packages@.len(),
                forall|q: int| 0 <= q < r@.len() ==> (#[trigger] r@[q]).enabled,
            decreases self.managed_packages@.len() - k,
        {
            if self.managed_packages[k].enabled {
                r.push(clone_package(&self.managed_packages[k]));
            }
            k += 1;
        }
        r
    }

    /// Resolve a shared path against the workspace: paths already under
    /// the shared-resources directory resolve from the workspace root,
    /// anything else from inside that directory.
    pub fn resolve_shared_path(&self, workspace_root: &str, shared_path: &str) -> (r: String)
        ensures
            crate::text::is_prefix_of(workspace_root@, r@),
    {
        let mut r = workspace_root.to_owned();
        proof {
            reveal_strlit("/");
            reveal_strlit("_shared-resources/");
            reveal_strlit("_shared-resources");
        }
        if crate::text::str_is_prefix("_shared-resources/", shared_path) {
            r.append("/");
            r.append(shared_path);
        } else {
            r.append("/");
            r.append("_shared-resources");
            r.append("/");
            r.append(shared_path);
        }
        proof {
            assert(r@.take(workspace_root@.len() as int) =~= workspace_root@);
        }
        r
    }

    /// Resolve a project path: always relative to the workspace root.
    pub fn resolve_project_path(&self, workspace_root: &str, project_path: &str) -> (r: String)
        ensures
            crate::text::is_prefix_of(workspace_root@, r@),
    {
        let mut r = workspace_root.to_owned();
        proof {
            reveal_strlit("/");
        }
        r.append("/");
        r.append(project_path);
        proof {
            assert(r@.take(workspace_root@.len() as int) =~= workspace_root@);
        }
        r
    }
}

} // verus!
