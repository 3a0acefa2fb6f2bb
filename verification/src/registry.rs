//! The Project and Workspace registry: which identity is where.
//!
//! A locator is mutable position information, never identity. Registering
//! is create-only: an identity that is already registered somewhere else is
//! a conflict, possibly a copy, and is rejected rather than silently
//! merged. Moving an existing identity takes an explicit update. A false
//! merge is more dangerous than a false split.

use vstd::prelude::*;

use crate::model::{ProjectId, WorkspaceId};
use crate::paths::{paths_agree, same_path};
use crate::text::{decimal, joined, same_text, wide_text, Chars};

verus! {

/// A registered Project: its stable identity and its current home.
#[derive(Debug, PartialEq, Eq)]
pub struct ProjectRegistryEntry {
    pub project_id: ProjectId,
    pub home_locator: String,
    pub created_at: String,
    pub updated_at: String,
}

impl Clone for ProjectRegistryEntry {
    fn clone(&self) -> (copy: Self)
        ensures
            copy == *self,
    {
        ProjectRegistryEntry {
            project_id: self.project_id,
            home_locator: self.home_locator.clone(),
            created_at: self.created_at.clone(),
            updated_at: self.updated_at.clone(),
        }
    }
}

/// A registered Workspace: its stable identity, its Project, and where it
/// is.
#[derive(Debug, PartialEq, Eq)]
pub struct WorkspaceRegistryEntry {
    pub workspace_id: WorkspaceId,
    pub project_id: ProjectId,
    pub locator: String,
    /// Whether this Workspace is its Project's home.
    pub is_project_home: bool,
    pub created_at: String,
    pub updated_at: String,
}

impl Clone for WorkspaceRegistryEntry {
    fn clone(&self) -> (copy: Self)
        ensures
            copy == *self,
    {
        WorkspaceRegistryEntry {
            workspace_id: self.workspace_id,
            project_id: self.project_id,
            locator: self.locator.clone(),
            is_project_home: self.is_project_home,
            created_at: self.created_at.clone(),
            updated_at: self.updated_at.clone(),
        }
    }
}

/// What is registered at a locator. A locator is no identity, so several
/// entries, or none, are an expected outcome.
#[derive(Debug, PartialEq, Eq)]
pub struct LocatorCandidates {
    pub projects: Vec<ProjectRegistryEntry>,
    pub workspaces: Vec<WorkspaceRegistryEntry>,
}

/// Failure registering or updating an entry.
#[derive(Debug, PartialEq, Eq)]
pub enum RegistryError {
    /// No such Project is registered.
    UnknownProject { project_id: ProjectId },
    /// No such Workspace is registered.
    UnknownWorkspace { workspace_id: WorkspaceId },
    /// The Project is already registered somewhere else.
    ProjectLocatorConflict {
        project_id: ProjectId,
        existing_locator: String,
        requested_locator: String,
    },
    /// The Workspace is already registered for another Project or somewhere
    /// else.
    WorkspaceIdentityConflict {
        workspace_id: WorkspaceId,
        existing_project_id: ProjectId,
        existing_locator: String,
        requested_project_id: ProjectId,
        requested_locator: String,
    },
}

/// What a failure is reported as.
pub open spec fn registry_words(error: RegistryError) -> Chars {
    match error {
        RegistryError::UnknownProject { project_id } => "no registry entry for project "@
            + decimal(project_id.value as int),
        RegistryError::UnknownWorkspace { workspace_id } => "no registry entry for workspace "@
            + decimal(workspace_id.value as int),
        RegistryError::ProjectLocatorConflict {
            project_id,
            existing_locator,
            requested_locator,
        } => "project "@ + decimal(project_id.value as int) + " is already registered at "@
            + existing_locator@ + " (requested "@ + requested_locator@ + ")"@,
        RegistryError::WorkspaceIdentityConflict {
            workspace_id,
            existing_project_id,
            existing_locator,
            requested_project_id,
            requested_locator,
        } => "workspace "@ + decimal(workspace_id.value as int)
            + " is already registered as project "@ + decimal(existing_project_id.value as int)
            + " at "@ + existing_locator@ + " (requested project "@ + decimal(
            requested_project_id.value as int,
        ) + " at "@ + requested_locator@ + ")"@,
    }
}

impl RegistryError {
    pub fn message(&self) -> (text: String)
        ensures
            text@ == registry_words(*self),
    {
        match self {
            RegistryError::UnknownProject { project_id } => joined(
                "no registry entry for project ",
                wide_text(project_id.value).as_str(),
            ),
            RegistryError::UnknownWorkspace { workspace_id } => joined(
                "no registry entry for workspace ",
                wide_text(workspace_id.value).as_str(),
            ),
            RegistryError::ProjectLocatorConflict {
                project_id,
                existing_locator,
                requested_locator,
            } => {
                let mut text = joined("project ", wide_text(project_id.value).as_str());
                text.append(" is already registered at ");
                text.append(existing_locator.as_str());
                text.append(" (requested ");
                text.append(requested_locator.as_str());
                text.append(")");
                text
            },
            RegistryError::WorkspaceIdentityConflict {
                workspace_id,
                existing_project_id,
                existing_locator,
                requested_project_id,
                requested_locator,
            } => {
                let mut text = joined("workspace ", wide_text(workspace_id.value).as_str());
                text.append(" is already registered as project ");
                text.append(wide_text(existing_project_id.value).as_str());
                text.append(" at ");
                text.append(existing_locator.as_str());
                text.append(" (requested project ");
                text.append(wide_text(requested_project_id.value).as_str());
                text.append(" at ");
                text.append(requested_locator.as_str());
                text.append(")");
                text
            },
        }
    }
}

/// The place of a Project in the table.
pub open spec fn project_at(
    projects: Seq<ProjectRegistryEntry>,
    project_id: ProjectId,
    at: int,
) -> bool {
    0 <= at < projects.len() && projects[at].project_id == project_id
}

/// The place of a Workspace in the table.
pub open spec fn workspace_at(
    workspaces: Seq<WorkspaceRegistryEntry>,
    workspace_id: WorkspaceId,
    at: int,
) -> bool {
    0 <= at < workspaces.len() && workspaces[at].workspace_id == workspace_id
}

pub open spec fn has_project(projects: Seq<ProjectRegistryEntry>, project_id: ProjectId) -> bool {
    exists|at: int| project_at(projects, project_id, at)
}

pub open spec fn has_workspace(
    workspaces: Seq<WorkspaceRegistryEntry>,
    workspace_id: WorkspaceId,
) -> bool {
    exists|at: int| workspace_at(workspaces, workspace_id, at)
}

/// The one entry of a registered Project.
pub open spec fn the_project(
    projects: Seq<ProjectRegistryEntry>,
    project_id: ProjectId,
) -> ProjectRegistryEntry {
    projects[choose|at: int| project_at(projects, project_id, at)]
}

/// The one entry of a registered Workspace.
pub open spec fn the_workspace(
    workspaces: Seq<WorkspaceRegistryEntry>,
    workspace_id: WorkspaceId,
) -> WorkspaceRegistryEntry {
    workspaces[choose|at: int| workspace_at(workspaces, workspace_id, at)]
}

/// Every identity is registered once.
pub open spec fn identities_unique(
    projects: Seq<ProjectRegistryEntry>,
    workspaces: Seq<WorkspaceRegistryEntry>,
) -> bool {
    &&& forall|i: int, j: int|
        0 <= i < projects.len() && 0 <= j < projects.len() && (#[trigger] projects[i]).project_id
            == (#[trigger] projects[j]).project_id ==> i == j
    &&& forall|i: int, j: int|
        0 <= i < workspaces.len() && 0 <= j < workspaces.len() && (#[trigger]
        workspaces[i]).workspace_id == (#[trigger] workspaces[j]).workspace_id ==> i == j
}

/// Every Workspace belongs to a registered Project.
pub open spec fn projects_known(
    projects: Seq<ProjectRegistryEntry>,
    workspaces: Seq<WorkspaceRegistryEntry>,
) -> bool {
    forall|i: int|
        0 <= i < workspaces.len() ==> has_project(projects, (#[trigger] workspaces[i]).project_id)
}

/// The Project and Workspace identity registry.
#[derive(Debug)]
pub struct GlobalRegistry {
    projects: Vec<ProjectRegistryEntry>,
    workspaces: Vec<WorkspaceRegistryEntry>,
}

impl GlobalRegistry {
    /// The registered Projects, in the order of registration.
    pub closed spec fn projects(&self) -> Seq<ProjectRegistryEntry> {
        self.projects@
    }

    /// The registered Workspaces, in the order of registration.
    pub closed spec fn workspaces(&self) -> Seq<WorkspaceRegistryEntry> {
        self.workspaces@
    }

    pub open spec fn wf(&self) -> bool {
        &&& identities_unique(self.projects(), self.workspaces())
        &&& projects_known(self.projects(), self.workspaces())
    }

    /// A registry with nothing in it.
    pub fn empty() -> (registry: Self)
        ensures
            registry.wf(),
            registry.projects().len() == 0,
            registry.workspaces().len() == 0,
    {
        GlobalRegistry { projects: Vec::new(), workspaces: Vec::new() }
    }

    /// A registry over stored entries, unless an identity occurs twice among
    /// them or a Workspace belongs to no registered Project.
    pub fn from_entries(
        projects: Vec<ProjectRegistryEntry>,
        workspaces: Vec<WorkspaceRegistryEntry>,
    ) -> (registry: Option<Self>)
        ensures
            registry is Some <==> identities_unique(projects@, workspaces@) && projects_known(
                projects@,
                workspaces@,
            ),
            registry matches Some(held) ==> held.wf() && held.projects() == projects@
                && held.workspaces() == workspaces@,
    {
        let mut at: usize = 0;
        while at < projects.len()
            invariant
                at <= projects@.len(),
                forall|i: int, j: int|
                    0 <= i < at && 0 <= j < at && (#[trigger] projects@[i]).project_id == (
                    #[trigger] projects@[j]).project_id ==> i == j,
            decreases projects@.len() - at,
        {
            let mut other: usize = 0;
            while other < at
                invariant
                    other <= at < projects@.len(),
                    forall|i: int|
                        0 <= i < other ==> (#[trigger] projects@[i]).project_id
                            != projects@[at as int].project_id,
                decreases at - other,
            {
                if projects[other].project_id == projects[at].project_id {
                    return None;
                }
                other = other + 1;
            }
            at = at + 1;
        }
        let registry = GlobalRegistry { projects, workspaces };
        let mut next: usize = 0;
        while next < registry.workspaces.len()
            invariant
                next <= registry.workspaces@.len(),
                registry.projects@ == projects@,
                registry.workspaces@ == workspaces@,
                forall|i: int, j: int|
                    0 <= i < next && 0 <= j < next && (#[trigger]
                    registry.workspaces@[i]).workspace_id == (#[trigger]
                    registry.workspaces@[j]).workspace_id ==> i == j,
                forall|i: int|
                    0 <= i < next ==> has_project(
                        registry.projects@,
                        (#[trigger] registry.workspaces@[i]).project_id,
                    ),
            decreases registry.workspaces@.len() - next,
        {
            let mut other: usize = 0;
            while other < next
                invariant
                    other <= next < registry.workspaces@.len(),
                    registry.workspaces@ == workspaces@,
                    forall|i: int|
                        0 <= i < other ==> (#[trigger] registry.workspaces@[i]).workspace_id
                            != registry.workspaces@[next as int].workspace_id,
                decreases next - other,
            {
                if registry.workspaces[other].workspace_id == registry.workspaces[next].workspace_id {
                    return None;
                }
                other = other + 1;
            }
            if registry.project_place(registry.workspaces[next].project_id).is_none() {
                return None;
            }
            next = next + 1;
        }
        Some(registry)
    }

    fn project_place(&self, project_id: ProjectId) -> (found: Option<usize>)
        ensures
            found is Some <==> has_project(self.projects(), project_id),
            found matches Some(at) ==> project_at(self.projects(), project_id, at as int),
    {
        let mut at: usize = 0;
        while at < self.projects.len()
            invariant
                at <= self.projects@.len(),
                forall|i: int| 0 <= i < at ==> !project_at(self.projects@, project_id, i),
            decreases self.projects@.len() - at,
        {
            if self.projects[at].project_id == project_id {
                assert(project_at(self.projects@, project_id, at as int));
                return Some(at);
            }
            at = at + 1;
        }
        None
    }

    fn workspace_place(&self, workspace_id: WorkspaceId) -> (found: Option<usize>)
        ensures
            found is Some <==> has_workspace(self.workspaces(), workspace_id),
            found matches Some(at) ==> workspace_at(self.workspaces(), workspace_id, at as int),
    {
        let mut at: usize = 0;
        while at < self.workspaces.len()
            invariant
                at <= self.workspaces@.len(),
                forall|i: int| 0 <= i < at ==> !workspace_at(self.workspaces@, workspace_id, i),
            decreases self.workspaces@.len() - at,
        {
            if self.workspaces[at].workspace_id == workspace_id {
                assert(workspace_at(self.workspaces@, workspace_id, at as int));
                return Some(at);
            }
            at = at + 1;
        }
        None
    }

    /// Register a new Project, or confirm an unchanged registration. A
    /// Project that is registered somewhere else is left where it is.
    pub fn register_project(
        &mut self,
        project_id: ProjectId,
        home_locator: &str,
        now: &str,
    ) -> (outcome: Result<ProjectRegistryEntry, RegistryError>)
        requires
            old(self).wf(),
        ensures
            final(self).wf(),
            final(self).workspaces() == old(self).workspaces(),
            has_project(old(self).projects(), project_id) ==> {
                let existing = the_project(old(self).projects(), project_id);
                &&& final(self).projects() == old(self).projects()
                &&& if same_path(existing.home_locator@, home_locator@) {
                    outcome == Ok::<ProjectRegistryEntry, RegistryError>(existing)
                } else {
                    &&& outcome is Err
                    &&& outcome->Err_0 matches RegistryError::ProjectLocatorConflict {
                        project_id: named,
                        existing_locator,
                        requested_locator,
                    }
                    &&& named == project_id
                    &&& existing_locator@ == existing.home_locator@
                    &&& requested_locator@ == home_locator@
                }
            },
            !has_project(old(self).projects(), project_id) ==> {
                &&& outcome matches Ok(entry)
                &&& entry.project_id == project_id
                &&& entry.home_locator@ == home_locator@
                &&& entry.created_at@ == now@
                &&& entry.updated_at@ == now@
                &&& final(self).projects() == old(self).projects().push(entry)
            },
    {
        if let Some(at) = self.project_place(project_id) {
            proof {
                let chosen = choose|i: int| project_at(self.projects(), project_id, i);
                assert(project_at(self.projects(), project_id, at as int));
                assert(self.projects()[chosen].project_id == self.projects()[at as int].project_id);
                assert(chosen == at);
            }
            if paths_agree(self.projects[at].home_locator.as_str(), home_locator) {
                return Ok(self.projects[at].clone());
            }
            return Err(
                RegistryError::ProjectLocatorConflict {
                    project_id,
                    existing_locator: self.projects[at].home_locator.clone(),
                    requested_locator: home_locator.to_owned(),
                },
            );
        }
        let entry = ProjectRegistryEntry {
            project_id,
            home_locator: home_locator.to_owned(),
            created_at: now.to_owned(),
            updated_at: now.to_owned(),
        };
        let stored = entry.clone();
        let ghost before = self.projects@;
        self.projects.push(stored);
        proof {
            assert forall|i: int, j: int|
                0 <= i < self.projects@.len() && 0 <= j < self.projects@.len() && (#[trigger]
                self.projects@[i]).project_id == (#[trigger]
                self.projects@[j]).project_id implies i == j by {
                if i < before.len() && j == before.len() {
                    assert(project_at(before, project_id, i));
                } else if j < before.len() && i == before.len() {
                    assert(project_at(before, project_id, j));
                } else if i < before.len() && j < before.len() {
                    assert(before[i].project_id == before[j].project_id);
                }
            }
            lemma_projects_stay_known(before, self.projects@, self.workspaces@);
        }
        Ok(entry)
    }

    /// Look up a Project by its stable identity.
    pub fn get_project(&self, project_id: ProjectId) -> (found: Option<ProjectRegistryEntry>)
        requires
            self.wf(),
        ensures
            found is Some <==> has_project(self.projects(), project_id),
            found matches Some(entry) ==> entry == the_project(self.projects(), project_id),
    {
        match self.project_place(project_id) {
            Some(at) => {
                proof {
                    let chosen = choose|i: int| project_at(self.projects(), project_id, i);
                    assert(self.projects()[chosen].project_id
                        == self.projects()[at as int].project_id);
                }
                Some(self.projects[at].clone())
            },
            None => None,
        }
    }

    /// Move a registered Project's home, keeping its identity.
    pub fn update_project_locator(
        &mut self,
        project_id: ProjectId,
        new_locator: &str,
        now: &str,
    ) -> (outcome: Result<ProjectRegistryEntry, RegistryError>)
        requires
            old(self).wf(),
        ensures
            final(self).wf(),
            final(self).workspaces() == old(self).workspaces(),
            !has_project(old(self).projects(), project_id) ==> {
                &&& outcome == Err::<ProjectRegistryEntry, RegistryError>(
                    RegistryError::UnknownProject { project_id },
                )
                &&& final(self).projects() == old(self).projects()
            },
            has_project(old(self).projects(), project_id) ==> {
                let existing = the_project(old(self).projects(), project_id);
                &&& outcome matches Ok(entry)
                &&& entry.project_id == project_id
                &&& entry.home_locator@ == new_locator@
                &&& entry.created_at == existing.created_at
                &&& entry.updated_at@ == now@
                &&& exists|at: int| #[trigger]
                    project_at(old(self).projects(), project_id, at) && final(self).projects()
                        == old(self).projects().update(at, entry)
            },
    {
        let at = match self.project_place(project_id) {
            Some(at) => at,
            None => {
                return Err(RegistryError::UnknownProject { project_id });
            },
        };
        let ghost before = self.projects@;
        proof {
            let chosen = choose|i: int| project_at(self.projects(), project_id, i);
            assert(self.projects()[chosen].project_id == self.projects()[at as int].project_id);
            assert(chosen == at);
        }
        let entry = ProjectRegistryEntry {
            project_id,
            home_locator: new_locator.to_owned(),
            created_at: self.projects[at].created_at.clone(),
            updated_at: now.to_owned(),
        };
        let stored = entry.clone();
        self.projects[at] = stored;
        proof {
            assert(self.projects@ =~= before.update(at as int, entry));
            assert forall|i: int|
                0 <= i < before.len() implies (#[trigger] self.projects@[i]).project_id
                == before[i].project_id by {}
            assert(project_at(before, project_id, at as int));
            assert forall|i: int, j: int|
                0 <= i < self.projects@.len() && 0 <= j < self.projects@.len() && (#[trigger]
                self.projects@[i]).project_id == (#[trigger]
                self.projects@[j]).project_id implies i == j by {
                assert(before[i].project_id == before[j].project_id);
            }
            lemma_projects_stay_known(before, self.projects@, self.workspaces@);
        }
        Ok(entry)
    }

    /// Register a new Workspace under a registered Project, or confirm an
    /// unchanged registration. The same Workspace found under another
    /// Project or at another place is never treated as a move.
    pub fn register_workspace(
        &mut self,
        workspace_id: WorkspaceId,
        project_id: ProjectId,
        locator: &str,
        is_project_home: bool,
        now: &str,
    ) -> (outcome: Result<WorkspaceRegistryEntry, RegistryError>)
        requires
            old(self).wf(),
        ensures
            final(self).wf(),
            final(self).projects() == old(self).projects(),
            !has_project(old(self).projects(), project_id) ==> {
                &&& outcome == Err::<WorkspaceRegistryEntry, RegistryError>(
                    RegistryError::UnknownProject { project_id },
                )
                &&& final(self).workspaces() == old(self).workspaces()
            },
            has_project(old(self).projects(), project_id) && has_workspace(
                old(self).workspaces(),
                workspace_id,
            ) ==> {
                let existing = the_workspace(old(self).workspaces(), workspace_id);
                &&& final(self).workspaces() == old(self).workspaces()
                &&& if existing.project_id == project_id && same_path(
                    existing.locator@,
                    locator@,
                ) {
                    outcome == Ok::<WorkspaceRegistryEntry, RegistryError>(existing)
                } else {
                    &&& outcome is Err
                    &&& outcome->Err_0 matches RegistryError::WorkspaceIdentityConflict {
                        workspace_id: named,
                        existing_project_id,
                        existing_locator,
                        requested_project_id,
                        requested_locator,
                    }
                    &&& named == workspace_id
                    &&& existing_project_id == existing.project_id
                    &&& existing_locator@ == existing.locator@
                    &&& requested_project_id == project_id
                    &&& requested_locator@ == locator@
                }
            },
            has_project(old(self).projects(), project_id) && !has_workspace(
                old(self).workspaces(),
                workspace_id,
            ) ==> {
                &&& outcome matches Ok(entry)
                &&& entry.workspace_id == workspace_id
                &&& entry.project_id == project_id
                &&& entry.locator@ == locator@
                &&& entry.is_project_home == is_project_home
                &&& entry.created_at@ == now@
                &&& entry.updated_at@ == now@
                &&& final(self).workspaces() == old(self).workspaces().push(entry)
            },
    {
        if self.project_place(project_id).is_none() {
            return Err(RegistryError::UnknownProject { project_id });
        }
        if let Some(at) = self.workspace_place(workspace_id) {
            proof {
                let chosen = choose|i: int| workspace_at(self.workspaces(), workspace_id, i);
                assert(self.workspaces()[chosen].workspace_id
                    == self.workspaces()[at as int].workspace_id);
                assert(chosen == at);
            }
            if self.workspaces[at].project_id == project_id && paths_agree(
                self.workspaces[at].locator.as_str(),
                locator,
            ) {
                return Ok(self.workspaces[at].clone());
            }
            return Err(
                RegistryError::WorkspaceIdentityConflict {
                    workspace_id,
                    existing_project_id: self.workspaces[at].project_id,
                    existing_locator: self.workspaces[at].locator.clone(),
                    requested_project_id: project_id,
                    requested_locator: locator.to_owned(),
                },
            );
        }
        let entry = WorkspaceRegistryEntry {
            workspace_id,
            project_id,
            locator: locator.to_owned(),
            is_project_home,
            created_at: now.to_owned(),
            updated_at: now.to_owned(),
        };
        let stored = entry.clone();
        let ghost before = self.workspaces@;
        self.workspaces.push(stored);
        proof {
            assert forall|i: int, j: int|
                0 <= i < self.workspaces@.len() && 0 <= j < self.workspaces@.len() && (#[trigger]
                self.workspaces@[i]).workspace_id == (#[trigger]
                self.workspaces@[j]).workspace_id implies i == j by {
                if i < before.len() && j == before.len() {
                    assert(workspace_at(before, workspace_id, i));
                } else if j < before.len() && i == before.len() {
                    assert(workspace_at(before, workspace_id, j));
                } else if i < before.len() && j < before.len() {
                    assert(before[i].workspace_id == before[j].workspace_id);
                }
            }
            assert forall|i: int| 0 <= i < self.workspaces@.len() implies has_project(
                self.projects@,
                (#[trigger] self.workspaces@[i]).project_id,
            ) by {
                if i < before.len() {
                    assert(has_project(self.projects@, before[i].project_id));
                }
            }
        }
        Ok(entry)
    }

    /// Look up a Workspace by its stable identity.
    pub fn get_workspace(&self, workspace_id: WorkspaceId) -> (found: Option<
        WorkspaceRegistryEntry,
    >)
        requires
            self.wf(),
        ensures
            found is Some <==> has_workspace(self.workspaces(), workspace_id),
            found matches Some(entry) ==> entry == the_workspace(self.workspaces(), workspace_id),
    {
        match self.workspace_place(workspace_id) {
            Some(at) => {
                proof {
                    let chosen = choose|i: int| workspace_at(self.workspaces(), workspace_id, i);
                    assert(self.workspaces()[chosen].workspace_id
                        == self.workspaces()[at as int].workspace_id);
                }
                Some(self.workspaces[at].clone())
            },
            None => None,
        }
    }

    /// Move a registered Workspace, keeping its identity.
    pub fn update_workspace_locator(
        &mut self,
        workspace_id: WorkspaceId,
        new_locator: &str,
        now: &str,
    ) -> (outcome: Result<WorkspaceRegistryEntry, RegistryError>)
        requires
            old(self).wf(),
        ensures
            final(self).wf(),
            final(self).projects() == old(self).projects(),
            !has_workspace(old(self).workspaces(), workspace_id) ==> {
                &&& outcome == Err::<WorkspaceRegistryEntry, RegistryError>(
                    RegistryError::UnknownWorkspace { workspace_id },
                )
                &&& final(self).workspaces() == old(self).workspaces()
            },
            has_workspace(old(self).workspaces(), workspace_id) ==> {
                let existing = the_workspace(old(self).workspaces(), workspace_id);
                &&& outcome matches Ok(entry)
                &&& entry.workspace_id == workspace_id
                &&& entry.project_id == existing.project_id
                &&& entry.locator@ == new_locator@
                &&& entry.is_project_home == existing.is_project_home
                &&& entry.created_at == existing.created_at
                &&& entry.updated_at@ == now@
                &&& exists|at: int| #[trigger]
                    workspace_at(old(self).workspaces(), workspace_id, at)
                        && final(self).workspaces() == old(self).workspaces().update(at, entry)
            },
    {
        let at = match self.workspace_place(workspace_id) {
            Some(at) => at,
            None => {
                return Err(RegistryError::UnknownWorkspace { workspace_id });
            },
        };
        let ghost before = self.workspaces@;
        proof {
            let chosen = choose|i: int| workspace_at(self.workspaces(), workspace_id, i);
            assert(self.workspaces()[chosen].workspace_id
                == self.workspaces()[at as int].workspace_id);
            assert(chosen == at);
        }
        let entry = WorkspaceRegistryEntry {
            workspace_id,
            project_id: self.workspaces[at].project_id,
            locator: new_locator.to_owned(),
            is_project_home: self.workspaces[at].is_project_home,
            created_at: self.workspaces[at].created_at.clone(),
            updated_at: now.to_owned(),
        };
        let stored = entry.clone();
        self.workspaces[at] = stored;
        proof {
            assert(self.workspaces@ =~= before.update(at as int, entry));
            assert(workspace_at(before, workspace_id, at as int));
            assert forall|i: int, j: int|
                0 <= i < self.workspaces@.len() && 0 <= j < self.workspaces@.len() && (#[trigger]
                self.workspaces@[i]).workspace_id == (#[trigger]
                self.workspaces@[j]).workspace_id implies i == j by {
                assert(before[i].workspace_id == before[j].workspace_id);
            }
            assert forall|i: int| 0 <= i < self.workspaces@.len() implies has_project(
                self.projects@,
                (#[trigger] self.workspaces@[i]).project_id,
            ) by {
                assert(has_project(self.projects@, before[i].project_id));
            }
        }
        Ok(entry)
    }

    /// Every registered Project and Workspace that currently points at
    /// `locator`.
    pub fn find_by_locator(&self, locator: &str) -> (found: LocatorCandidates)
        ensures
            found.projects@ == self.projects().filter(
                |entry: ProjectRegistryEntry| entry.home_locator@ == locator@,
            ),
            found.workspaces@ == self.workspaces().filter(
                |entry: WorkspaceRegistryEntry| entry.locator@ == locator@,
            ),
    {
        let ghost at_home = |entry: ProjectRegistryEntry| entry.home_locator@ == locator@;
        let ghost there = |entry: WorkspaceRegistryEntry| entry.locator@ == locator@;
        let mut projects: Vec<ProjectRegistryEntry> = Vec::new();
        let mut at: usize = 0;
        reveal_with_fuel(Seq::filter, 1);
        assert(projects@ =~= self.projects@.take(0).filter(at_home));
        while at < self.projects.len()
            invariant
                at <= self.projects@.len(),
                at_home == (|entry: ProjectRegistryEntry| entry.home_locator@ == locator@),
                projects@ == self.projects@.take(at as int).filter(at_home),
            decreases self.projects@.len() - at,
        {
            let entry = &self.projects[at];
            proof {
                assert(self.projects@.take(at + 1) =~= self.projects@.take(at as int).push(*entry));
                self.projects@.take(at as int).lemma_filter_push(*entry, at_home);
            }
            if same_text(entry.home_locator.as_str(), locator) {
                projects.push(entry.clone());
            }
            at = at + 1;
        }
        assert(self.projects@.take(at as int) =~= self.projects@);
        let mut workspaces: Vec<WorkspaceRegistryEntry> = Vec::new();
        let mut next: usize = 0;
        assert(workspaces@ =~= self.workspaces@.take(0).filter(there));
        while next < self.workspaces.len()
            invariant
                next <= self.workspaces@.len(),
                there == (|entry: WorkspaceRegistryEntry| entry.locator@ == locator@),
                workspaces@ == self.workspaces@.take(next as int).filter(there),
            decreases self.workspaces@.len() - next,
        {
            let entry = &self.workspaces[next];
            proof {
                assert(self.workspaces@.take(next + 1) =~= self.workspaces@.take(next as int).push(
                    *entry,
                ));
                self.workspaces@.take(next as int).lemma_filter_push(*entry, there);
            }
            if same_text(entry.locator.as_str(), locator) {
                workspaces.push(entry.clone());
            }
            next = next + 1;
        }
        assert(self.workspaces@.take(next as int) =~= self.workspaces@);
        LocatorCandidates { projects, workspaces }
    }
}

/// A registered Project is found as it was registered, so registering it
/// again at the same place confirms it, and every other Project is found
/// as before.
pub proof fn lemma_registered_project_is_found(
    projects: Seq<ProjectRegistryEntry>,
    entry: ProjectRegistryEntry,
    other: ProjectId,
)
    requires
        identities_unique(projects, Seq::empty()),
        !has_project(projects, entry.project_id),
    ensures
        has_project(projects.push(entry), entry.project_id),
        the_project(projects.push(entry), entry.project_id) == entry,
        same_path(entry.home_locator@, entry.home_locator@),
        other != entry.project_id ==> has_project(projects.push(entry), other) == has_project(
            projects,
            other,
        ),
        has_project(projects, other) ==> the_project(projects.push(entry), other) == the_project(
            projects,
            other,
        ),
{
    let after = projects.push(entry);
    assert(project_at(after, entry.project_id, projects.len() as int));
    let found = choose|at: int| project_at(after, entry.project_id, at);
    if found < projects.len() {
        assert(project_at(projects, entry.project_id, found));
    }
    if has_project(projects, other) {
        let at = choose|at: int| project_at(projects, other, at);
        assert(project_at(after, other, at));
        let now = choose|at: int| project_at(after, other, at);
        assert(now < projects.len());
        assert(projects[now].project_id == projects[at].project_id);
    } else if has_project(after, other) {
        let now = choose|at: int| project_at(after, other, at);
        if now < projects.len() {
            assert(project_at(projects, other, now));
        }
    }
}

/// A registered Workspace is found as it was registered, and every other
/// Workspace is found as before.
pub proof fn lemma_registered_workspace_is_found(
    workspaces: Seq<WorkspaceRegistryEntry>,
    entry: WorkspaceRegistryEntry,
    other: WorkspaceId,
)
    requires
        identities_unique(Seq::empty(), workspaces),
        !has_workspace(workspaces, entry.workspace_id),
    ensures
        has_workspace(workspaces.push(entry), entry.workspace_id),
        the_workspace(workspaces.push(entry), entry.workspace_id) == entry,
        other != entry.workspace_id ==> has_workspace(workspaces.push(entry), other)
            == has_workspace(workspaces, other),
        has_workspace(workspaces, other) ==> the_workspace(workspaces.push(entry), other)
            == the_workspace(workspaces, other),
{
    let after = workspaces.push(entry);
    assert(workspace_at(after, entry.workspace_id, workspaces.len() as int));
    let found = choose|at: int| workspace_at(after, entry.workspace_id, at);
    if found < workspaces.len() {
        assert(workspace_at(workspaces, entry.workspace_id, found));
    }
    if has_workspace(workspaces, other) {
        let at = choose|at: int| workspace_at(workspaces, other, at);
        assert(workspace_at(after, other, at));
        let now = choose|at: int| workspace_at(after, other, at);
        assert(now < workspaces.len());
        assert(workspaces[now].workspace_id == workspaces[at].workspace_id);
    } else if has_workspace(after, other) {
        let now = choose|at: int| workspace_at(after, other, at);
        if now < workspaces.len() {
            assert(workspace_at(workspaces, other, now));
        }
    }
}

proof fn lemma_projects_stay_known(
    before: Seq<ProjectRegistryEntry>,
    after: Seq<ProjectRegistryEntry>,
    workspaces: Seq<WorkspaceRegistryEntry>,
)
    requires
        projects_known(before, workspaces),
        before.len() <= after.len(),
        forall|i: int|
            0 <= i < before.len() ==> (#[trigger] after[i]).project_id == before[i].project_id,
    ensures
        projects_known(after, workspaces),
{
    assert forall|i: int| 0 <= i < workspaces.len() implies has_project(
        after,
        (#[trigger] workspaces[i]).project_id,
    ) by {
        let id = workspaces[i].project_id;
        assert(has_project(before, id));
        let at = choose|at: int| project_at(before, id, at);
        assert(after[at].project_id == id);
        assert(project_at(after, id, at));
    }
}

} // verus!
