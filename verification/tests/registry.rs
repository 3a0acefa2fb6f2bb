use brainprint_engine::model::{ProjectId, WorkspaceId};
use brainprint_engine::registry::{GlobalRegistry, RegistryError};

const NOW: &str = "2024-01-01T00:00:00Z";
const LATER: &str = "2024-02-02T00:00:00Z";

fn project(value: u128) -> ProjectId {
    ProjectId { value }
}

fn workspace(value: u128) -> WorkspaceId {
    WorkspaceId { value }
}

#[test]
fn project_registers_and_is_retrievable() {
    let mut registry = GlobalRegistry::empty();
    let project_id = project(1);
    let entry = registry
        .register_project(project_id, "/repo/main", NOW)
        .expect("new project should register");
    assert_eq!(entry.project_id, project_id);
    assert_eq!(entry.home_locator, "/repo/main");

    let fetched = registry
        .get_project(project_id)
        .expect("project should be found");
    assert_eq!(fetched, entry);
}

#[test]
fn workspace_registers_and_is_retrievable() {
    let mut registry = GlobalRegistry::empty();
    let project_id = project(1);
    let workspace_id = workspace(2);
    registry
        .register_project(project_id, "/repo/main", NOW)
        .expect("project should register");
    let entry = registry
        .register_workspace(workspace_id, project_id, "/repo/main", true, NOW)
        .expect("workspace should register");
    assert!(entry.is_project_home);

    let fetched = registry
        .get_workspace(workspace_id)
        .expect("workspace should be found");
    assert_eq!(fetched, entry);
}

#[test]
fn one_project_accepts_multiple_distinct_workspaces() {
    let mut registry = GlobalRegistry::empty();
    let project_id = project(1);
    registry
        .register_project(project_id, "/repo/main", NOW)
        .expect("project should register");

    let home_workspace = registry
        .register_workspace(workspace(2), project_id, "/repo/main", true, NOW)
        .expect("home workspace should register");
    let worktree_workspace = registry
        .register_workspace(workspace(3), project_id, "/repo/worktrees/feature-x", false, NOW)
        .expect("secondary worktree should register");

    assert_ne!(home_workspace.workspace_id, worktree_workspace.workspace_id);
    assert_eq!(home_workspace.project_id, worktree_workspace.project_id);
    assert!(home_workspace.is_project_home);
    assert!(!worktree_workspace.is_project_home);
}

#[test]
fn locator_update_preserves_identity() {
    let mut registry = GlobalRegistry::empty();
    let project_id = project(1);
    let workspace_id = workspace(2);
    registry
        .register_project(project_id, "/repo/main", NOW)
        .expect("project should register");
    registry
        .register_workspace(workspace_id, project_id, "/repo/main", true, NOW)
        .expect("workspace should register");

    let moved_project = registry
        .update_project_locator(project_id, "/repo/moved", LATER)
        .expect("project relocation should succeed");
    assert_eq!(moved_project.project_id, project_id);
    assert_eq!(moved_project.home_locator, "/repo/moved");
    assert_eq!(moved_project.created_at, NOW);
    assert_eq!(moved_project.updated_at, LATER);

    let moved_workspace = registry
        .update_workspace_locator(workspace_id, "/repo/moved", LATER)
        .expect("workspace relocation should succeed");
    assert_eq!(moved_workspace.workspace_id, workspace_id);
    assert_eq!(moved_workspace.locator, "/repo/moved");
}

#[test]
fn locator_lookup_returns_project_and_workspace_candidates() {
    let mut registry = GlobalRegistry::empty();
    let project_id = project(1);
    let workspace_id = workspace(2);
    registry
        .register_project(project_id, "/repo/main", NOW)
        .expect("project should register");
    registry
        .register_workspace(workspace_id, project_id, "/repo/main", true, NOW)
        .expect("workspace should register");

    let candidates = registry.find_by_locator("/repo/main");
    assert_eq!(candidates.projects.len(), 1);
    assert_eq!(candidates.projects[0].project_id, project_id);
    assert_eq!(candidates.workspaces.len(), 1);
    assert_eq!(candidates.workspaces[0].workspace_id, workspace_id);

    let empty = registry.find_by_locator("/nowhere");
    assert!(empty.projects.is_empty());
    assert!(empty.workspaces.is_empty());
}

#[test]
fn workspace_registration_rejects_unknown_project() {
    let mut registry = GlobalRegistry::empty();
    let unregistered_project = project(9);
    let error = registry
        .register_workspace(workspace(2), unregistered_project, "/repo/main", true, NOW)
        .expect_err("workspace under an unregistered project must be rejected");
    assert!(matches!(
        error,
        RegistryError::UnknownProject { project_id } if project_id == unregistered_project
    ));
}

#[test]
fn duplicate_project_registration_is_idempotent_for_matching_locator() {
    let mut registry = GlobalRegistry::empty();
    let project_id = project(1);
    let first = registry
        .register_project(project_id, "/repo/main", NOW)
        .expect("first register should succeed");
    let second = registry
        .register_project(project_id, "/repo/main", LATER)
        .expect("re-registering with the same locator should be idempotent");
    assert_eq!(first, second);
}

#[test]
fn duplicate_project_registration_with_new_locator_is_rejected() {
    let mut registry = GlobalRegistry::empty();
    let project_id = project(1);
    registry
        .register_project(project_id, "/repo/main", NOW)
        .expect("first register should succeed");
    let error = registry
        .register_project(project_id, "/repo/copy", NOW)
        .expect_err("re-registering with a different locator must be rejected, not merged");
    assert!(matches!(
        error,
        RegistryError::ProjectLocatorConflict { project_id: id, .. } if id == project_id
    ));
}

#[test]
fn duplicate_workspace_registration_with_new_locator_is_rejected() {
    let mut registry = GlobalRegistry::empty();
    let project_id = project(1);
    let workspace_id = workspace(2);
    registry
        .register_project(project_id, "/repo/main", NOW)
        .expect("project should register");
    registry
        .register_workspace(workspace_id, project_id, "/repo/main", true, NOW)
        .expect("first registration should succeed");
    let error = registry
        .register_workspace(workspace_id, project_id, "/repo/copy", true, NOW)
        .expect_err("same WorkspaceID at a different locator must never be silently merged");
    assert!(matches!(
        error,
        RegistryError::WorkspaceIdentityConflict { workspace_id: id, .. } if id == workspace_id
    ));

    // The original registration must remain unchanged.
    let unchanged = registry
        .get_workspace(workspace_id)
        .expect("workspace should still be registered");
    assert_eq!(unchanged.locator, "/repo/main");
}

#[test]
fn registry_survives_reopen() {
    let project_id = project(1);
    let workspace_id = workspace(2);
    let mut registry = GlobalRegistry::empty();
    let stored_project = registry
        .register_project(project_id, "/repo/main", NOW)
        .expect("project should register");
    let stored_workspace = registry
        .register_workspace(workspace_id, project_id, "/repo/main", true, NOW)
        .expect("workspace should register");
    drop(registry);

    let reopened = GlobalRegistry::from_entries(vec![stored_project], vec![stored_workspace])
        .expect("registry should reopen");
    let project = reopened
        .get_project(project_id)
        .expect("project should still be registered after reopen");
    let workspace = reopened
        .get_workspace(workspace_id)
        .expect("workspace should still be registered after reopen");
    assert_eq!(project.project_id, project_id);
    assert_eq!(workspace.workspace_id, workspace_id);
    assert_eq!(workspace.project_id, project_id);
}

#[test]
fn stored_entries_must_be_unique_and_belong_to_a_project() {
    let mut registry = GlobalRegistry::empty();
    let entry = registry
        .register_project(project(1), "/repo/main", NOW)
        .expect("project should register");
    let home = registry
        .register_workspace(workspace(2), project(1), "/repo/main", true, NOW)
        .expect("workspace should register");
    assert!(GlobalRegistry::from_entries(vec![entry.clone(), entry.clone()], vec![]).is_none());
    assert!(GlobalRegistry::from_entries(vec![], vec![home.clone()]).is_none());
    assert!(GlobalRegistry::from_entries(vec![entry], vec![home.clone(), home]).is_none());
}

#[test]
fn the_same_path_written_twice_is_the_same_locator() {
    let mut registry = GlobalRegistry::empty();
    let first = registry
        .register_project(project(1), "/repo/main", NOW)
        .expect("project should register");
    assert_eq!(registry.register_project(project(1), "/repo//main/", LATER), Ok(first));
}

#[test]
fn moving_an_unknown_identity_is_refused() {
    let mut registry = GlobalRegistry::empty();
    assert_eq!(
        registry.update_project_locator(project(1), "/a", NOW),
        Err(RegistryError::UnknownProject { project_id: project(1) })
    );
    assert_eq!(
        registry.update_workspace_locator(workspace(2), "/a", NOW),
        Err(RegistryError::UnknownWorkspace { workspace_id: workspace(2) })
    );
}

#[test]
fn a_workspace_keeps_its_project() {
    let mut registry = GlobalRegistry::empty();
    for id in [1, 2] {
        registry
            .register_project(project(id), "/repo/main", NOW)
            .expect("project should register");
    }
    registry
        .register_workspace(workspace(3), project(1), "/repo/main", true, NOW)
        .expect("workspace should register");
    let error = registry
        .register_workspace(workspace(3), project(2), "/repo/main", true, NOW)
        .expect_err("a Workspace belongs to one Project");
    assert_eq!(
        error.message(),
        "workspace 3 is already registered as project 1 at /repo/main \
         (requested project 2 at /repo/main)"
    );
}

#[test]
fn registry_errors_name_what_they_are_about() {
    assert_eq!(
        RegistryError::UnknownProject { project_id: project(7) }.message(),
        "no registry entry for project 7"
    );
    assert_eq!(
        RegistryError::UnknownWorkspace { workspace_id: workspace(8) }.message(),
        "no registry entry for workspace 8"
    );
    assert_eq!(
        RegistryError::ProjectLocatorConflict {
            project_id: project(7),
            existing_locator: "/a".to_owned(),
            requested_locator: "/b".to_owned(),
        }
        .message(),
        "project 7 is already registered at /a (requested /b)"
    );
}
