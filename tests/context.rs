use bb_cli::config::{Profile, ProjectContext};
use bb_cli::context::{
    first_present, parse_repo_override, resolve_coordinates, resolve_remote_name, ContextError,
    RepoCoordinates,
};

fn local() -> ProjectContext {
    ProjectContext {
        workspace: Some("local_ws".to_string()),
        repository: Some("local_repo".to_string()),
        remote: Some("upstream".to_string()),
    }
}

fn git() -> (String, String) {
    ("git_ws".to_string(), "git_repo".to_string())
}

fn profile() -> Profile {
    Profile { workspace: Some("profile_ws".to_string()), ..Default::default() }
}

#[test]
fn override_with_one_slash_wins() {
    let l = local();
    let g = git();
    let p = profile();
    let c = resolve_coordinates(Some("ws/repo"), Some(&l), Some(&g), Some(&p));
    assert_eq!(c.workspace.as_deref(), Some("ws"));
    assert_eq!(c.repository.as_deref(), Some("repo"));
    let c = resolve_coordinates(Some("ws/repo"), None, None, None);
    assert_eq!(c.require(), Ok(("ws".to_string(), "repo".to_string())));
}

#[test]
fn override_without_slash_names_repository_only() {
    let g = git();
    let p = profile();
    let c = resolve_coordinates(Some("solo"), None, Some(&g), Some(&p));
    assert_eq!(c.workspace.as_deref(), Some("git_ws"));
    assert_eq!(c.repository.as_deref(), Some("solo"));
}

#[test]
fn malformed_override_falls_through() {
    let l = local();
    let c = resolve_coordinates(Some("a/b/c"), Some(&l), None, None);
    assert_eq!(c.workspace.as_deref(), Some("local_ws"));
    assert_eq!(c.repository.as_deref(), Some("local_repo"));
    let c = resolve_coordinates(Some("a/b/c"), None, None, None);
    assert_eq!(c.require(), Err(ContextError::NoRepository));
    assert_eq!(parse_repo_override("a/b/c"), None);
    assert_eq!(parse_repo_override("a/b"), Some((Some("a".to_string()), "b".to_string())));
    assert_eq!(parse_repo_override("b"), Some((None, "b".to_string())));
}

#[test]
fn sources_in_order_without_override() {
    let g = git();
    let p = profile();
    let c = resolve_coordinates(None, None, Some(&g), Some(&p));
    assert_eq!(c.workspace.as_deref(), Some("git_ws"));
    assert_eq!(c.repository.as_deref(), Some("git_repo"));
    let c = resolve_coordinates(None, None, None, Some(&p));
    assert_eq!(c.workspace.as_deref(), Some("profile_ws"));
    assert_eq!(c.repository, None);
    assert_eq!(c.require(), Err(ContextError::NoRepository));
    let only_repo = RepoCoordinates { workspace: None, repository: Some("r".to_string()) };
    assert_eq!(only_repo.require(), Err(ContextError::NoWorkspace));
}

#[test]
fn remote_name_resolution() {
    let l = local();
    assert_eq!(resolve_remote_name(Some("fork"), Some(&l)), "fork");
    assert_eq!(resolve_remote_name(None, Some(&l)), "upstream");
    assert_eq!(resolve_remote_name(None, None), "origin");
}

#[test]
fn first_present_picks_first() {
    assert_eq!(first_present(vec![None, Some("b".to_string()), Some("c".to_string())]), Some("b".to_string()));
    assert_eq!(first_present(vec![None, None]), None);
}
