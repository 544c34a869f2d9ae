use tfc_var_export::client::{ApiError, HttpMethod};
use tfc_var_export::workspace::{
    get_projects, get_workspaces, projects_request, resolve_workspace_ids, workspaces_request,
    LIST_PAGE_SIZE,
};

const PROJECTS: &str = r#"{"data":[{"id":"prj-1","attributes":{"name":"Default"}},{"id":"prj-2","attributes":{"name":"Other"}}]}"#;

const WORKSPACES: &str = r#"{"data":[
  {"id":"ws-a","attributes":{"name":"alpha"},"relationships":{"project":{"data":{"id":"prj-2","type":"projects"}}}},
  {"id":"ws-b","attributes":{"name":"beta"},"relationships":{"project":{"data":{"id":"prj-1","type":"projects"}}}}
]}"#;

#[test]
fn listing_requests_ask_for_full_pages() {
    let p = projects_request("org");
    assert_eq!(p.method, HttpMethod::Get);
    assert_eq!(p.path, "/api/v2/organizations/org/projects");
    assert_eq!(p.page_size, Some(LIST_PAGE_SIZE));
    assert_eq!(workspaces_request("org").path, "/api/v2/organizations/org/workspaces");
}

#[test]
fn workspaces_are_joined_with_their_projects() {
    let projects = get_projects(200, PROJECTS).unwrap();
    assert_eq!(projects.len(), 2);
    let ws = get_workspaces(200, WORKSPACES, &projects).unwrap();
    assert_eq!(ws.len(), 2);
    assert_eq!(ws[0].get_workspace_id(), "ws-a");
    assert_eq!(ws[0].get_workspace_name(), "alpha");
    assert_eq!(ws[0].get_project().terraform_project_name, "Other");
    assert_eq!(ws[1].get_project().terraform_project_id, "prj-1");
}

#[test]
fn workspace_names_resolve_to_ids() {
    let projects = get_projects(200, PROJECTS).unwrap();
    let ws = get_workspaces(200, WORKSPACES, &projects).unwrap();
    assert_eq!(resolve_workspace_ids("beta,alpha", &ws), Ok(vec!["ws-b".to_string(), "ws-a".to_string()]));
    assert_eq!(resolve_workspace_ids("alpha,gamma", &ws), Err("gamma".to_string()));
}

#[test]
fn listing_errors() {
    assert_eq!(get_projects(500, PROJECTS), Err(ApiError::UnexpectedStatus(500)));
    assert_eq!(get_projects(200, r#"{"data":{}}"#), Err(ApiError::MalformedBody));
    let none = get_projects(200, r#"{"data":[]}"#).unwrap();
    assert_eq!(get_workspaces(200, WORKSPACES, &none), Err(ApiError::MalformedBody));
}
