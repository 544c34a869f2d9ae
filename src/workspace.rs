//! Finding workspaces by name: the project and workspace listings of an
//! organisation, joined on the project id that each workspace refers to.
use vstd::prelude::*;
use vstd::string::StringExecFns;
use crate::client::{ApiError, ApiRequest, HttpMethod};
use crate::codec::{lemma_array_model, models, parse_json_text};
use crate::export::char_strings;
use crate::json::parse_json;
use crate::text::{char_seqs, chars_of, split_chars, split_on, string_from};
use crate::value::{field, get_in, text, text_of, JsonValue, Value};

verus! {

broadcast use {vstd::std_specs::vec::group_vec_axioms, vstd::seq::group_seq_axioms};

/// Projects and workspaces are listed in pages of this many entries.
pub const LIST_PAGE_SIZE: u64 = 100;

pub open spec fn org_path(org: Seq<char>, tail: Seq<char>) -> Seq<char> {
    "/api/v2/organizations/"@ + org + tail
}

fn org_request(org: &str, tail: &str) -> (r: ApiRequest)
    ensures
        r.method == HttpMethod::Get,
        r.path@ == org_path(org@, tail@),
        r.page_size == Some(LIST_PAGE_SIZE),
        r.body is None,
{
    let mut path = String::from_str("/api/v2/organizations/");
    path.append(org);
    path.append(tail);
    ApiRequest { method: HttpMethod::Get, path, page_size: Some(LIST_PAGE_SIZE), body: None }
}

/// Lists the projects of an organisation.
pub fn projects_request(organization_name: &str) -> (r: ApiRequest)
    ensures
        r.method == HttpMethod::Get,
        r.path@ == org_path(organization_name@, "/projects"@),
        r.page_size == Some(LIST_PAGE_SIZE),
        r.body is None,
{
    org_request(organization_name, "/projects")
}

/// Lists the workspaces of an organisation.
pub fn workspaces_request(organization_name: &str) -> (r: ApiRequest)
    ensures
        r.method == HttpMethod::Get,
        r.path@ == org_path(organization_name@, "/workspaces"@),
        r.page_size == Some(LIST_PAGE_SIZE),
        r.body is None,
{
    org_request(organization_name, "/workspaces")
}

/// A project: its id and name.
#[derive(Debug, PartialEq, Eq)]
pub struct TerraformProject {
    pub terraform_project_id: String,
    pub terraform_project_name: String,
}

/// A workspace, with the project it belongs to.
#[derive(Debug, PartialEq, Eq)]
pub struct TerraformWorkspace {
    terraform_workspace_id: String,
    terraform_workspace_name: String,
    terraform_project: TerraformProject,
}

pub struct NamedModel {
    pub id: Seq<char>,
    pub name: Seq<char>,
}

pub struct WorkspaceModel {
    pub id: Seq<char>,
    pub name: Seq<char>,
    pub project: NamedModel,
}

impl TerraformProject {
    pub open spec fn model(&self) -> NamedModel {
        NamedModel { id: self.terraform_project_id@, name: self.terraform_project_name@ }
    }
}

impl TerraformWorkspace {
    pub closed spec fn model(&self) -> WorkspaceModel {
        WorkspaceModel {
            id: self.terraform_workspace_id@,
            name: self.terraform_workspace_name@,
            project: self.terraform_project.model(),
        }
    }

    pub fn new(
        terraform_workspace_id: String,
        terraform_workspace_name: String,
        terraform_project: TerraformProject,
    ) -> (r: Self)
        ensures
            r.model() == (WorkspaceModel {
                id: terraform_workspace_id@,
                name: terraform_workspace_name@,
                project: terraform_project.model(),
            }),
    {
        TerraformWorkspace { terraform_workspace_id, terraform_workspace_name, terraform_project }
    }

    pub fn get_workspace_id(&self) -> (r: &str)
        ensures
            r@ == self.model().id,
    {
        self.terraform_workspace_id.as_str()
    }

    pub fn get_workspace_name(&self) -> (r: &str)
        ensures
            r@ == self.model().name,
    {
        self.terraform_workspace_name.as_str()
    }

    pub fn get_project(&self) -> (r: &TerraformProject)
        ensures
            r.model() == self.model().project,
    {
        &self.terraform_project
    }
}

pub open spec fn project_models(ps: Seq<TerraformProject>) -> Seq<NamedModel> {
    Seq::new(ps.len(), |k: int| ps[k].model())
}

pub open spec fn workspace_models(ws: Seq<TerraformWorkspace>) -> Seq<WorkspaceModel> {
    Seq::new(ws.len(), |k: int| ws[k].model())
}

/// All the values, when none is missing.
pub open spec fn all_some<T>(s: Seq<Option<T>>) -> Option<Seq<T>>
    decreases s.len(),
{
    if s.len() == 0 {
        Some(Seq::empty())
    } else {
        match (all_some(s.drop_last()), s.last()) {
            (Some(prev), Some(x)) => Some(prev.push(x)),
            _ => None,
        }
    }
}

proof fn lemma_all_some_prefix<T>(s: Seq<Option<T>>, n: int)
    requires
        0 <= n <= s.len(),
        all_some(s.take(n)) is None,
    ensures
        all_some(s) is None,
    decreases s.len() - n,
{
    if n < s.len() {
        assert(s.take(n + 1).drop_last() =~= s.take(n));
        lemma_all_some_prefix(s, n + 1);
    } else {
        assert(s.take(n) =~= s);
    }
}

/// The items of the `data` array of a listing answer.
pub open spec fn listing_items(status: u16, body: Seq<char>) -> Result<Seq<JsonValue>, ApiError> {
    if status != 200 {
        Err(ApiError::UnexpectedStatus(status))
    } else {
        match field(parse_json(body), "data"@) {
            Some(JsonValue::Array(items)) => Ok(items),
            _ => Err(ApiError::MalformedBody),
        }
    }
}

fn data_items(doc: &Value) -> (r: Option<&Vec<Value>>)
    ensures
        match r {
            Some(items) => field(Some(doc.model()), "data"@) == Some(JsonValue::Array(models(items@))),
            None => !(field(Some(doc.model()), "data"@) matches Some(JsonValue::Array(_))),
        },
{
    match doc.get("data") {
        Some(Value::Array(items)) => {
            proof {
                lemma_array_model(*items);
            }
            Some(items)
        },
        Some(other) => {
            assert(!(other.model() is Array));
            None
        },
        None => None,
    }
}

pub open spec fn project_of(item: JsonValue) -> Option<NamedModel> {
    let it = Some(item);
    match (text(field(it, "id"@)), text(field(field(it, "attributes"@), "name"@))) {
        (Some(id), Some(name)) => Some(NamedModel { id, name }),
        _ => None,
    }
}

/// What an answer to the project listing means.
pub open spec fn projects_outcome(status: u16, body: Seq<char>) -> Result<Seq<NamedModel>, ApiError> {
    match listing_items(status, body) {
        Err(e) => Err(e),
        Ok(items) => match all_some(items.map_values(|i: JsonValue| project_of(i))) {
            Some(ps) => Ok(ps),
            None => Err(ApiError::MalformedBody),
        },
    }
}

/// The project that `id` names, first match.
pub open spec fn project_with_id(ps: Seq<NamedModel>, id: Seq<char>) -> Option<NamedModel>
    decreases ps.len(),
{
    if ps.len() == 0 {
        None
    } else if ps[0].id == id {
        Some(ps[0])
    } else {
        project_with_id(ps.drop_first(), id)
    }
}

pub open spec fn workspace_of(item: JsonValue, ps: Seq<NamedModel>) -> Option<WorkspaceModel> {
    let it = Some(item);
    let pid = text(field(field(field(field(it, "relationships"@), "project"@), "data"@), "id"@));
    match (text(field(it, "id"@)), text(field(field(it, "attributes"@), "name"@)), pid) {
        (Some(id), Some(name), Some(p)) => match project_with_id(ps, p) {
            Some(project) => Some(WorkspaceModel { id, name, project }),
            None => None,
        },
        _ => None,
    }
}

/// What an answer to the workspace listing means, given the projects.
pub open spec fn workspaces_outcome(status: u16, body: Seq<char>, ps: Seq<NamedModel>) -> Result<
    Seq<WorkspaceModel>,
    ApiError,
> {
    match listing_items(status, body) {
        Err(e) => Err(e),
        Ok(items) => match all_some(items.map_values(|i: JsonValue| workspace_of(i, ps))) {
            Some(ws) => Ok(ws),
            None => Err(ApiError::MalformedBody),
        },
    }
}

fn project_from(item: &Value) -> (r: Option<TerraformProject>)
    ensures
        match r {
            Some(p) => project_of(item.model()) == Some(p.model()),
            None => project_of(item.model()) is None,
        },
{
    let id = text_of(item.get("id"));
    let name = text_of(get_in(item.get("attributes"), "name"));
    match (id, name) {
        (Some(terraform_project_id), Some(terraform_project_name)) => Some(
            TerraformProject { terraform_project_id, terraform_project_name },
        ),
        _ => None,
    }
}

/// Reads the answer to the project listing.
pub fn get_projects(status: u16, body: &str) -> (r: Result<Vec<TerraformProject>, ApiError>)
    ensures
        match r {
            Ok(v) => projects_outcome(status, body@) == Ok::<Seq<NamedModel>, ApiError>(project_models(v@)),
            Err(e) => projects_outcome(status, body@) == Err::<Seq<NamedModel>, ApiError>(e),
        },
{
    if status != 200 {
        return Err(ApiError::UnexpectedStatus(status));
    }
    let doc = match parse_json_text(body) {
        Some(d) => d,
        None => {
            return Err(ApiError::MalformedBody);
        },
    };
    let items = match data_items(&doc) {
        Some(items) => items,
        None => {
            return Err(ApiError::MalformedBody);
        },
    };
    let ghost opts = models(items@).map_values(|i: JsonValue| project_of(i));
    let mut result: Vec<TerraformProject> = Vec::new();
    assert(project_models(result@) =~= Seq::empty());
    assert(opts.take(0) =~= Seq::<Option<NamedModel>>::empty());
    let mut k: usize = 0;
    while k < items.len()
        invariant
            k <= items@.len(),
            status == 200,
            listing_items(status, body@) == Ok::<Seq<JsonValue>, ApiError>(models(items@)),
            opts == models(items@).map_values(|i: JsonValue| project_of(i)),
            all_some(opts.take(k as int)) == Some(project_models(result@)),
        decreases items@.len() - k,
    {
        proof {
            assert(opts.take(k + 1).drop_last() =~= opts.take(k as int));
            assert(opts.take(k + 1).last() == project_of(items@[k as int].model()));
        }
        match project_from(&items[k]) {
            Some(p) => {
                let ghost before = result@;
                result.push(p);
                assert(result@ == before.push(p));
                assert(project_models(result@) =~= project_models(before).push(p.model()));
            },
            None => {
                proof {
                    lemma_all_some_prefix(opts, k + 1);
                }
                return Err(ApiError::MalformedBody);
            },
        }
        k = k + 1;
    }
    assert(opts.take(k as int) =~= opts);
    Ok(result)
}

fn find_project<'a>(projects: &'a Vec<TerraformProject>, id: &String) -> (r: Option<&'a TerraformProject>)
    ensures
        match r {
            Some(p) => project_with_id(project_models(projects@), id@) == Some(p.model()),
            None => project_with_id(project_models(projects@), id@) is None,
        },
{
    let ghost ps = project_models(projects@);
    assert(ps.subrange(0, ps.len() as int) =~= ps);
    let mut k: usize = 0;
    while k < projects.len()
        invariant
            k <= projects@.len(),
            ps == project_models(projects@),
            project_with_id(ps, id@) == project_with_id(ps.subrange(k as int, ps.len() as int), id@),
        decreases projects@.len() - k,
    {
        let ghost rest = ps.subrange(k as int, ps.len() as int);
        assert(rest.drop_first() =~= ps.subrange(k + 1, ps.len() as int));
        assert(rest[0] == projects@[k as int].model());
        if projects[k].terraform_project_id == *id {
            return Some(&projects[k]);
        }
        k = k + 1;
    }
    None
}

fn workspace_from(item: &Value, projects: &Vec<TerraformProject>) -> (r: Option<TerraformWorkspace>)
    ensures
        match r {
            Some(w) => workspace_of(item.model(), project_models(projects@)) == Some(w.model()),
            None => workspace_of(item.model(), project_models(projects@)) is None,
        },
{
    let id = text_of(item.get("id"));
    let name = text_of(get_in(item.get("attributes"), "name"));
    let pid = text_of(get_in(get_in(get_in(item.get("relationships"), "project"), "data"), "id"));
    match (id, name, pid) {
        (Some(terraform_workspace_id), Some(terraform_workspace_name), Some(p)) => {
            match find_project(projects, &p) {
                Some(project) => Some(
                    TerraformWorkspace {
                        terraform_workspace_id,
                        terraform_workspace_name,
                        terraform_project: TerraformProject {
                            terraform_project_id: project.terraform_project_id.clone(),
                            terraform_project_name: project.terraform_project_name.clone(),
                        },
                    },
                ),
                None => None,
            }
        },
        _ => None,
    }
}

/// Reads the answer to the workspace listing and attaches each workspace's
/// project.
pub fn get_workspaces(status: u16, body: &str, projects: &Vec<TerraformProject>) -> (r: Result<
    Vec<TerraformWorkspace>,
    ApiError,
>)
    ensures
        match r {
            Ok(v) => workspaces_outcome(status, body@, project_models(projects@)) == Ok::<
                Seq<WorkspaceModel>,
                ApiError,
            >(workspace_models(v@)),
            Err(e) => workspaces_outcome(status, body@, project_models(projects@)) == Err::<
                Seq<WorkspaceModel>,
                ApiError,
            >(e),
        },
{
    if status != 200 {
        return Err(ApiError::UnexpectedStatus(status));
    }
    let doc = match parse_json_text(body) {
        Some(d) => d,
        None => {
            return Err(ApiError::MalformedBody);
        },
    };
    let items = match data_items(&doc) {
        Some(items) => items,
        None => {
            return Err(ApiError::MalformedBody);
        },
    };
    let ghost ps = project_models(projects@);
    let ghost opts = models(items@).map_values(|i: JsonValue| workspace_of(i, ps));
    let mut result: Vec<TerraformWorkspace> = Vec::new();
    assert(workspace_models(result@) =~= Seq::empty());
    assert(opts.take(0) =~= Seq::<Option<WorkspaceModel>>::empty());
    let mut k: usize = 0;
    while k < items.len()
        invariant
            k <= items@.len(),
            status == 200,
            ps == project_models(projects@),
            listing_items(status, body@) == Ok::<Seq<JsonValue>, ApiError>(models(items@)),
            opts == models(items@).map_values(|i: JsonValue| workspace_of(i, ps)),
            all_some(opts.take(k as int)) == Some(workspace_models(result@)),
        decreases items@.len() - k,
    {
        proof {
            assert(opts.take(k + 1).drop_last() =~= opts.take(k as int));
            assert(opts.take(k + 1).last() == workspace_of(items@[k as int].model(), ps));
        }
        match workspace_from(&items[k], projects) {
            Some(w) => {
                let ghost before = result@;
                result.push(w);
                assert(result@ == before.push(w));
                assert(workspace_models(result@) =~= workspace_models(before).push(w.model()));
            },
            None => {
                proof {
                    lemma_all_some_prefix(opts, k + 1);
                }
                return Err(ApiError::MalformedBody);
            },
        }
        k = k + 1;
    }
    assert(opts.take(k as int) =~= opts);
    Ok(result)
}

/// The id of the first workspace named `name`.
pub open spec fn workspace_id_named(ws: Seq<WorkspaceModel>, name: Seq<char>) -> Option<Seq<char>>
    decreases ws.len(),
{
    if ws.len() == 0 {
        None
    } else if ws[0].name == name {
        Some(ws[0].id)
    } else {
        workspace_id_named(ws.drop_first(), name)
    }
}

/// The ids of the comma-separated workspace names, or the first name that
/// no workspace has.
pub open spec fn ids_outcome(names: Seq<Seq<char>>, ws: Seq<WorkspaceModel>) -> Result<Seq<Seq<char>>, Seq<char>>
    decreases names.len(),
{
    if names.len() == 0 {
        Ok(Seq::empty())
    } else {
        match ids_outcome(names.drop_last(), ws) {
            Err(n) => Err(n),
            Ok(ids) => match workspace_id_named(ws, names.last()) {
                Some(id) => Ok(ids.push(id)),
                None => Err(names.last()),
            },
        }
    }
}

proof fn lemma_ids_outcome_err(names: Seq<Seq<char>>, ws: Seq<WorkspaceModel>, n: int, x: Seq<char>)
    requires
        0 <= n <= names.len(),
        ids_outcome(names.take(n), ws) == Err::<Seq<Seq<char>>, Seq<char>>(x),
    ensures
        ids_outcome(names, ws) == Err::<Seq<Seq<char>>, Seq<char>>(x),
    decreases names.len() - n,
{
    if n < names.len() {
        assert(names.take(n + 1).drop_last() =~= names.take(n));
        lemma_ids_outcome_err(names, ws, n + 1, x);
    } else {
        assert(names.take(n) =~= names);
    }
}

fn find_workspace<'a>(workspaces: &'a Vec<TerraformWorkspace>, name: &Vec<char>) -> (r: Option<&'a str>)
    ensures
        match r {
            Some(id) => workspace_id_named(workspace_models(workspaces@), name@) == Some(id@),
            None => workspace_id_named(workspace_models(workspaces@), name@) is None,
        },
{
    let ghost ws = workspace_models(workspaces@);
    let wanted = string_from(name);
    assert(ws.subrange(0, ws.len() as int) =~= ws);
    let mut k: usize = 0;
    while k < workspaces.len()
        invariant
            k <= workspaces@.len(),
            ws == workspace_models(workspaces@),
            wanted@ == name@,
            workspace_id_named(ws, name@) == workspace_id_named(ws.subrange(k as int, ws.len() as int), name@),
        decreases workspaces@.len() - k,
    {
        let ghost rest = ws.subrange(k as int, ws.len() as int);
        assert(rest.drop_first() =~= ws.subrange(k + 1, ws.len() as int));
        assert(rest[0] == workspaces@[k as int].model());
        if crate::text::same_text(workspaces[k].get_workspace_name(), wanted.as_str()) {
            return Some(workspaces[k].get_workspace_id());
        }
        k = k + 1;
    }
    None
}

/// The ids of the workspaces named in `names`, a comma-separated list; the
/// error is the first name that no workspace has.
pub fn resolve_workspace_ids(names: &str, workspaces: &Vec<TerraformWorkspace>) -> (r: Result<Vec<String>, String>)
    ensures
        match r {
            Ok(ids) => ids_outcome(split_on(names@, ','), workspace_models(workspaces@)) == Ok::<
                Seq<Seq<char>>,
                Seq<char>,
            >(char_strings(ids@)),
            Err(n) => ids_outcome(split_on(names@, ','), workspace_models(workspaces@)) == Err::<
                Seq<Seq<char>>,
                Seq<char>,
            >(n@),
        },
{
    let cs = chars_of(names);
    let parts = split_chars(&cs, ',');
    let ghost ns = split_on(names@, ',');
    let ghost ws = workspace_models(workspaces@);
    let mut ids: Vec<String> = Vec::new();
    assert(char_strings(ids@) =~= Seq::empty());
    assert(ns.take(0) =~= Seq::<Seq<char>>::empty());
    let mut k: usize = 0;
    while k < parts.len()
        invariant
            k <= parts@.len(),
            char_seqs(parts@) == ns,
            ns == split_on(names@, ','),
            ws == workspace_models(workspaces@),
            ids_outcome(ns.take(k as int), ws) == Ok::<Seq<Seq<char>>, Seq<char>>(char_strings(ids@)),
        decreases parts@.len() - k,
    {
        proof {
            assert(ns.take(k + 1).drop_last() =~= ns.take(k as int));
            assert(ns.take(k + 1).last() == parts@[k as int]@);
        }
        match find_workspace(workspaces, &parts[k]) {
            Some(id) => {
                let id = String::from_str(id);
                let ghost before = ids@;
                ids.push(id);
                assert(ids@ == before.push(id));
                assert(char_strings(ids@) =~= char_strings(before).push(id@));
            },
            None => {
                proof {
                    lemma_ids_outcome_err(ns, ws, k + 1, parts@[k as int]@);
                }
                return Err(string_from(&parts[k]));
            },
        }
        k = k + 1;
    }
    assert(ns.take(k as int) =~= ns);
    Ok(ids)
}

} // verus!
