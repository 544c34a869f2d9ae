//! The requests sent to the workspace-variables endpoint and the reading of
//! its answers. Sending and receiving are left to the caller.
use vstd::prelude::*;
use vstd::string::StringExecFns;
use crate::codec::{
    classify, decode, decoding, encode, encoding, is_hcl, is_string, lemma_object_model,
    member_models, to_json,
};
use crate::json::{parse_json, render};
use crate::codec::parse_json_text;
use crate::value::{field, get_in, text, text_of, JsonValue, Value};

verus! {

/// A variable to be written to a workspace.
#[derive(Debug, PartialEq, Eq)]
pub struct TerraformVariableProperty {
    pub variable_id: Option<String>,
    pub variable_name: String,
    pub variable_description: Option<String>,
    pub value: Value,
}

pub open spec fn opt_text(o: Option<String>) -> Option<Seq<char>> {
    match o {
        Some(t) => Some(t@),
        None => None,
    }
}

pub struct PropModel {
    pub id: Option<Seq<char>>,
    pub name: Seq<char>,
    pub description: Option<Seq<char>>,
    pub value: JsonValue,
}

impl TerraformVariableProperty {
    pub open spec fn model(&self) -> PropModel {
        PropModel {
            id: opt_text(self.variable_id),
            name: self.variable_name@,
            description: opt_text(self.variable_description),
            value: self.value.model(),
        }
    }

    pub fn new(
        variable_id: Option<String>,
        variable_name: String,
        variable_description: Option<String>,
        value: Value,
    ) -> (r: Self)
        ensures
            r.variable_id == variable_id,
            r.variable_name == variable_name,
            r.variable_description == variable_description,
            r.value == value,
    {
        TerraformVariableProperty { variable_id, variable_name, variable_description, value }
    }
}

#[derive(Clone, Copy, Debug, PartialEq, Eq)]
pub enum HttpMethod {
    Get,
    Post,
    Patch,
    Delete,
}

#[derive(Debug, PartialEq, Eq)]
/// One call to the remote API: the path below the base URL, the page size
/// to ask for (the `page[size]` query parameter), and the JSON body.
pub struct ApiRequest {
    pub method: HttpMethod,
    pub path: String,
    pub page_size: Option<u64>,
    pub body: Option<String>,
}

/// Why an answer of the remote API could not be used.
#[derive(Clone, Copy, Debug, PartialEq, Eq)]
pub enum ApiError {
    /// The status was not the one the call expects.
    UnexpectedStatus(u16),
    /// The body is not JSON of the expected shape.
    MalformedBody,
    /// The stored value could not be read back.
    UndecodableValue,
}

pub open spec fn vars_path(workspace_id: Seq<char>) -> Seq<char> {
    "/api/v2/workspaces/"@ + workspace_id + "/vars"@
}

pub open spec fn var_path(workspace_id: Seq<char>, variable_id: Seq<char>) -> Seq<char> {
    vars_path(workspace_id) + "/"@ + variable_id
}

pub open spec fn description_text(d: Option<Seq<char>>) -> Seq<char> {
    match d {
        Some(t) => t,
        None => Seq::empty(),
    }
}

/// The attributes of a variable as the API stores them.
pub open spec fn attributes_of(name: Seq<char>, description: Option<Seq<char>>, value: JsonValue) -> JsonValue {
    JsonValue::Object(
        seq![
            ("key"@, JsonValue::Str(name)),
            ("value"@, JsonValue::Str(encoding(value))),
            ("description"@, JsonValue::Str(description_text(description))),
            ("category"@, JsonValue::Str("terraform"@)),
            ("hcl"@, JsonValue::Bool(is_hcl(value))),
        ],
    )
}

/// The JSON document sent to create (no id) or update (with id) a variable.
pub open spec fn payload_of(
    id: Option<Seq<char>>,
    name: Seq<char>,
    description: Option<Seq<char>>,
    value: JsonValue,
) -> JsonValue {
    let head: Seq<(Seq<char>, JsonValue)> = match id {
        Some(i) => seq![("id"@, JsonValue::Str(i))],
        None => Seq::empty(),
    };
    JsonValue::Object(
        seq![
            ("data"@, JsonValue::Object(
                head + seq![
                    ("type"@, JsonValue::Str("vars"@)),
                    ("attributes"@, attributes_of(name, description, value)),
                ],
            )),
        ],
    )
}

fn push_member(ms: &mut Vec<(String, Value)>, key: &str, v: Value)
    ensures
        member_models(final(ms)@) == member_models(old(ms)@).push((key@, v.model())),
{
    ms.push((String::from_str(key), v));
    assert(member_models(ms@) =~= member_models(old(ms)@).push((key@, v.model())));
}

fn object_of(ms: Vec<(String, Value)>) -> (r: Value)
    ensures
        r.model() == JsonValue::Object(member_models(ms@)),
{
    proof {
        lemma_object_model(ms);
    }
    Value::Object(ms)
}

/// The JSON body for a variable; with `id` for an update.
fn payload_body(id: Option<&String>, prop: &TerraformVariableProperty) -> (r: String)
    ensures
        r@ == render(
            payload_of(
                match id {
                    Some(i) => Some(i@),
                    None => None,
                },
                prop.variable_name@,
                opt_text(prop.variable_description),
                prop.value.model(),
            ),
        ),
{
    let class = classify(&prop.value);
    let description = match &prop.variable_description {
        Some(d) => d.clone(),
        None => String::new(),
    };
    let mut attributes: Vec<(String, Value)> = Vec::new();
    assert(member_models(attributes@) =~= Seq::empty());
    push_member(&mut attributes, "key", Value::Str(prop.variable_name.clone()));
    push_member(&mut attributes, "value", Value::Str(encode(&prop.value)));
    push_member(&mut attributes, "description", Value::Str(description));
    push_member(&mut attributes, "category", Value::Str(String::from_str("terraform")));
    push_member(&mut attributes, "hcl", Value::Bool(class.is_hcl()));
    let attributes = object_of(attributes);
    let ghost want_attributes = attributes_of(prop.variable_name@, opt_text(prop.variable_description), prop.value.model());
    assert(description_text(opt_text(prop.variable_description)) == description@);
    assert(attributes.model()->Object_0 =~= want_attributes->Object_0);
    assert(attributes.model() == want_attributes);
    let mut data: Vec<(String, Value)> = Vec::new();
    assert(member_models(data@) =~= Seq::empty());
    match id {
        Some(i) => push_member(&mut data, "id", Value::Str(i.clone())),
        None => {},
    }
    push_member(&mut data, "type", Value::Str(String::from_str("vars")));
    push_member(&mut data, "attributes", attributes);
    let data = object_of(data);
    let ghost idm = match id {
        Some(i) => Some(i@),
        None => None,
    };
    let ghost want = payload_of(idm, prop.variable_name@, opt_text(prop.variable_description), prop.value.model());
    assert(data.model()->Object_0 =~= want->Object_0[0].1->Object_0);
    assert(data.model() == want->Object_0[0].1);
    let mut doc: Vec<(String, Value)> = Vec::new();
    assert(member_models(doc@) =~= Seq::empty());
    push_member(&mut doc, "data", data);
    let doc = object_of(doc);
    assert(doc.model()->Object_0 =~= want->Object_0);
    to_json(&doc)
}

fn concat(a: &str, b: &str) -> (r: String)
    ensures
        r@ == a@ + b@,
{
    let mut r = String::from_str(a);
    r.append(b);
    r
}

/// Lists the variables of a workspace.
pub fn list_request(workspace_id: &str) -> (r: ApiRequest)
    ensures
        r.method == HttpMethod::Get,
        r.path@ == vars_path(workspace_id@),
        r.page_size is None,
        r.body is None,
{
    let mut path = concat("/api/v2/workspaces/", workspace_id);
    path.append("/vars");
    ApiRequest { method: HttpMethod::Get, path, page_size: None, body: None }
}

/// Creates a variable.
pub fn create_request(workspace_id: &str, prop: &TerraformVariableProperty) -> (r: ApiRequest)
    ensures
        r.method == HttpMethod::Post,
        r.path@ == vars_path(workspace_id@),
        r.page_size is None,
        r.body matches Some(b) && b@ == render(
            payload_of(None, prop.variable_name@, opt_text(prop.variable_description), prop.value.model()),
        ),
{
    let list = list_request(workspace_id);
    ApiRequest {
        method: HttpMethod::Post,
        path: list.path,
        page_size: None,
        body: Some(payload_body(None, prop)),
    }
}

/// Updates the variable `variable_id`.
pub fn update_request(workspace_id: &str, variable_id: &String, prop: &TerraformVariableProperty) -> (r: ApiRequest)
    ensures
        r.method == HttpMethod::Patch,
        r.path@ == var_path(workspace_id@, variable_id@),
        r.page_size is None,
        r.body matches Some(b) && b@ == render(
            payload_of(
                Some(variable_id@),
                prop.variable_name@,
                opt_text(prop.variable_description),
                prop.value.model(),
            ),
        ),
{
    let mut path = list_request(workspace_id).path;
    path.append("/");
    path.append(variable_id.as_str());
    ApiRequest {
        method: HttpMethod::Patch,
        path,
        page_size: None,
        body: Some(payload_body(Some(variable_id), prop)),
    }
}

/// Deletes the variable `variable_id`.
pub fn delete_request(workspace_id: &str, variable_id: &str) -> (r: ApiRequest)
    ensures
        r.method == HttpMethod::Delete,
        r.path@ == var_path(workspace_id@, variable_id@),
        r.page_size is None,
        r.body is None,
{
    let mut path = list_request(workspace_id).path;
    path.append("/");
    path.append(variable_id);
    ApiRequest { method: HttpMethod::Delete, path, page_size: None, body: None }
}

// ---------------------------------------------------------------- answers

/// A variable as the server stores it.
#[derive(Debug, PartialEq, Eq)]
pub struct RemoteVariable {
    pub id: String,
    pub name: String,
    pub is_hcl: bool,
    pub raw_value: String,
}

pub struct RemoteModel {
    pub id: Seq<char>,
    pub name: Seq<char>,
    pub is_hcl: bool,
    pub raw_value: Seq<char>,
}

impl RemoteVariable {
    pub open spec fn model(&self) -> RemoteModel {
        RemoteModel { id: self.id@, name: self.name@, is_hcl: self.is_hcl, raw_value: self.raw_value@ }
    }
}

pub open spec fn remote_models(rs: Seq<RemoteVariable>) -> Seq<RemoteModel> {
    Seq::new(rs.len(), |k: int| rs[k].model())
}

/// A created or updated variable, as the server echoed it.
#[derive(Debug, PartialEq, Eq)]
pub struct TerraformVariableRegistrationResult {
    variable_id: String,
    variable_name: String,
    variable_description: String,
    value: Value,
}

pub struct RegistrationModel {
    pub id: Seq<char>,
    pub name: Seq<char>,
    pub description: Seq<char>,
    pub value: JsonValue,
}

impl TerraformVariableRegistrationResult {
    pub closed spec fn model(&self) -> RegistrationModel {
        RegistrationModel {
            id: self.variable_id@,
            name: self.variable_name@,
            description: self.variable_description@,
            value: self.value.model(),
        }
    }

    pub fn get_variable_id(&self) -> (r: &str)
        ensures
            r@ == self.model().id,
    {
        self.variable_id.as_str()
    }

    pub fn get_variable_name(&self) -> (r: &str)
        ensures
            r@ == self.model().name,
    {
        self.variable_name.as_str()
    }

    pub fn get_variable_description(&self) -> (r: &str)
        ensures
            r@ == self.model().description,
    {
        self.variable_description.as_str()
    }

    pub fn get_value(&self) -> (r: &Value)
        ensures
            r.model() == self.model().value,
    {
        &self.value
    }
}

pub open spec fn data_text(doc: Option<JsonValue>, key: Seq<char>) -> Option<Seq<char>> {
    text(field(field(doc, "data"@), key))
}

pub open spec fn attribute_text(doc: Option<JsonValue>, key: Seq<char>) -> Option<Seq<char>> {
    text(field(field(field(doc, "data"@), "attributes"@), key))
}

/// What an answer to a create or update call means: the variable the server
/// echoed, with its value read back as the sent value was classified.
pub open spec fn registration_outcome(
    expected: u16,
    status: u16,
    body: Seq<char>,
    is_string: bool,
) -> Result<RegistrationModel, ApiError> {
    let doc = parse_json(body);
    if status != expected {
        Err(ApiError::UnexpectedStatus(status))
    } else if doc is None {
        Err(ApiError::MalformedBody)
    } else {
        match (
            data_text(doc, "id"@),
            attribute_text(doc, "key"@),
            attribute_text(doc, "description"@),
            attribute_text(doc, "value"@),
        ) {
            (Some(id), Some(name), Some(description), Some(raw)) => match decoding(is_string, raw) {
                Some(v) => Ok(RegistrationModel { id, name, description, value: v }),
                None => Err(ApiError::UndecodableValue),
            },
            _ => Err(ApiError::MalformedBody),
        }
    }
}

pub open spec fn registration_seen(
    r: Result<TerraformVariableRegistrationResult, ApiError>,
) -> Result<RegistrationModel, ApiError> {
    match r {
        Ok(x) => Ok(x.model()),
        Err(e) => Err(e),
    }
}

/// Reads the answer to a create (`expected` 201) or update (`expected` 200) call.
pub fn interpret_registration(expected: u16, status: u16, body: &str, is_string: bool) -> (r: Result<
    TerraformVariableRegistrationResult,
    ApiError,
>)
    ensures
        registration_seen(r) == registration_outcome(expected, status, body@, is_string),
{
    if status != expected {
        return Err(ApiError::UnexpectedStatus(status));
    }
    let doc = match parse_json_text(body) {
        Some(d) => d,
        None => {
            return Err(ApiError::MalformedBody);
        },
    };
    let ghost dm = Some(doc.model());
    let data = doc.get("data");
    let attributes = get_in(data, "attributes");
    let id = text_of(get_in(data, "id"));
    let name = text_of(get_in(attributes, "key"));
    let description = text_of(get_in(attributes, "description"));
    let raw = text_of(get_in(attributes, "value"));
    match (id, name, description, raw) {
        (Some(id), Some(name), Some(description), Some(raw)) => {
            match decode(!is_string, is_string, raw.as_str()) {
                Ok(v) => Ok(
                    TerraformVariableRegistrationResult {
                        variable_id: id,
                        variable_name: name,
                        variable_description: description,
                        value: v,
                    },
                ),
                Err(_) => Err(ApiError::UndecodableValue),
            }
        },
        _ => Err(ApiError::MalformedBody),
    }
}

/// Reads the answer to a create call.
pub fn interpret_create_response(status: u16, body: &str, is_string: bool) -> (r: Result<
    TerraformVariableRegistrationResult,
    ApiError,
>)
    ensures
        registration_seen(r) == registration_outcome(201, status, body@, is_string),
{
    interpret_registration(201, status, body, is_string)
}

/// Reads the answer to an update call.
pub fn interpret_update_response(status: u16, body: &str, is_string: bool) -> (r: Result<
    TerraformVariableRegistrationResult,
    ApiError,
>)
    ensures
        registration_seen(r) == registration_outcome(200, status, body@, is_string),
{
    interpret_registration(200, status, body, is_string)
}

/// Reads the answer to a delete call, which has no content.
pub fn interpret_delete_response(status: u16) -> (r: Result<(), ApiError>)
    ensures
        r is Ok <==> status == 204,
        r matches Err(e) ==> e == ApiError::UnexpectedStatus(status),
{
    if status == 204 {
        Ok(())
    } else {
        Err(ApiError::UnexpectedStatus(status))
    }
}

/// One listed variable: its id, name, `hcl` flag and stored value (empty when
/// the server hides it).
pub open spec fn remote_of(item: JsonValue) -> Option<RemoteModel> {
    let it = Some(item);
    let attributes = field(it, "attributes"@);
    match (text(field(it, "id"@)), text(field(attributes, "key"@))) {
        (Some(id), Some(name)) => Some(
            RemoteModel {
                id,
                name,
                is_hcl: field(attributes, "hcl"@) == Some(JsonValue::Bool(true)),
                raw_value: match text(field(attributes, "value"@)) {
                    Some(t) => t,
                    None => Seq::empty(),
                },
            },
        ),
        _ => None,
    }
}

pub open spec fn remotes_of(items: Seq<JsonValue>) -> Option<Seq<RemoteModel>>
    decreases items.len(),
{
    if items.len() == 0 {
        Some(Seq::empty())
    } else {
        match (remotes_of(items.drop_last()), remote_of(items.last())) {
            (Some(rs), Some(r)) => Some(rs.push(r)),
            _ => None,
        }
    }
}

/// What an answer to a list call means.
pub open spec fn list_outcome(status: u16, body: Seq<char>) -> Result<Seq<RemoteModel>, ApiError> {
    if status != 200 {
        Err(ApiError::UnexpectedStatus(status))
    } else {
        match field(parse_json(body), "data"@) {
            Some(JsonValue::Array(items)) => match remotes_of(items) {
                Some(rs) => Ok(rs),
                None => Err(ApiError::MalformedBody),
            },
            _ => Err(ApiError::MalformedBody),
        }
    }
}

pub open spec fn list_seen(r: Result<Vec<RemoteVariable>, ApiError>) -> Result<Seq<RemoteModel>, ApiError> {
    match r {
        Ok(v) => Ok(remote_models(v@)),
        Err(e) => Err(e),
    }
}

fn remote_from(item: &Value) -> (r: Option<RemoteVariable>)
    ensures
        r matches Some(x) ==> remote_of(item.model()) == Some(x.model()),
        r is None <==> remote_of(item.model()) is None,
{
    let attributes = item.get("attributes");
    let id = text_of(item.get("id"));
    let name = text_of(get_in(attributes, "key"));
    match (id, name) {
        (Some(id), Some(name)) => {
            let is_hcl = match get_in(attributes, "hcl") {
                Some(Value::Bool(b)) => *b,
                _ => false,
            };
            let raw_value = match text_of(get_in(attributes, "value")) {
                Some(t) => t,
                None => String::new(),
            };
            Some(RemoteVariable { id, name, is_hcl, raw_value })
        },
        _ => None,
    }
}

/// Reads the answer to a list call. Only the page that answer holds is
/// read: the variables of a workspace are listed in one request, which the
/// API answers with its default page size.
pub fn get_variables(status: u16, body: &str) -> (r: Result<Vec<RemoteVariable>, ApiError>)
    ensures
        list_seen(r) == list_outcome(status, body@),
{
    if status != 200 {
        return Err(ApiError::UnexpectedStatus(status));
    }
    let doc = match parse_json_text(body) {
        Some(d) => d,
        None => {
            return Err(ApiError::MalformedBody);
        },
    };
    let items = match doc.get("data") {
        Some(Value::Array(items)) => items,
        _ => {
            return Err(ApiError::MalformedBody);
        },
    };
    let ghost ms = items@.map_values(|x: Value| x.model());
    proof {
        crate::codec::lemma_array_model(*items);
        assert(crate::codec::models(items@) =~= ms);
    }
    let mut result: Vec<RemoteVariable> = Vec::new();
    let mut k: usize = 0;
    while k < items.len()
        invariant
            k <= items@.len(),
            ms == items@.map_values(|x: Value| x.model()),
            status == 200,
            field(parse_json(body@), "data"@) == Some(JsonValue::Array(ms)),
            remotes_of(ms.take(k as int)) == Some(remote_models(result@)),
        decreases items@.len() - k,
    {
        match remote_from(&items[k]) {
            Some(x) => {
                proof {
                    assert(ms.take(k + 1).drop_last() =~= ms.take(k as int));
                    assert(remote_models(result@.push(x)) =~= remote_models(result@).push(x.model()));
                }
                result.push(x);
            },
            None => {
                proof {
                    assert(ms.take(k + 1).drop_last() =~= ms.take(k as int));
                    assert(ms.take(k + 1).last() == items@[k as int].model());
                    assert(remotes_of(ms.take(k + 1)) is None);
                    lemma_remotes_of_prefix(ms, k as int + 1);
                    assert(ms.take(ms.len() as int) =~= ms);
                }
                return Err(ApiError::MalformedBody);
            },
        }
        k = k + 1;
    }
    assert(ms.take(k as int) =~= ms);
    Ok(result)
}

/// Once a prefix has an unreadable item, so has every longer prefix.
proof fn lemma_remotes_of_prefix(ms: Seq<JsonValue>, n: int)
    requires
        0 < n <= ms.len(),
        remotes_of(ms.take(n)) is None,
    ensures
        remotes_of(ms.take(ms.len() as int)) is None,
    decreases ms.len() - n,
{
    if n < ms.len() {
        assert(ms.take(n + 1).drop_last() =~= ms.take(n));
        lemma_remotes_of_prefix(ms, n + 1);
    }
}

} // verus!
