//! Reading node definitions from JSON files.

use vstd::prelude::*;
use crate::collect::{append_all, filter_map, filter_map_first};
use crate::entities::{
    Access, AccessModel, Command, CommandModel, EnvVar, Status, StatusModel, VaroNode,
    VaroNodeModel,
};
use crate::env::{env_vars_of, parse_env_vars_from_json, Binding, EnvMap};
use crate::hasher::{id_of, normalized, Hasher};
use crate::json::{parse_json, parsed_json, Json, JsonModel};
use crate::keyed::value_at_key;
use crate::source::{
    find_listing, listing_of, DirSnapshot, DirSnapshotModel, Listing, ListingModel, SourceFile,
    SourceFileModel,
};
use crate::text::{has_json_extension, is_json_path, join2, join3};

verus! {

/// The text of a member, or the empty text where the member is missing or
/// is not a string.
pub open spec fn str_or_empty(j: JsonModel, key: Seq<char>) -> Seq<char> {
    match j.str_at(key) {
        Some(s) => s,
        None => Seq::empty(),
    }
}

/// The truth value of a member, or `false` where the member is missing or
/// is not a boolean.
pub open spec fn bool_or_false(j: JsonModel, key: Seq<char>) -> bool {
    match j.bool_at(key) {
        Some(b) => b,
        None => false,
    }
}

/// The command that an element of `commands` declares: an object declares
/// one, anything else none.
pub open spec fn command_of(item: JsonModel) -> Option<CommandModel> {
    if item is Object {
        Some(
            CommandModel {
                path: str_or_empty(item, "path"@),
                path_type: str_or_empty(item, "pathType"@),
                args: str_or_empty(item, "args"@),
                non_blocking: bool_or_false(item, "nonBlocking"@),
            },
        )
    } else {
        None
    }
}

/// [`command_of`] as a function of the element.
pub open spec fn command_fn() -> spec_fn(JsonModel) -> Option<CommandModel> {
    |item: JsonModel| command_of(item)
}

/// The commands that a node file declares, or why the file is rejected:
/// `commands` is required and has to be an array. An array without
/// elements is accepted.
pub open spec fn commands_of(j: JsonModel, path: Seq<char>) -> Result<
    Seq<CommandModel>,
    Seq<char>,
> {
    match j.get("commands"@) {
        None => Err("Missing required 'commands' array in "@ + path),
        Some(JsonModel::Array(items)) => Ok(filter_map(items, command_fn())),
        Some(_) => Err("'commands' field must be an array in "@ + path),
    }
}

/// The status that a node file declares, if its `status` is an object.
pub open spec fn status_of(j: JsonModel) -> Option<StatusModel> {
    match j.get("status"@) {
        Some(s) => if s is Object {
            Some(StatusModel { name: str_or_empty(s, "name"@), color: str_or_empty(s, "color"@) })
        } else {
            None
        },
        None => None,
    }
}

/// The text of an element, as a function of the element.
pub open spec fn text_fn() -> spec_fn(JsonModel) -> Option<Seq<char>> {
    |item: JsonModel| item.as_str()
}

/// The strings of an array member; none where the member is missing or is
/// not an array.
pub open spec fn strings_at(j: JsonModel, key: Seq<char>) -> Seq<Seq<char>> {
    match j.get(key) {
        Some(JsonModel::Array(items)) => filter_map(items, text_fn()),
        _ => Seq::empty(),
    }
}

/// The access rules that a node file declares, if its `access` is an
/// object.
pub open spec fn access_of(j: JsonModel) -> Option<AccessModel> {
    match j.get("access"@) {
        Some(a) => if a is Object {
            Some(
                AccessModel {
                    platforms: strings_at(a, "platforms"@),
                    allow: strings_at(a, "allow"@),
                    deny: strings_at(a, "deny"@),
                },
            )
        } else {
            None
        },
        None => None,
    }
}

/// The identifier of the node that a file declares: the file's `id` if it
/// has one, else the one derived from the file's name.
pub open spec fn node_id_of(j: JsonModel, path: Seq<char>) -> Seq<char> {
    match j.str_at("id"@) {
        Some(id) => id,
        None => id_of(normalized(path)),
    }
}

/// The node that a parsed file declares, or why the file is rejected. The
/// root has to be an object with a `name` and a `commands` array; the
/// category defaults to `Uncategorized` and the group to the name. The
/// icon is the file's `icon` text as it stands.
pub open spec fn node_of_json(j: JsonModel, path: Seq<char>, modified: u64, b: Seq<Binding>) -> Result<
    VaroNodeModel,
    Seq<char>,
> {
    if !(j is Object) {
        Err("Root JSON is not an object in "@ + path)
    } else {
        match j.str_at("name"@) {
            None => Err("Missing or invalid 'name' field in "@ + path),
            Some(name) => match commands_of(j, path) {
                Err(m) => Err(m),
                Ok(commands) => Ok(
                    VaroNodeModel {
                        id: node_id_of(j, path),
                        name,
                        category: match j.str_at("category"@) {
                            Some(c) => c,
                            None => "Uncategorized"@,
                        },
                        group_id: match j.str_at("groupId"@) {
                            Some(g) => g,
                            None => name,
                        },
                        icon: str_or_empty(j, "icon"@),
                        filepath: Some(path),
                        default_for_group: bool_or_false(j, "defaultForGroup"@),
                        description: j.str_at("description"@),
                        status: status_of(j),
                        access: access_of(j),
                        commands,
                        env: match j.get("env"@) {
                            Some(e) => env_vars_of(e, b),
                            None => Seq::empty(),
                        },
                        date_modified: modified,
                    },
                ),
            },
        }
    }
}

/// A warning that is given only if `missing` holds.
pub open spec fn warning_if(missing: bool, id: Seq<char>, what: Seq<char>) -> Seq<Seq<char>> {
    if missing {
        seq!["Node '"@ + id + what]
    } else {
        Seq::empty()
    }
}

/// The warnings for the optional fields that a node file leaves out, in
/// the order category, group, description, status, icon. The one for the
/// group gives the name that the group defaults to.
pub open spec fn node_warnings(j: JsonModel, path: Seq<char>) -> Seq<Seq<char>> {
    let id = node_id_of(j, path);
    warning_if(
        j.str_at("category"@) is None,
        id,
        "' missing optional 'category' field — defaulting to 'Uncategorized'"@,
    ) + warning_if(
        j.str_at("groupId"@) is None,
        id,
        "' missing optional 'groupId' field — defaulting to name '"@ + str_or_empty(j, "name"@)
            + "'"@,
    ) + warning_if(j.str_at("description"@) is None, id, "' missing optional 'description' field"@)
        + warning_if(status_of(j) is None, id, "' missing optional 'status' block"@) + warning_if(
        str_or_empty(j, "icon"@).len() == 0,
        id,
        "' missing optional 'icon' field"@,
    )
}

/// The node that a file declares, or why the file is rejected: it cannot
/// be read, is not JSON, does not declare a node, or has a time of
/// modification that cannot be given.
pub open spec fn node_of_file(file: SourceFileModel, b: Seq<Binding>) -> Result<
    VaroNodeModel,
    Seq<char>,
> {
    match file.content {
        None => Err("Failed to read file "@ + file.path),
        Some(text) => match parsed_json(text) {
            Err(e) => Err("Failed to parse JSON in file "@ + file.path + ": "@ + e),
            Ok(j) => match node_of_json(j, file.path, file.modified_millis, b) {
                Err(m) => Err(m),
                Ok(n) => match file.modified_error {
                    Some(m) => Err(m),
                    None => Ok(n),
                },
            },
        },
    }
}

/// The warnings that a file gives when its node loads.
pub open spec fn warnings_of_file(file: SourceFileModel) -> Seq<Seq<char>> {
    match file.content {
        Some(text) => match parsed_json(text) {
            Ok(j) => node_warnings(j, file.path),
            Err(_) => Seq::empty(),
        },
        None => Seq::empty(),
    }
}

/// Whether a directory entry can hold a node: a regular file with the
/// extension `json`.
pub open spec fn is_node_file(file: SourceFileModel) -> bool {
    file.is_file && is_json_path(file.path)
}

/// The node that a directory entry contributes.
pub open spec fn loaded_node(file: SourceFileModel, b: Seq<Binding>) -> Option<VaroNodeModel> {
    if is_node_file(file) {
        match node_of_file(file, b) {
            Ok(n) => Some(n),
            Err(_) => None,
        }
    } else {
        None
    }
}

/// [`loaded_node`] as a function of the entry.
pub open spec fn loaded_node_fn(b: Seq<Binding>) -> spec_fn(SourceFileModel) -> Option<
    VaroNodeModel,
> {
    |file: SourceFileModel| loaded_node(file, b)
}

/// The warnings that a directory entry contributes: for a node file that
/// is rejected, why; for one that loads, what it leaves out.
pub open spec fn entry_warnings(file: SourceFileModel, b: Seq<Binding>) -> Seq<Seq<char>> {
    if is_node_file(file) {
        match node_of_file(file, b) {
            Ok(_) => warnings_of_file(file),
            Err(m) => seq!["Failed to parse "@ + file.path + ": "@ + m],
        }
    } else {
        Seq::empty()
    }
}

/// The warnings of the first `n` entries, in order.
pub open spec fn warnings_of_entries(files: Seq<SourceFileModel>, b: Seq<Binding>, n: nat) -> Seq<
    Seq<char>,
>
    decreases n,
{
    if n == 0 || n > files.len() {
        Seq::empty()
    } else {
        warnings_of_entries(files, b, (n - 1) as nat) + entry_warnings(files[n - 1], b)
    }
}

/// The nodes of a directory, or why it has none to give.
pub open spec fn nodes_in_dir(dir: Seq<char>, listing: ListingModel, b: Seq<Binding>) -> Result<
    Seq<VaroNodeModel>,
    Seq<char>,
> {
    match listing {
        ListingModel::Missing | ListingModel::NotADirectory => Err(
            "Directory does not exist or is not a directory: "@ + dir,
        ),
        ListingModel::Unreadable(reason) => Err(
            "Failed to read directory '"@ + dir + "': "@ + reason,
        ),
        ListingModel::Entries(files) => Ok(filter_map(files, loaded_node_fn(b))),
    }
}

/// A copy of the text of a member, or the empty string.
fn str_or_empty_at(j: &Json, key: &str) -> (r: String)
    ensures
        r@ == str_or_empty(j@, key@),
{
    match j.str_at(key) {
        Some(s) => s,
        None => String::new(),
    }
}

/// The truth value of a member, or `false`.
fn bool_or_false_at(j: &Json, key: &str) -> (r: bool)
    ensures
        r == bool_or_false(j@, key@),
{
    match j.bool_at(key) {
        Some(b) => b,
        None => false,
    }
}

/// The strings of an array member.
fn strings_from_json(j: &Json, key: &str) -> (r: Vec<String>)
    ensures
        r.deep_view() == strings_at(j@, key@),
{
    let mut out: Vec<String> = Vec::new();
    assert(out.deep_view() =~= Seq::<Seq<char>>::empty());
    let items = match j.get(key) {
        Some(v) => match v.as_array() {
            Some(items) => items,
            None => {
                return out;
            },
        },
        None => {
            return out;
        },
    };
    let mut i: usize = 0;
    while i < items.len()
        invariant
            i <= items.len(),
            out.deep_view() == filter_map_first(items.deep_view(), text_fn(), i as nat),
        decreases items.len() - i,
    {
        let ghost before = out.deep_view();
        assert(items.deep_view()[i as int] == items[i as int]@);
        match items[i].as_str() {
            Some(s) => {
                out.push(s.clone());
                assert(out.deep_view() =~= before.push(s@));
            },
            None => {},
        }
        i += 1;
    }
    out
}

/// Reads the `commands` of a node file.
pub fn parse_commands_from_json(json: &Json, path: &str) -> (r: Result<Vec<Command>, String>)
    ensures
        match r {
            Ok(c) => commands_of(json@, path@) == Ok::<Seq<CommandModel>, Seq<char>>(
                c.deep_view(),
            ),
            Err(m) => commands_of(json@, path@) == Err::<Seq<CommandModel>, Seq<char>>(m@),
        },
{
    let value = match json.get("commands") {
        Some(v) => v,
        None => {
            return Err(join2("Missing required 'commands' array in ", path));
        },
    };
    let items = match value.as_array() {
        Some(items) => items,
        None => {
            return Err(join2("'commands' field must be an array in ", path));
        },
    };
    let mut out: Vec<Command> = Vec::new();
    assert(out.deep_view() =~= Seq::<CommandModel>::empty());
    let mut i: usize = 0;
    while i < items.len()
        invariant
            i <= items.len(),
            out.deep_view() == filter_map_first(items.deep_view(), command_fn(), i as nat),
        decreases items.len() - i,
    {
        let ghost before = out.deep_view();
        let item = &items[i];
        assert(items.deep_view()[i as int] == item@);
        if item.as_object().is_some() {
            let c = Command {
                path: str_or_empty_at(item, "path"),
                path_type: str_or_empty_at(item, "pathType"),
                args: str_or_empty_at(item, "args"),
                non_blocking: bool_or_false_at(item, "nonBlocking"),
            };
            out.push(c);
            assert(out.deep_view() =~= before.push(c@));
        }
        i += 1;
    }
    Ok(out)
}

/// Reads the `status` of a node file.
pub fn parse_status_from_json(json: &Json) -> (r: Option<Status>)
    ensures
        r.deep_view() == status_of(json@),
{
    match json.get("status") {
        Some(s) => if s.as_object().is_some() {
            Some(Status { name: str_or_empty_at(s, "name"), color: str_or_empty_at(s, "color") })
        } else {
            None
        },
        None => None,
    }
}

/// Reads the `access` of a node file.
pub fn parse_access_from_json(json: &Json) -> (r: Option<Access>)
    ensures
        r.deep_view() == access_of(json@),
{
    match json.get("access") {
        Some(a) => if a.as_object().is_some() {
            Some(
                Access {
                    platforms: strings_from_json(a, "platforms"),
                    allow: strings_from_json(a, "allow"),
                    deny: strings_from_json(a, "deny"),
                },
            )
        } else {
            None
        },
        None => None,
    }
}

/// Reads a node from a parsed file.
pub fn node_from_json(json: &Json, path: &str, modified_millis: u64, system: &EnvMap) -> (r: Result<
    VaroNode,
    String,
>)
    ensures
        match r {
            Ok(n) => node_of_json(json@, path@, modified_millis, system@) == Ok::<
                VaroNodeModel,
                Seq<char>,
            >(n@),
            Err(m) => node_of_json(json@, path@, modified_millis, system@) == Err::<
                VaroNodeModel,
                Seq<char>,
            >(m@),
        },
{
    if json.as_object().is_none() {
        return Err(join2("Root JSON is not an object in ", path));
    }
    let name = match json.str_at("name") {
        Some(n) => n,
        None => {
            return Err(join2("Missing or invalid 'name' field in ", path));
        },
    };
    let commands = match parse_commands_from_json(json, path) {
        Ok(c) => c,
        Err(m) => {
            return Err(m);
        },
    };
    let id = match json.str_at("id") {
        Some(i) => i,
        None => Hasher::generate_id_from_path(path),
    };
    let category = match json.str_at("category") {
        Some(c) => c,
        None => "Uncategorized".to_string(),
    };
    let group_id = match json.str_at("groupId") {
        Some(g) => g,
        None => name.clone(),
    };
    let env = match json.get("env") {
        Some(e) => parse_env_vars_from_json(e, system),
        None => {
            let v: Vec<EnvVar> = Vec::new();
            assert(v.deep_view() =~= Seq::empty());
            v
        },
    };
    Ok(
        VaroNode {
            id,
            name,
            category,
            group_id,
            icon: str_or_empty_at(json, "icon"),
            filepath: Some(String::from_str(path)),
            default_for_group: bool_or_false_at(json, "defaultForGroup"),
            description: json.str_at("description"),
            status: parse_status_from_json(json),
            access: parse_access_from_json(json),
            commands,
            env,
            date_modified: modified_millis,
        },
    )
}

/// Adds a warning about the node `id` if `missing` holds.
fn push_warning_if(out: &mut Vec<String>, missing: bool, id: &str, what: &str)
    ensures
        final(out).deep_view() == old(out).deep_view() + warning_if(missing, id@, what@),
{
    let ghost before = out.deep_view();
    if missing {
        let w = join3("Node '", id, what);
        out.push(w);
        assert(out.deep_view() =~= before + seq![w@]);
    } else {
        assert(out.deep_view() =~= before + Seq::empty());
    }
}

/// The warnings for the optional fields that a node file leaves out.
pub fn warnings_from_json(json: &Json, path: &str) -> (r: Vec<String>)
    ensures
        r.deep_view() == node_warnings(json@, path@),
{
    let id = match json.str_at("id") {
        Some(i) => i,
        None => Hasher::generate_id_from_path(path),
    };
    let id = id.as_str();
    let mut out: Vec<String> = Vec::new();
    assert(out.deep_view() =~= Seq::<Seq<char>>::empty());
    push_warning_if(
        &mut out,
        json.str_at("category").is_none(),
        id,
        "' missing optional 'category' field — defaulting to 'Uncategorized'",
    );
    let name = str_or_empty_at(json, "name");
    let group = join3("' missing optional 'groupId' field — defaulting to name '", name.as_str(), "'");
    push_warning_if(&mut out, json.str_at("groupId").is_none(), id, group.as_str());
    push_warning_if(
        &mut out,
        json.str_at("description").is_none(),
        id,
        "' missing optional 'description' field",
    );
    push_warning_if(
        &mut out,
        parse_status_from_json(json).is_none(),
        id,
        "' missing optional 'status' block",
    );
    let icon = str_or_empty_at(json, "icon");
    push_warning_if(&mut out, icon.as_str().is_empty(), id, "' missing optional 'icon' field");
    assert(out.deep_view() =~= node_warnings(json@, path@));
    out
}

/// Reads a node from a file and says what the file leaves out, or why the
/// file is rejected.
pub fn parse_varo_node_file(file: &SourceFile, system: &EnvMap) -> (r: Result<
    (VaroNode, Vec<String>),
    String,
>)
    ensures
        match r {
            Ok(pair) => node_of_file(file@, system@) == Ok::<VaroNodeModel, Seq<char>>(pair.0@)
                && pair.1.deep_view() == warnings_of_file(file@),
            Err(m) => node_of_file(file@, system@) == Err::<VaroNodeModel, Seq<char>>(m@),
        },
{
    let path = file.path.as_str();
    let text = match &file.content {
        Some(t) => t,
        None => {
            return Err(join2("Failed to read file ", path));
        },
    };
    let json = match parse_json(text.as_str()) {
        Ok(j) => j,
        Err(e) => {
            let head = join3("Failed to parse JSON in file ", path, ": ");
            return Err(join2(head.as_str(), e.as_str()));
        },
    };
    match node_from_json(&json, path, file.modified_millis, system) {
        Ok(node) => match &file.modified_error {
            Some(m) => Err(m.clone()),
            None => Ok((node, warnings_from_json(&json, path))),
        },
        Err(m) => Err(m),
    }
}

/// Reads a node from a file, or says why the file is rejected.
pub fn load_node_from_file(file: &SourceFile, system: &EnvMap) -> (r: Result<VaroNode, String>)
    ensures
        match r {
            Ok(n) => node_of_file(file@, system@) == Ok::<VaroNodeModel, Seq<char>>(n@),
            Err(m) => node_of_file(file@, system@) == Err::<VaroNodeModel, Seq<char>>(m@),
        },
{
    match parse_varo_node_file(file, system) {
        Ok(pair) => Ok(pair.0),
        Err(m) => Err(m),
    }
}

/// Whether a directory entry can hold a node: a regular file with the
/// extension `json`, in any mix of ASCII cases.
pub fn is_valid_node_file(file: &SourceFile) -> (r: bool)
    ensures
        r == is_node_file(file@),
{
    file.is_file && has_json_extension(file.path.as_str())
}

/// The nodes and the warnings that the entries of a directory give.
#[derive(Debug, PartialEq, Eq)]
pub struct NodeLoadResult {
    pub nodes: Vec<VaroNode>,
    pub warnings: Vec<String>,
}

/// Reads the nodes of the node files among the entries. A file that is
/// rejected gives a warning and does not stop the others.
pub fn scan_node_files(files: &Vec<SourceFile>, system: &EnvMap) -> (r: NodeLoadResult)
    ensures
        r.nodes.deep_view() == filter_map(files.deep_view(), loaded_node_fn(system@)),
        r.warnings.deep_view() == warnings_of_entries(
            files.deep_view(),
            system@,
            files.len() as nat,
        ),
{
    let mut nodes: Vec<VaroNode> = Vec::new();
    let mut warnings: Vec<String> = Vec::new();
    let mut i: usize = 0;
    assert(nodes.deep_view() =~= Seq::<VaroNodeModel>::empty());
    assert(warnings.deep_view() =~= Seq::<Seq<char>>::empty());
    while i < files.len()
        invariant
            i <= files.len(),
            nodes.deep_view() == filter_map_first(
                files.deep_view(),
                loaded_node_fn(system@),
                i as nat,
            ),
            warnings.deep_view() == warnings_of_entries(files.deep_view(), system@, i as nat),
        decreases files.len() - i,
    {
        let ghost nodes_before = nodes.deep_view();
        let ghost warnings_before = warnings.deep_view();
        assert(files.deep_view()[i as int] == files[i as int]@);
        if is_valid_node_file(&files[i]) {
            match parse_varo_node_file(&files[i], system) {
                Ok(pair) => {
                    let (node, node_warnings) = pair;
                    nodes.push(node);
                    assert(nodes.deep_view() =~= nodes_before.push(node@));
                    append_all(&mut warnings, node_warnings);
                },
                Err(m) => {
                    let head = join3("Failed to parse ", files[i].path.as_str(), ": ");
                    let w = join2(head.as_str(), m.as_str());
                    warnings.push(w);
                    assert(warnings.deep_view() =~= warnings_before + seq![w@]);
                },
            }
        } else {
            assert(warnings.deep_view() =~= warnings_before + Seq::empty());
        }
        i += 1;
    }
    NodeLoadResult { nodes, warnings }
}

/// The nodes of a directory. Fails if the directory is not there or cannot
/// be read; files in it that are rejected are passed over.
pub fn load_nodes_in_dir(dir_path: &str, listing: &Listing, system: &EnvMap) -> (r: Result<
    Vec<VaroNode>,
    String,
>)
    ensures
        match r {
            Ok(n) => nodes_in_dir(dir_path@, listing@, system@) == Ok::<
                Seq<VaroNodeModel>,
                Seq<char>,
            >(n.deep_view()),
            Err(m) => nodes_in_dir(dir_path@, listing@, system@) == Err::<
                Seq<VaroNodeModel>,
                Seq<char>,
            >(m@),
        },
{
    match listing {
        Listing::Missing | Listing::NotADirectory => Err(
            join2("Directory does not exist or is not a directory: ", dir_path),
        ),
        Listing::Unreadable(reason) => {
            let head = join3("Failed to read directory '", dir_path, "': ");
            Err(join2(head.as_str(), reason.as_str()))
        },
        Listing::Entries(files) => Ok(scan_node_files(files, system).nodes),
    }
}

/// The model of a [`NodeLoadResult`].
pub ghost struct NodeLoadResultModel {
    pub nodes: Seq<VaroNodeModel>,
    pub warnings: Seq<Seq<char>>,
}

impl DeepView for NodeLoadResult {
    type V = NodeLoadResultModel;

    open spec fn deep_view(&self) -> NodeLoadResultModel {
        NodeLoadResultModel {
            nodes: self.nodes.deep_view(),
            warnings: self.warnings.deep_view(),
        }
    }
}

impl View for NodeLoadResult {
    type V = NodeLoadResultModel;

    open spec fn view(&self) -> NodeLoadResultModel {
        self.deep_view()
    }
}

/// The nodes under the root that `VARO_PATH` names in the system
/// environment, with the warnings of the load; or why there are none: the
/// variable is not set, the root is not there or is no directory, or the
/// `nodes` directory under it is not there, is no directory or cannot be
/// read.
pub open spec fn varo_nodes(system: Seq<Binding>, snapshots: Seq<DirSnapshotModel>) -> Result<
    NodeLoadResultModel,
    Seq<char>,
> {
    match value_at_key(system, "VARO_PATH"@) {
        None => Err("Environment variable VARO_PATH is not set."@),
        Some(root) => match listing_of(snapshots, root) {
            ListingModel::Missing => Err("VARO_PATH does not exist: "@ + root),
            ListingModel::NotADirectory => Err("VARO_PATH is not a directory: "@ + root),
            _ => {
                let dir = root + "/nodes"@;
                match listing_of(snapshots, dir) {
                    ListingModel::Missing => Err(
                        "nodes/ subdirectory is missing under VARO_PATH: "@ + dir,
                    ),
                    ListingModel::NotADirectory => Err(
                        "nodes/ exists but is not a directory: "@ + dir,
                    ),
                    ListingModel::Unreadable(reason) => Err("Failed to read nodes dir: "@ + reason),
                    ListingModel::Entries(files) => Ok(
                        NodeLoadResultModel {
                            nodes: filter_map(files, loaded_node_fn(system)),
                            warnings: warnings_of_entries(files, system, files.len()),
                        },
                    ),
                }
            },
        },
    }
}

/// Loads the nodes under the root that `VARO_PATH` names in the system
/// environment. The caller lists the root and the `nodes` directory under
/// it. Fails where the variable is not set, and where the root or the
/// `nodes` directory is not there, is no directory or cannot be listed; a
/// file that is rejected gives a warning.
pub fn load_varo_nodes(system: &EnvMap, snapshots: &Vec<DirSnapshot>) -> (r: Result<
    NodeLoadResult,
    String,
>)
    ensures
        match r {
            Ok(loaded) => varo_nodes(system@, snapshots.deep_view()) == Ok::<
                NodeLoadResultModel,
                Seq<char>,
            >(loaded@),
            Err(m) => varo_nodes(system@, snapshots.deep_view()) == Err::<
                NodeLoadResultModel,
                Seq<char>,
            >(m@),
        },
{
    let root = match system.get("VARO_PATH") {
        Some(r) => r,
        None => {
            return Err("Environment variable VARO_PATH is not set.".to_string());
        },
    };
    let missing = Listing::Missing;
    let root_listing = match find_listing(snapshots, root.as_str()) {
        Some(l) => l,
        None => &missing,
    };
    match root_listing {
        Listing::Missing => {
            return Err(join2("VARO_PATH does not exist: ", root.as_str()));
        },
        Listing::NotADirectory => {
            return Err(join2("VARO_PATH is not a directory: ", root.as_str()));
        },
        _ => {},
    }
    let dir = join2(root.as_str(), "/nodes");
    let listing = match find_listing(snapshots, dir.as_str()) {
        Some(l) => l,
        None => &missing,
    };
    match listing {
        Listing::Missing => Err(
            join2("nodes/ subdirectory is missing under VARO_PATH: ", dir.as_str()),
        ),
        Listing::NotADirectory => Err(join2("nodes/ exists but is not a directory: ", dir.as_str())),
        Listing::Unreadable(reason) => Err(join2("Failed to read nodes dir: ", reason.as_str())),
        Listing::Entries(files) => Ok(scan_node_files(files, system)),
    }
}

} // verus!
