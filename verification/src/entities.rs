//! The catalog's entities: environment variables, presets, nodes and their
//! commands. Each has a mathematical model, reached with `@`.

use vstd::prelude::*;

verus! {

/// One `NAME=VALUE` assignment declared by a preset or a node.
#[derive(Debug, PartialEq, Eq)]
pub struct EnvVar {
    pub name: String,
    pub value: String,
    pub operation: Option<String>,
}

/// The model of an [`EnvVar`].
pub ghost struct EnvVarModel {
    pub name: Seq<char>,
    pub value: Seq<char>,
    pub operation: Option<Seq<char>>,
}

impl DeepView for EnvVar {
    type V = EnvVarModel;

    open spec fn deep_view(&self) -> EnvVarModel {
        EnvVarModel {
            name: self.name@,
            value: self.value@,
            operation: self.operation.deep_view(),
        }
    }
}

impl View for EnvVar {
    type V = EnvVarModel;

    open spec fn view(&self) -> EnvVarModel {
        self.deep_view()
    }
}

impl Clone for EnvVar {
    fn clone(&self) -> (r: Self)
        ensures
            r@ == self@,
    {
        EnvVar {
            name: self.name.clone(),
            value: self.value.clone(),
            operation: clone_opt_string(&self.operation),
        }
    }
}

/// A copy of an optional string.
pub fn clone_opt_string(s: &Option<String>) -> (r: Option<String>)
    ensures
        r.deep_view() == s.deep_view(),
{
    match s {
        Some(t) => Some(t.clone()),
        None => None,
    }
}

/// A copy of a list of strings.
pub fn clone_strings(v: &Vec<String>) -> (r: Vec<String>)
    ensures
        r.deep_view() == v.deep_view(),
{
    let mut out: Vec<String> = Vec::new();
    let mut i: usize = 0;
    while i < v.len()
        invariant
            i <= v.len(),
            out.len() == i,
            forall|j: int| 0 <= j < i ==> out@[j].deep_view() == v@[j].deep_view(),
        decreases v.len() - i,
    {
        out.push(v[i].clone());
        i += 1;
    }
    assert(out.deep_view() =~= v.deep_view());
    out
}

/// A copy of a list of environment variables.
pub fn clone_env_vars(v: &Vec<EnvVar>) -> (r: Vec<EnvVar>)
    ensures
        r.deep_view() == v.deep_view(),
{
    let mut out: Vec<EnvVar> = Vec::new();
    let mut i: usize = 0;
    while i < v.len()
        invariant
            i <= v.len(),
            out.len() == i,
            forall|j: int| 0 <= j < i ==> out@[j].deep_view() == v@[j].deep_view(),
        decreases v.len() - i,
    {
        out.push(v[i].clone());
        i += 1;
    }
    assert(out.deep_view() =~= v.deep_view());
    out
}

/// A named bundle of environment-variable overrides.
#[derive(Debug, PartialEq, Eq)]
pub struct EnvPreset {
    pub id: String,
    pub name: String,
    pub filepath: Option<String>,
    pub description: Option<String>,
    pub env: Vec<EnvVar>,
}

/// The model of an [`EnvPreset`].
pub ghost struct EnvPresetModel {
    pub id: Seq<char>,
    pub name: Seq<char>,
    pub filepath: Option<Seq<char>>,
    pub description: Option<Seq<char>>,
    pub env: Seq<EnvVarModel>,
}

impl DeepView for EnvPreset {
    type V = EnvPresetModel;

    open spec fn deep_view(&self) -> EnvPresetModel {
        EnvPresetModel {
            id: self.id@,
            name: self.name@,
            filepath: self.filepath.deep_view(),
            description: self.description.deep_view(),
            env: self.env.deep_view(),
        }
    }
}

impl View for EnvPreset {
    type V = EnvPresetModel;

    open spec fn view(&self) -> EnvPresetModel {
        self.deep_view()
    }
}

impl Clone for EnvPreset {
    fn clone(&self) -> (r: Self)
        ensures
            r@ == self@,
    {
        EnvPreset {
            id: self.id.clone(),
            name: self.name.clone(),
            filepath: clone_opt_string(&self.filepath),
            description: clone_opt_string(&self.description),
            env: clone_env_vars(&self.env),
        }
    }
}

/// A display status attached to a node.
#[derive(Debug, PartialEq, Eq)]
pub struct Status {
    pub name: String,
    pub color: String,
}

/// The model of a [`Status`].
pub ghost struct StatusModel {
    pub name: Seq<char>,
    pub color: Seq<char>,
}

impl DeepView for Status {
    type V = StatusModel;

    open spec fn deep_view(&self) -> StatusModel {
        StatusModel { name: self.name@, color: self.color@ }
    }
}

impl View for Status {
    type V = StatusModel;

    open spec fn view(&self) -> StatusModel {
        self.deep_view()
    }
}

impl Clone for Status {
    fn clone(&self) -> (r: Self)
        ensures
            r@ == self@,
    {
        Status { name: self.name.clone(), color: self.color.clone() }
    }
}

/// Who may see or run a node.
#[derive(Debug, PartialEq, Eq)]
pub struct Access {
    pub platforms: Vec<String>,
    pub allow: Vec<String>,
    pub deny: Vec<String>,
}

/// The model of an [`Access`].
pub ghost struct AccessModel {
    pub platforms: Seq<Seq<char>>,
    pub allow: Seq<Seq<char>>,
    pub deny: Seq<Seq<char>>,
}

impl DeepView for Access {
    type V = AccessModel;

    open spec fn deep_view(&self) -> AccessModel {
        AccessModel {
            platforms: self.platforms.deep_view(),
            allow: self.allow.deep_view(),
            deny: self.deny.deep_view(),
        }
    }
}

impl View for Access {
    type V = AccessModel;

    open spec fn view(&self) -> AccessModel {
        self.deep_view()
    }
}

impl Clone for Access {
    fn clone(&self) -> (r: Self)
        ensures
            r@ == self@,
    {
        Access {
            platforms: clone_strings(&self.platforms),
            allow: clone_strings(&self.allow),
            deny: clone_strings(&self.deny),
        }
    }
}

/// One launchable command of a node. `args` is a single whitespace-delimited
/// string, not a list.
#[derive(Debug, PartialEq, Eq)]
pub struct Command {
    pub path: String,
    pub path_type: String,
    pub args: String,
    pub non_blocking: bool,
}

/// The model of a [`Command`].
pub ghost struct CommandModel {
    pub path: Seq<char>,
    pub path_type: Seq<char>,
    pub args: Seq<char>,
    pub non_blocking: bool,
}

impl DeepView for Command {
    type V = CommandModel;

    open spec fn deep_view(&self) -> CommandModel {
        CommandModel {
            path: self.path@,
            path_type: self.path_type@,
            args: self.args@,
            non_blocking: self.non_blocking,
        }
    }
}

impl View for Command {
    type V = CommandModel;

    open spec fn view(&self) -> CommandModel {
        self.deep_view()
    }
}

impl Clone for Command {
    fn clone(&self) -> (r: Self)
        ensures
            r@ == self@,
    {
        Command {
            path: self.path.clone(),
            path_type: self.path_type.clone(),
            args: self.args.clone(),
            non_blocking: self.non_blocking,
        }
    }
}

/// A copy of a list of commands.
pub fn clone_commands(v: &Vec<Command>) -> (r: Vec<Command>)
    ensures
        r.deep_view() == v.deep_view(),
{
    let mut out: Vec<Command> = Vec::new();
    let mut i: usize = 0;
    while i < v.len()
        invariant
            i <= v.len(),
            out.len() == i,
            forall|j: int| 0 <= j < i ==> out@[j].deep_view() == v@[j].deep_view(),
        decreases v.len() - i,
    {
        out.push(v[i].clone());
        i += 1;
    }
    assert(out.deep_view() =~= v.deep_view());
    out
}

/// A catalog entry: metadata plus the commands it can launch.
#[derive(Debug, PartialEq, Eq)]
pub struct VaroNode {
    pub id: String,
    pub name: String,
    pub category: String,
    pub group_id: String,
    pub icon: String,
    pub filepath: Option<String>,
    pub default_for_group: bool,
    pub description: Option<String>,
    pub status: Option<Status>,
    pub access: Option<Access>,
    pub commands: Vec<Command>,
    pub env: Vec<EnvVar>,
    pub date_modified: u64,
}

/// The model of a [`VaroNode`].
pub ghost struct VaroNodeModel {
    pub id: Seq<char>,
    pub name: Seq<char>,
    pub category: Seq<char>,
    pub group_id: Seq<char>,
    pub icon: Seq<char>,
    pub filepath: Option<Seq<char>>,
    pub default_for_group: bool,
    pub description: Option<Seq<char>>,
    pub status: Option<StatusModel>,
    pub access: Option<AccessModel>,
    pub commands: Seq<CommandModel>,
    pub env: Seq<EnvVarModel>,
    pub date_modified: u64,
}

impl DeepView for VaroNode {
    type V = VaroNodeModel;

    open spec fn deep_view(&self) -> VaroNodeModel {
        VaroNodeModel {
            id: self.id@,
            name: self.name@,
            category: self.category@,
            group_id: self.group_id@,
            icon: self.icon@,
            filepath: self.filepath.deep_view(),
            default_for_group: self.default_for_group,
            description: self.description.deep_view(),
            status: self.status.deep_view(),
            access: self.access.deep_view(),
            commands: self.commands.deep_view(),
            env: self.env.deep_view(),
            date_modified: self.date_modified,
        }
    }
}

impl View for VaroNode {
    type V = VaroNodeModel;

    open spec fn view(&self) -> VaroNodeModel {
        self.deep_view()
    }
}

impl Clone for VaroNode {
    fn clone(&self) -> (r: Self)
        ensures
            r@ == self@,
    {
        let status = match &self.status {
            Some(s) => Some(s.clone()),
            None => None,
        };
        let access = match &self.access {
            Some(a) => Some(a.clone()),
            None => None,
        };
        VaroNode {
            id: self.id.clone(),
            name: self.name.clone(),
            category: self.category.clone(),
            group_id: self.group_id.clone(),
            icon: self.icon.clone(),
            filepath: clone_opt_string(&self.filepath),
            default_for_group: self.default_for_group,
            description: clone_opt_string(&self.description),
            status,
            access,
            commands: clone_commands(&self.commands),
            env: clone_env_vars(&self.env),
            date_modified: self.date_modified,
        }
    }
}

} // verus!
