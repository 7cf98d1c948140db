//! The catalog of nodes and the plan for launching one.
//!
//! The library launches nothing itself: it decides what is to be launched
//! and with which environment, and says what the outcome of a launch means.

use vstd::prelude::*;
use crate::entities::{
    CommandModel, EnvPreset, EnvPresetModel, VaroNode, VaroNodeModel,
};
use crate::env::{
    expand, expand_tokens_with_map, expand_vars, get_env_vars_with_preset, last_value,
    lemma_last_value_expand_vars, lemma_layered_precedence, overlay, preset_vars, Binding, EnvMap,
};
use crate::errors::{ErrorKind, VaroError, VaroErrorModel, VaroResult};
use crate::keyed::{index_of_key, lemma_index_of_key_is, value_at_key};
use crate::loader::{
    load_nodes_in_dir, nodes_in_dir, scan_node_files, warnings_of_entries,
};
use crate::source::{find_listing, listing_of, DirSnapshot, DirSnapshotModel, Listing};
use crate::text::{
    chars_le, chars_of, decimal, decimal_of, join2, join3, lemma_text_le_total,
    lemma_text_le_trans, lowercase, lowercased, same_text, split_words, string_of, text_le, words,
};

verus! {

/// The nodes, each under its identifier.
pub open spec fn keyed_nodes(nodes: Seq<VaroNodeModel>) -> Seq<(Seq<char>, VaroNodeModel)> {
    Seq::new(nodes.len(), |i: int| (nodes[i].id, nodes[i]))
}

/// The node with the given identifier, if any.
pub open spec fn node_with_id(nodes: Seq<VaroNodeModel>, id: Seq<char>) -> Option<VaroNodeModel> {
    value_at_key(keyed_nodes(nodes), id)
}

/// The nodes after `n` is registered: it replaces the node that has its
/// identifier, or goes to the end if there is none.
pub open spec fn with_node(nodes: Seq<VaroNodeModel>, n: VaroNodeModel) -> Seq<VaroNodeModel> {
    let i = index_of_key(keyed_nodes(nodes), n.id);
    if i < nodes.len() {
        nodes.update(i, n)
    } else {
        nodes.push(n)
    }
}

/// The catalog that registering the first `n` of the nodes found gives: of
/// two nodes with one identifier the later stays.
pub open spec fn catalog_of(found: Seq<VaroNodeModel>, n: nat) -> Seq<VaroNodeModel>
    decreases n,
{
    if n == 0 || n > found.len() {
        Seq::empty()
    } else {
        with_node(catalog_of(found, (n - 1) as nat), found[n - 1])
    }
}

/// No identifier occurs twice.
pub open spec fn ids_distinct(nodes: Seq<VaroNodeModel>) -> bool {
    forall|i: int, j: int| 0 <= i < j < nodes.len() ==> nodes[i].id != nodes[j].id
}

/// The directory that holds the nodes: `nodes` under the root that
/// `VARO_PATH` names in the system environment with the preset laid over
/// it. There is none where `VARO_PATH` is not set.
pub open spec fn nodes_path_of(preset: Option<EnvPresetModel>, system: Seq<Binding>) -> Option<
    Seq<char>,
> {
    match value_at_key(overlay(system, preset_vars(preset)), "VARO_PATH"@) {
        Some(root) => Some(root + "/nodes"@),
        None => None,
    }
}

/// The warning for a load without `VARO_PATH`.
pub open spec fn no_path_warning(preset: Option<EnvPresetModel>) -> Seq<char> {
    match preset {
        Some(p) => "Preset '"@ + p.name
            + "' does not define VARO_PATH and no system VARO_PATH found. No nodes loaded."@,
        None => "VARO_PATH environment variable not set. No nodes loaded."@,
    }
}

/// The model of a [`NodeManager`]: its nodes in the order of the registry, and the
/// warnings of the last load.
pub ghost struct NodeManagerModel {
    pub nodes: Seq<VaroNodeModel>,
    pub warnings: Seq<Seq<char>>,
}

impl NodeManagerModel {
    /// The invariant of a registry: no two of its nodes have one
    /// identifier.
    pub open spec fn wf(self) -> bool {
        ids_distinct(self.nodes)
    }
}

/// What a load leaves in the registry. Without `VARO_PATH`, or where the
/// directory cannot be listed, the registry is empty and a warning says
/// why; else it holds the catalog of the nodes found.
pub open spec fn loaded_nodes(
    preset: Option<EnvPresetModel>,
    system: Seq<Binding>,
    snapshots: Seq<DirSnapshotModel>,
) -> NodeManagerModel {
    match nodes_path_of(preset, system) {
        None => NodeManagerModel { nodes: Seq::empty(), warnings: seq![no_path_warning(preset)] },
        Some(dir) => {
            let listing = listing_of(snapshots, dir);
            match nodes_in_dir(dir, listing, system) {
                Err(m) => NodeManagerModel {
                    nodes: Seq::empty(),
                    warnings: seq![
                        "Failed to load nodes from "@ + dir + ": "@ + m + ". No nodes loaded."@,
                    ],
                },
                Ok(found) => NodeManagerModel {
                    nodes: catalog_of(found, found.len()),
                    warnings: warnings_of_entries(
                        listing->Entries_0,
                        system,
                        listing->Entries_0.len(),
                    ),
                },
            }
        },
    }
}

/// The text by which nodes are ordered for display: the name in lowercase.
pub open spec fn sort_key(n: VaroNodeModel) -> Seq<char> {
    lowercased(n.name)
}

/// A node with the key by which it is ordered.
pub type KeyedNode = (Seq<char>, VaroNodeModel);

/// `s` with `e` put in behind every entry whose key is not greater than
/// its own.
pub open spec fn insert_by_key(s: Seq<KeyedNode>, e: KeyedNode) -> Seq<KeyedNode>
    decreases s.len(),
{
    if s.len() == 0 {
        seq![e]
    } else if text_le(s.last().0, e.0) {
        s.push(e)
    } else {
        insert_by_key(s.drop_last(), e).push(s.last())
    }
}

/// The first `k` entries in ascending order of their keys; entries with
/// equal keys stay in the order in which they stand.
pub open spec fn sorted_by_key(entries: Seq<KeyedNode>, k: nat) -> Seq<KeyedNode>
    decreases k,
{
    if k == 0 || k > entries.len() {
        Seq::empty()
    } else {
        insert_by_key(sorted_by_key(entries, (k - 1) as nat), entries[k - 1])
    }
}

/// The keys ascend.
pub open spec fn keys_ascend(s: Seq<KeyedNode>) -> bool {
    forall|i: int, j: int| 0 <= i < j < s.len() ==> text_le(s[i].0, s[j].0)
}

/// The nodes of the entries, in their order.
pub open spec fn nodes_of(entries: Seq<KeyedNode>) -> Seq<VaroNodeModel> {
    Seq::new(entries.len(), |i: int| entries[i].1)
}

/// The nodes, each with its display key.
pub open spec fn by_name(nodes: Seq<VaroNodeModel>) -> Seq<KeyedNode> {
    Seq::new(nodes.len(), |i: int| (sort_key(nodes[i]), nodes[i]))
}

/// The nodes in display order: ascending by key, nodes with equal keys in
/// the order in which they stand.
pub open spec fn sorted_by_name(nodes: Seq<VaroNodeModel>) -> Seq<VaroNodeModel> {
    nodes_of(sorted_by_key(by_name(nodes), nodes.len()))
}

/// The display keys of the nodes ascend.
pub open spec fn is_sorted(s: Seq<VaroNodeModel>) -> bool {
    forall|i: int, j: int| 0 <= i < j < s.len() ==> text_le(sort_key(s[i]), sort_key(s[j]))
}

/// Putting an entry in adds it and nothing else: the result holds the
/// entry and each entry of `s`, and has one entry more.
pub proof fn lemma_insert_by_key_members(s: Seq<KeyedNode>, e: KeyedNode)
    ensures
        insert_by_key(s, e).len() == s.len() + 1,
        insert_by_key(s, e).to_multiset() == s.to_multiset().insert(e),
        nodes_of(insert_by_key(s, e)).to_multiset() == nodes_of(s).to_multiset().insert(e.1),
        forall|k: int|
            0 <= k < insert_by_key(s, e).len() ==> insert_by_key(s, e)[k] == e || s.contains(
                #[trigger] insert_by_key(s, e)[k],
            ),
    decreases s.len(),
{
    let r = insert_by_key(s, e);
    if s.len() == 0 {
        assert(r =~= s.push(e));
        vstd::seq_lib::to_multiset_build(s, e);
        vstd::seq_lib::to_multiset_build(nodes_of(s), e.1);
        assert(nodes_of(r) =~= nodes_of(s).push(e.1));
        assert(r[0] == e);
    } else if text_le(s.last().0, e.0) {
        vstd::seq_lib::to_multiset_build(s, e);
        vstd::seq_lib::to_multiset_build(nodes_of(s), e.1);
        assert(nodes_of(r) =~= nodes_of(s).push(e.1));
        assert forall|k: int| 0 <= k < r.len() implies r[k] == e || s.contains(#[trigger] r[k]) by {
            if k < s.len() {
                assert(s[k] == r[k]);
            }
        }
    } else {
        let front = s.drop_last();
        let inner = insert_by_key(front, e);
        lemma_insert_by_key_members(front, e);
        assert(s =~= front.push(s.last()));
        vstd::seq_lib::to_multiset_build(front, s.last());
        vstd::seq_lib::to_multiset_build(inner, s.last());
        assert(r.to_multiset() =~= s.to_multiset().insert(e));
        assert(nodes_of(s) =~= nodes_of(front).push(s.last().1));
        assert(nodes_of(r) =~= nodes_of(inner).push(s.last().1));
        vstd::seq_lib::to_multiset_build(nodes_of(front), s.last().1);
        vstd::seq_lib::to_multiset_build(nodes_of(inner), s.last().1);
        assert(nodes_of(r).to_multiset() =~= nodes_of(s).to_multiset().insert(e.1));
        assert forall|k: int| 0 <= k < r.len() implies r[k] == e || s.contains(#[trigger] r[k]) by {
            if k < inner.len() {
                assert(r[k] == inner[k]);
                if inner[k] != e {
                    assert(front.contains(inner[k]));
                    let i = choose|i: int| 0 <= i < front.len() && front[i] == inner[k];
                    assert(s[i] == inner[k]);
                }
            } else {
                assert(r[k] == s[s.len() - 1]);
            }
        }
    }
}

/// Putting an entry into ascending entries leaves them ascending.
pub proof fn lemma_insert_by_key_sorted(s: Seq<KeyedNode>, e: KeyedNode)
    requires
        keys_ascend(s),
    ensures
        keys_ascend(insert_by_key(s, e)),
    decreases s.len(),
{
    let r = insert_by_key(s, e);
    if s.len() == 0 {
    } else if text_le(s.last().0, e.0) {
        assert forall|i: int, j: int| 0 <= i < j < r.len() implies text_le(r[i].0, r[j].0) by {
            if j == s.len() {
                if i < s.len() - 1 {
                    lemma_text_le_trans(s[i].0, s.last().0, e.0);
                }
            }
        }
    } else {
        let front = s.drop_last();
        let inner = insert_by_key(front, e);
        assert(keys_ascend(front)) by {
            assert forall|i: int, j: int| 0 <= i < j < front.len() implies text_le(
                front[i].0,
                front[j].0,
            ) by {
                assert(front[i] == s[i] && front[j] == s[j]);
            }
        }
        lemma_insert_by_key_sorted(front, e);
        lemma_insert_by_key_members(front, e);
        lemma_text_le_total(s.last().0, e.0);
        assert forall|i: int, j: int| 0 <= i < j < r.len() implies text_le(r[i].0, r[j].0) by {
            if j < inner.len() {
                assert(r[i] == inner[i] && r[j] == inner[j]);
            } else {
                assert(r[i] == inner[i]);
                if inner[i] != e {
                    assert(front.contains(inner[i]));
                    let k = choose|k: int| 0 <= k < front.len() && front[k] == inner[i];
                    assert(s[k] == inner[i]);
                }
            }
        }
    }
}

/// Ordering by key gives ascending keys and exactly the entries it was
/// made from.
pub proof fn lemma_sorted_by_key(entries: Seq<KeyedNode>, k: nat)
    requires
        k <= entries.len(),
    ensures
        keys_ascend(sorted_by_key(entries, k)),
        sorted_by_key(entries, k).len() == k,
        sorted_by_key(entries, k).to_multiset() == entries.take(k as int).to_multiset(),
        nodes_of(sorted_by_key(entries, k)).to_multiset() == nodes_of(
            entries.take(k as int),
        ).to_multiset(),
        forall|i: int|
            0 <= i < k ==> entries.take(k as int).contains(#[trigger] sorted_by_key(entries, k)[i]),
    decreases k,
{
    let r = sorted_by_key(entries, k);
    if k == 0 {
        assert(entries.take(0) =~= r);
        assert(nodes_of(entries.take(0)) =~= nodes_of(r));
    } else {
        let last = entries[k - 1];
        let earlier = sorted_by_key(entries, (k - 1) as nat);
        vstd::seq_lib::to_multiset_build(entries.take(k - 1), last);
        vstd::seq_lib::to_multiset_build(nodes_of(entries.take(k - 1)), last.1);
        lemma_sorted_by_key(entries, (k - 1) as nat);
        lemma_insert_by_key_sorted(earlier, last);
        lemma_insert_by_key_members(earlier, last);
        assert(entries.take(k as int) =~= entries.take(k - 1).push(last));
        assert(nodes_of(entries.take(k as int)) =~= nodes_of(entries.take(k - 1)).push(last.1));
        assert forall|i: int| 0 <= i < k implies entries.take(k as int).contains(#[trigger] r[i]) by {
            if r[i] == last {
                assert(entries.take(k as int)[k - 1] == last);
            } else {
                assert(earlier.contains(r[i]));
                let a = choose|a: int| 0 <= a < earlier.len() && earlier[a] == r[i];
                assert(entries.take(k - 1).contains(earlier[a]));
                let before = entries.take(k - 1);
                let b = choose|b: int| 0 <= b < before.len() && before[b] == earlier[a];
                assert(entries.take(k as int)[b] == r[i]);
            }
        }
    }
}

/// The display order is ascending by key and holds exactly the nodes it
/// was made from, each as often as it stood there.
pub proof fn lemma_sorted_by_name(nodes: Seq<VaroNodeModel>)
    ensures
        is_sorted(sorted_by_name(nodes)),
        sorted_by_name(nodes).len() == nodes.len(),
        sorted_by_name(nodes).to_multiset() == nodes.to_multiset(),
{
    let entries = by_name(nodes);
    let sorted = sorted_by_key(entries, nodes.len());
    let r = sorted_by_name(nodes);
    lemma_sorted_by_key(entries, nodes.len());
    assert(entries.take(nodes.len() as int) =~= entries);
    assert(nodes_of(entries) =~= nodes);
    assert forall|i: int| 0 <= i < r.len() implies sorted[i].0 == sort_key(#[trigger] r[i]) by {
        assert(entries.contains(sorted[i]));
        let a = choose|a: int| 0 <= a < entries.len() && entries[a] == sorted[i];
        assert(entries[a].0 == sort_key(entries[a].1));
    }
    assert forall|i: int, j: int| 0 <= i < j < r.len() implies text_le(
        sort_key(r[i]),
        sort_key(r[j]),
    ) by {
        assert(text_le(sorted[i].0, sorted[j].0));
    }
}

/// Registering a node keeps the identifiers distinct.
pub proof fn lemma_with_node_distinct(nodes: Seq<VaroNodeModel>, n: VaroNodeModel)
    requires
        ids_distinct(nodes),
    ensures
        ids_distinct(with_node(nodes, n)),
{
    crate::keyed::lemma_index_of_key_bounds(keyed_nodes(nodes), n.id);
    let r = with_node(nodes, n);
    let k = index_of_key(keyed_nodes(nodes), n.id);
    assert forall|i: int, j: int| 0 <= i < j < r.len() implies r[i].id != r[j].id by {
        if k < nodes.len() {
            assert(keyed_nodes(nodes)[k].0 == n.id);
            assert(nodes[k].id == n.id);
        } else {
            if j == nodes.len() {
                assert(keyed_nodes(nodes)[i].0 != n.id);
            }
        }
    }
}

/// A catalog has no identifier twice.
pub proof fn lemma_catalog_distinct(found: Seq<VaroNodeModel>, n: nat)
    ensures
        ids_distinct(catalog_of(found, n)),
    decreases n,
{
    if n > 0 && n <= found.len() {
        lemma_catalog_distinct(found, (n - 1) as nat);
        lemma_with_node_distinct(catalog_of(found, (n - 1) as nat), found[n - 1]);
    }
}

/// What is to be launched.
#[derive(Debug, PartialEq, Eq)]
pub enum LaunchPlan {
    /// Open the address with the system's handler for addresses.
    OpenUrl { url: String },
    /// Start the program with the arguments, and with the variables laid
    /// over the environment that the child inherits. Wait for it to end
    /// only if `wait` holds.
    Run { path: String, args: Option<Vec<String>>, env: Option<EnvMap>, wait: bool },
}

/// The model of a [`LaunchPlan`].
pub ghost enum LaunchPlanModel {
    OpenUrl { url: Seq<char> },
    Run { path: Seq<char>, args: Option<Seq<Seq<char>>>, env: Option<Seq<Binding>>, wait: bool },
}

impl DeepView for LaunchPlan {
    type V = LaunchPlanModel;

    open spec fn deep_view(&self) -> LaunchPlanModel {
        match self {
            LaunchPlan::OpenUrl { url } => LaunchPlanModel::OpenUrl { url: url@ },
            LaunchPlan::Run { path, args, env, wait } => LaunchPlanModel::Run {
                path: path@,
                args: args.deep_view(),
                env: env.deep_view(),
                wait: *wait,
            },
        }
    }
}

impl View for LaunchPlan {
    type V = LaunchPlanModel;

    open spec fn view(&self) -> LaunchPlanModel {
        self.deep_view()
    }
}

/// The environment against which the placeholders of a command are
/// expanded: the system's, with the preset's variables laid over it and
/// the node's laid over both.
pub open spec fn expansion_env(
    node: VaroNodeModel,
    preset: Option<EnvPresetModel>,
    system: Seq<Binding>,
) -> Seq<Binding> {
    overlay(overlay(system, preset_vars(preset)), node.env)
}

/// The variables handed to the child: the preset's, with the node's laid
/// over them, each value expanded against the expansion environment. The
/// system environment is not among them; the child inherits it.
pub open spec fn child_env(
    node: VaroNodeModel,
    preset: Option<EnvPresetModel>,
    system: Seq<Binding>,
) -> Seq<Binding> {
    let exp = expansion_env(node, preset, system);
    overlay(
        overlay(Seq::empty(), expand_vars(preset_vars(preset), exp)),
        expand_vars(node.env, exp),
    )
}

/// Precedence in the expansion environment: a name carries the node's
/// value if the node sets it, else the preset's if the preset sets it, else
/// the system's.
pub proof fn lemma_expansion_env_precedence(
    node: VaroNodeModel,
    preset: Option<EnvPresetModel>,
    system: Seq<Binding>,
    name: Seq<char>,
)
    ensures
        value_at_key(expansion_env(node, preset, system), name) == match last_value(
            node.env,
            name,
        ) {
            Some(v) => Some(v),
            None => match last_value(preset_vars(preset), name) {
                Some(v) => Some(v),
                None => value_at_key(system, name),
            },
        },
{
    lemma_layered_precedence(system, preset_vars(preset), node.env, name);
}

/// Precedence in what the child is handed: a name carries the node's value
/// if the node sets it, else the preset's if the preset sets it, each
/// expanded against the expansion environment; a name that neither sets is
/// not handed over.
pub proof fn lemma_child_env_precedence(
    node: VaroNodeModel,
    preset: Option<EnvPresetModel>,
    system: Seq<Binding>,
    name: Seq<char>,
)
    ensures
        value_at_key(child_env(node, preset, system), name) == match last_value(node.env, name) {
            Some(v) => Some(expand(v, expansion_env(node, preset, system))),
            None => match last_value(preset_vars(preset), name) {
                Some(v) => Some(expand(v, expansion_env(node, preset, system))),
                None => None,
            },
        },
{
    let exp = expansion_env(node, preset, system);
    let none: Seq<Binding> = Seq::empty();
    lemma_layered_precedence(
        none,
        expand_vars(preset_vars(preset), exp),
        expand_vars(node.env, exp),
        name,
    );
    lemma_last_value_expand_vars(node.env, exp, name);
    lemma_last_value_expand_vars(preset_vars(preset), exp, name);
    assert(index_of_key(none, name) == 0);
}

/// The kind of a command in lowercase: what decides whether it names an
/// address or a program.
pub open spec fn command_kind(c: CommandModel) -> Seq<char> {
    lowercased(c.path_type)
}

/// The plan for launching a node: that of its first command, and an error
/// where it has no command.
pub open spec fn plan_of(
    node: VaroNodeModel,
    preset: Option<EnvPresetModel>,
    system: Seq<Binding>,
) -> Result<LaunchPlanModel, VaroErrorModel> {
    if node.commands.len() == 0 {
        plan_with_kind(node, Seq::empty(), preset, system)
    } else {
        plan_with_kind(node, command_kind(node.commands[0]), preset, system)
    }
}

/// The plan for launching a node whose first command is of the given
/// kind, the kind in lowercase: `url` opens the path as an address, any
/// other kind runs it as a program.
pub open spec fn plan_with_kind(
    node: VaroNodeModel,
    kind: Seq<char>,
    preset: Option<EnvPresetModel>,
    system: Seq<Binding>,
) -> Result<LaunchPlanModel, VaroErrorModel> {
    if node.commands.len() == 0 {
        Err(
            VaroErrorModel {
                kind: ErrorKind::Execution,
                message: "Node has no commands to execute"@,
            },
        )
    } else {
        let c = node.commands[0];
        let exp = expansion_env(node, preset, system);
        if kind == "url"@ {
            Ok(LaunchPlanModel::OpenUrl { url: expand(c.path, exp) })
        } else {
            let args_text = expand(c.args, exp);
            let child = child_env(node, preset, system);
            Ok(
                LaunchPlanModel::Run {
                    path: expand(c.path, exp),
                    args: if args_text.len() == 0 {
                        None
                    } else {
                        Some(words(args_text))
                    },
                    env: if child.len() == 0 {
                        None
                    } else {
                        Some(child)
                    },
                    wait: !c.non_blocking,
                },
            )
        }
    }
}

/// The error for an identifier that no node has.
pub open spec fn node_not_found(id: Seq<char>) -> VaroErrorModel {
    VaroErrorModel { kind: ErrorKind::Node, message: "Node not found: "@ + id }
}

/// The plan for launching the node with the given identifier.
pub open spec fn execution_of(
    nodes: Seq<VaroNodeModel>,
    id: Seq<char>,
    preset: Option<EnvPresetModel>,
    system: Seq<Binding>,
) -> Result<LaunchPlanModel, VaroErrorModel> {
    match node_with_id(nodes, id) {
        None => Err(node_not_found(id)),
        Some(n) => plan_of(n, preset, system),
    }
}

/// What came of carrying out a plan.
#[derive(Debug, PartialEq, Eq)]
pub enum LaunchOutcome {
    /// The address was handed to a handler.
    Opened,
    /// No handler took the address.
    OpenFailed,
    /// The program was started and not waited for.
    Spawned,
    /// The program could not be started; the message says why.
    SpawnFailed(String),
    /// The program ran and ended.
    Exited { success: bool, code: Option<i32> },
}

/// The model of a [`LaunchOutcome`].
pub ghost enum LaunchOutcomeModel {
    Opened,
    OpenFailed,
    Spawned,
    SpawnFailed(Seq<char>),
    Exited { success: bool, code: Option<i32> },
}

impl DeepView for LaunchOutcome {
    type V = LaunchOutcomeModel;

    open spec fn deep_view(&self) -> LaunchOutcomeModel {
        match self {
            LaunchOutcome::Opened => LaunchOutcomeModel::Opened,
            LaunchOutcome::OpenFailed => LaunchOutcomeModel::OpenFailed,
            LaunchOutcome::Spawned => LaunchOutcomeModel::Spawned,
            LaunchOutcome::SpawnFailed(m) => LaunchOutcomeModel::SpawnFailed(m@),
            LaunchOutcome::Exited { success, code } => LaunchOutcomeModel::Exited {
                success: *success,
                code: *code,
            },
        }
    }
}

impl View for LaunchOutcome {
    type V = LaunchOutcomeModel;

    open spec fn view(&self) -> LaunchOutcomeModel {
        self.deep_view()
    }
}

/// An exit code as text.
pub open spec fn code_text(code: Option<i32>) -> Seq<char> {
    match code {
        Some(c) => "Some("@ + decimal(c as int) + ")"@,
        None => "None"@,
    }
}

/// An execution error with the given message.
pub open spec fn execution_error(message: Seq<char>) -> VaroErrorModel {
    VaroErrorModel { kind: ErrorKind::Execution, message }
}

/// Why the run of a program counts as failed, if it does. A program that
/// could not be started has failed whether or not it was to be waited for;
/// one that ended without success has failed only if it was waited for.
pub open spec fn program_failure(wait: bool, outcome: LaunchOutcomeModel) -> Option<Seq<char>> {
    match outcome {
        LaunchOutcomeModel::SpawnFailed(reason) => Some("Launch failed: "@ + reason),
        LaunchOutcomeModel::Exited { success, code } => if wait && !success {
            Some("Process exited with code: "@ + code_text(code))
        } else {
            None
        },
        _ => None,
    }
}

/// What an outcome means for the caller of a node: an address that no
/// handler took and a program that failed are execution errors.
pub open spec fn outcome_result(wait: bool, outcome: LaunchOutcomeModel) -> Result<
    (),
    VaroErrorModel,
> {
    if outcome is OpenFailed {
        Err(execution_error("Failed to open URL in browser"@))
    } else {
        match program_failure(wait, outcome) {
            Some(m) => Err(execution_error("Failed to execute command: "@ + m)),
            None => Ok(()),
        }
    }
}

/// Says whether the run of a program failed, and why.
pub fn program_result(wait: bool, outcome: &LaunchOutcome) -> (r: Result<(), String>)
    ensures
        match r {
            Ok(_) => program_failure(wait, outcome@) is None,
            Err(m) => program_failure(wait, outcome@) == Some(m@),
        },
{
    match outcome {
        LaunchOutcome::SpawnFailed(reason) => Err(join2("Launch failed: ", reason.as_str())),
        LaunchOutcome::Exited { success, code } => {
            if wait && !*success {
                let text = match code {
                    Some(c) => {
                        let digits = decimal_of(*c);
                        let number = string_of(&digits);
                        join3("Some(", number.as_str(), ")")
                    },
                    None => "None".to_string(),
                };
                Err(join2("Process exited with code: ", text.as_str()))
            } else {
                Ok(())
            }
        },
        _ => Ok(()),
    }
}

/// Says what the outcome of a launch means: success, or an execution error
/// that carries the reason.
pub fn execution_result(wait: bool, outcome: &LaunchOutcome) -> (r: VaroResult<()>)
    ensures
        match r {
            Ok(_) => outcome_result(wait, outcome@) is Ok,
            Err(e) => outcome_result(wait, outcome@) == Err::<(), VaroErrorModel>(e@),
        },
{
    match outcome {
        LaunchOutcome::OpenFailed => Err(VaroError::execution("Failed to open URL in browser")),
        _ => match program_result(wait, outcome) {
            Ok(_) => Ok(()),
            Err(m) => {
                let msg = join2("Failed to execute command: ", m.as_str());
                Err(VaroError::execution(msg.as_str()))
            },
        },
    }
}

/// Says what came of revealing a file: an execution error if no file
/// manager could be opened.
pub fn reveal_result(opened: bool) -> (r: VaroResult<()>)
    ensures
        opened ==> r is Ok,
        !opened ==> r is Err && r->Err_0@ == execution_error("Failed to open file in folder"@),
{
    if opened {
        Ok(())
    } else {
        Err(VaroError::execution("Failed to open file in folder"))
    }
}

/// The plan for launching a node with the selected preset, if any. Only
/// the first command of the node is launched.
pub fn plan_node(node: &VaroNode, selected_preset: Option<&EnvPreset>, system: &EnvMap) -> (r:
    VaroResult<LaunchPlan>)
    ensures
        match r {
            Ok(p) => plan_of(node@, selected_preset.deep_view(), system@) == Ok::<
                LaunchPlanModel,
                VaroErrorModel,
            >(p@),
            Err(e) => plan_of(node@, selected_preset.deep_view(), system@) == Err::<
                LaunchPlanModel,
                VaroErrorModel,
            >(e@),
        },
{
    if node.commands.len() == 0 {
        return plan_node_with_kind(node, "", selected_preset, system);
    }
    let command = &node.commands[0];
    assert(node@.commands[0] == command@);
    let kind = lowercase(command.path_type.as_str());
    plan_node_with_kind(node, kind.as_str(), selected_preset, system)
}

/// The plan for launching a node whose first command is of the given
/// kind, the kind in lowercase.
pub fn plan_node_with_kind(
    node: &VaroNode,
    kind: &str,
    selected_preset: Option<&EnvPreset>,
    system: &EnvMap,
) -> (r: VaroResult<LaunchPlan>)
    ensures
        match r {
            Ok(p) => plan_with_kind(node@, kind@, selected_preset.deep_view(), system@) == Ok::<
                LaunchPlanModel,
                VaroErrorModel,
            >(p@),
            Err(e) => plan_with_kind(node@, kind@, selected_preset.deep_view(), system@) == Err::<
                LaunchPlanModel,
                VaroErrorModel,
            >(e@),
        },
{
    if node.commands.len() == 0 {
        return Err(VaroError::execution("Node has no commands to execute"));
    }
    let mut expansion = get_env_vars_with_preset(selected_preset, system);
    expansion.overlay(&node.env);
    let command = &node.commands[0];
    assert(node@.commands[0] == command@);
    let path = expand_tokens_with_map(command.path.as_str(), &expansion);
    if same_text(kind, "url") {
        return Ok(LaunchPlan::OpenUrl { url: path });
    }
    let args_text = expand_tokens_with_map(command.args.as_str(), &expansion);
    let args = if args_text.as_str().is_empty() {
        None
    } else {
        Some(split_words(args_text.as_str()))
    };
    let mut child = EnvMap::new();
    match selected_preset {
        Some(p) => {
            child.overlay_expanded(&p.env, &expansion);
        },
        None => {
            assert(expand_vars(Seq::empty(), expansion@) =~= Seq::empty());
        },
    }
    child.overlay_expanded(&node.env, &expansion);
    let env = if child.is_empty() {
        None
    } else {
        Some(child)
    };
    Ok(LaunchPlan::Run { path, args, env, wait: !command.non_blocking })
}

/// The nodes of the entries in ascending order of their keys; nodes with
/// equal keys stay in the order in which they stand.
pub fn order_by_key<'a>(entries: Vec<(String, &'a VaroNode)>) -> (r: Vec<&'a VaroNode>)
    ensures
        r.deep_view() == nodes_of(sorted_by_key(entries.deep_view(), entries.len() as nat)),
{
    let mut out: Vec<&VaroNode> = Vec::new();
    let mut keys: Vec<Vec<char>> = Vec::new();
    let ghost all = entries.deep_view();
    let ghost mut sorted: Seq<KeyedNode> = Seq::empty();
    let mut i: usize = 0;
    while i < entries.len()
        invariant
            i <= entries.len(),
            all == entries.deep_view(),
            keys.len() == out.len(),
            sorted.len() == out.len(),
            forall|j: int| 0 <= j < out.len() ==> #[trigger] sorted[j] == (keys[j]@, out[j]@),
            sorted == sorted_by_key(all, i as nat),
        decreases entries.len() - i,
    {
        let node = entries[i].1;
        let key = chars_of(entries[i].0.as_str());
        let ghost e: KeyedNode = (key@, node@);
        let ghost s = sorted;
        assert(all[i as int] == e);
        let mut p: usize = out.len();
        assert(s.take(p as int) =~= s);
        assert(insert_by_key(s, e) =~= insert_by_key(s.take(p as int), e) + s.skip(p as int));
        while p > 0 && !chars_le(&keys[p - 1], &key)
            invariant
                p <= out.len(),
                keys.len() == out.len(),
                s.len() == out.len(),
                e.0 == key@,
                forall|j: int| 0 <= j < out.len() ==> #[trigger] s[j] == (keys[j]@, out[j]@),
                insert_by_key(s, e) == insert_by_key(s.take(p as int), e) + s.skip(p as int),
            decreases p,
        {
            proof {
                let front = s.take(p as int);
                assert(front.last() == s[p - 1]);
                assert(front.drop_last() =~= s.take(p - 1));
                assert(insert_by_key(front, e) == insert_by_key(s.take(p - 1), e).push(
                    front.last(),
                ));
                assert(insert_by_key(s.take(p - 1), e).push(front.last()) + s.skip(p as int)
                    =~= insert_by_key(s.take(p - 1), e) + s.skip(p - 1));
            }
            p -= 1;
        }
        proof {
            let front = s.take(p as int);
            if p > 0 {
                assert(front.last() == s[p - 1]);
                assert(insert_by_key(front, e) == front.push(e));
            } else {
                assert(front =~= Seq::<KeyedNode>::empty());
                assert(insert_by_key(front, e) =~= front.push(e));
            }
            assert(front.push(e) + s.skip(p as int) =~= s.insert(p as int, e));
            sorted = s.insert(p as int, e);
        }
        out.insert(p, node);
        keys.insert(p, key);
        i += 1;
    }
    assert(out.deep_view() =~= nodes_of(sorted)) by {
        assert forall|j: int| 0 <= j < out.len() implies out.deep_view()[j] == nodes_of(sorted)[j] by {
            assert(out.deep_view()[j] == out[j]@);
            assert(sorted[j] == (keys[j]@, out[j]@));
        }
    }
    out
}

/// The registry of nodes, each under its identifier.
pub struct NodeManager {
    nodes: Vec<VaroNode>,
    warnings: Vec<String>,
}

impl View for NodeManager {
    type V = NodeManagerModel;

    closed spec fn view(&self) -> NodeManagerModel {
        NodeManagerModel { nodes: self.nodes.deep_view(), warnings: self.warnings.deep_view() }
    }
}

/// The index of the node with the given identifier, or the number of nodes
/// if there is none.
fn node_position(nodes: &Vec<VaroNode>, id: &str) -> (r: usize)
    ensures
        r == index_of_key(keyed_nodes(nodes.deep_view()), id@),
        r <= nodes.len(),
{
    let mut i: usize = 0;
    while i < nodes.len()
        invariant
            i <= nodes.len(),
            forall|j: int| 0 <= j < i ==> keyed_nodes(nodes.deep_view())[j].0 != id@,
        decreases nodes.len() - i,
    {
        assert(keyed_nodes(nodes.deep_view())[i as int].0 == nodes[i as int].id@);
        if same_text(nodes[i].id.as_str(), id) {
            proof {
                lemma_index_of_key_is(keyed_nodes(nodes.deep_view()), id@, i as int);
            }
            return i;
        }
        i += 1;
    }
    proof {
        lemma_index_of_key_is(keyed_nodes(nodes.deep_view()), id@, i as int);
    }
    i
}

/// Registers a node under its identifier.
fn register_node(nodes: &mut Vec<VaroNode>, node: VaroNode)
    ensures
        final(nodes).deep_view() == with_node(old(nodes).deep_view(), node@),
{
    let ghost before = nodes.deep_view();
    let i = node_position(nodes, node.id.as_str());
    if i < nodes.len() {
        nodes[i] = node;
    } else {
        nodes.push(node);
    }
    assert(nodes.deep_view() =~= with_node(before, node@));
}

impl NodeManager {
    /// A registry without nodes.
    pub fn new() -> (r: Self)
        ensures
            r@ == (NodeManagerModel { nodes: Seq::empty(), warnings: Seq::empty() }),
            r@.wf(),
    {
        let r = NodeManager { nodes: Vec::new(), warnings: Vec::new() };
        assert(r.nodes.deep_view() =~= Seq::empty());
        assert(r.warnings.deep_view() =~= Seq::empty());
        r
    }

    /// The directory that a load reads: what the caller has to list before
    /// the load.
    pub fn nodes_path(preset: Option<&EnvPreset>, system: &EnvMap) -> (r: Option<String>)
        ensures
            r.deep_view() == nodes_path_of(preset.deep_view(), system@),
    {
        let env = get_env_vars_with_preset(preset, system);
        match env.get("VARO_PATH") {
            Some(root) => Some(join2(root.as_str(), "/nodes")),
            None => None,
        }
    }

    /// Loads the nodes with the system environment alone.
    pub fn load_nodes_from_varo_path(&mut self, system: &EnvMap, snapshots: &Vec<DirSnapshot>) -> (r:
        VaroResult<()>)
        ensures
            r is Ok,
            final(self)@ == loaded_nodes(None, system@, snapshots.deep_view()),
            final(self)@.wf(),
    {
        self.load_nodes_from_varo_path_with_preset(None, system, snapshots)
    }

    /// Replaces the registry with the nodes of the directory that
    /// `VARO_PATH` leads to. Never fails: a missing `VARO_PATH` or
    /// directory leaves the registry empty, with a warning.
    pub fn load_nodes_from_varo_path_with_preset(
        &mut self,
        preset: Option<&EnvPreset>,
        system: &EnvMap,
        snapshots: &Vec<DirSnapshot>,
    ) -> (r: VaroResult<()>)
        ensures
            r is Ok,
            final(self)@ == loaded_nodes(preset.deep_view(), system@, snapshots.deep_view()),
            final(self)@.wf(),
    {
        let mut nodes: Vec<VaroNode> = Vec::new();
        let mut warnings: Vec<String> = Vec::new();
        assert(nodes.deep_view() =~= Seq::<VaroNodeModel>::empty());
        assert(warnings.deep_view() =~= Seq::<Seq<char>>::empty());
        match Self::nodes_path(preset, system) {
            None => {
                let w = match preset {
                    Some(p) => join3(
                        "Preset '",
                        p.name.as_str(),
                        "' does not define VARO_PATH and no system VARO_PATH found. No nodes loaded.",
                    ),
                    None => "VARO_PATH environment variable not set. No nodes loaded.".to_string(),
                };
                warnings.push(w);
                assert(warnings.deep_view() =~= seq![w@]);
            },
            Some(dir) => {
                let missing = Listing::Missing;
                let listing = match find_listing(snapshots, dir.as_str()) {
                    Some(l) => l,
                    None => &missing,
                };
                match listing {
                    Listing::Entries(files) => {
                        let scan = scan_node_files(files, system);
                        let mut i: usize = 0;
                        while i < scan.nodes.len()
                            invariant
                                i <= scan.nodes.len(),
                                nodes.deep_view() == catalog_of(scan.nodes.deep_view(), i as nat),
                            decreases scan.nodes.len() - i,
                        {
                            assert(scan.nodes.deep_view()[i as int] == scan.nodes[i as int]@);
                            register_node(&mut nodes, scan.nodes[i].clone());
                            i += 1;
                        }
                        proof {
                            lemma_catalog_distinct(scan.nodes.deep_view(), scan.nodes.len() as nat);
                        }
                        warnings = scan.warnings;
                    },
                    _ => {
                        match load_nodes_in_dir(dir.as_str(), listing, system) {
                            Ok(_) => {},
                            Err(m) => {
                                let head = join3("Failed to load nodes from ", dir.as_str(), ": ");
                                let w = join3(head.as_str(), m.as_str(), ". No nodes loaded.");
                                warnings.push(w);
                                assert(warnings.deep_view() =~= seq![w@]);
                            },
                        }
                    },
                }
            },
        }
        self.nodes = nodes;
        self.warnings = warnings;
        Ok(())
    }

    /// All nodes in display order: ascending by lowercase name, nodes with
    /// equal keys in the order of the registry.
    pub fn get_all_nodes(&self) -> (r: Vec<&VaroNode>)
        ensures
            r.deep_view() == sorted_by_name(self@.nodes),
            is_sorted(r.deep_view()),
            r.deep_view().to_multiset() == self@.nodes.to_multiset(),
    {
        let mut entries: Vec<(String, &VaroNode)> = Vec::new();
        let mut i: usize = 0;
        while i < self.nodes.len()
            invariant
                i <= self.nodes.len(),
                entries.len() == i,
                forall|j: int|
                    0 <= j < i ==> #[trigger] entries[j].0@ == sort_key(self.nodes[j]@)
                        && entries[j].1@ == self.nodes[j]@,
            decreases self.nodes.len() - i,
        {
            let node = &self.nodes[i];
            entries.push((lowercase(node.name.as_str()), node));
            i += 1;
        }
        proof {
            assert(entries.deep_view() =~= by_name(self.nodes.deep_view())) by {
                assert forall|j: int| 0 <= j < entries.len() implies entries.deep_view()[j]
                    == by_name(self.nodes.deep_view())[j] by {
                    assert(entries.deep_view()[j] == (entries[j].0@, entries[j].1@));
                    assert(self.nodes.deep_view()[j] == self.nodes[j]@);
                }
            }
            lemma_sorted_by_name(self@.nodes);
        }
        order_by_key(entries)
    }

    /// The node with the given identifier, if any.
    pub fn get_node(&self, id: &str) -> (r: Option<&VaroNode>)
        ensures
            r.deep_view() == node_with_id(self@.nodes, id@),
    {
        let i = node_position(&self.nodes, id);
        if i < self.nodes.len() {
            assert(keyed_nodes(self.nodes.deep_view())[i as int].1 == self.nodes[i as int]@);
            Some(&self.nodes[i])
        } else {
            None
        }
    }

    /// The plan for launching a node without a preset.
    pub fn execute_node(&self, id: &str, system: &EnvMap) -> (r: VaroResult<LaunchPlan>)
        ensures
            match r {
                Ok(p) => execution_of(self@.nodes, id@, None, system@) == Ok::<
                    LaunchPlanModel,
                    VaroErrorModel,
                >(p@),
                Err(e) => execution_of(self@.nodes, id@, None, system@) == Err::<
                    LaunchPlanModel,
                    VaroErrorModel,
                >(e@),
            },
    {
        self.execute_node_with_env_expansion(id, None, system)
    }

    /// The plan for launching a node with the selected preset: what to
    /// start, with which arguments and variables, and whether to wait. An
    /// unknown identifier is a node error; a node without commands is an
    /// execution error.
    pub fn execute_node_with_env_expansion(
        &self,
        id: &str,
        selected_preset: Option<&EnvPreset>,
        system: &EnvMap,
    ) -> (r: VaroResult<LaunchPlan>)
        ensures
            match r {
                Ok(p) => execution_of(self@.nodes, id@, selected_preset.deep_view(), system@)
                    == Ok::<LaunchPlanModel, VaroErrorModel>(p@),
                Err(e) => execution_of(self@.nodes, id@, selected_preset.deep_view(), system@)
                    == Err::<LaunchPlanModel, VaroErrorModel>(e@),
            },
    {
        match self.get_node(id) {
            None => {
                let msg = join2("Node not found: ", id);
                Err(VaroError::node(msg.as_str()))
            },
            Some(node) => plan_node(node, selected_preset, system),
        }
    }

    /// Loads the nodes again with the environment of the given preset.
    pub fn refresh_with_preset(
        &mut self,
        preset: &EnvPreset,
        system: &EnvMap,
        snapshots: &Vec<DirSnapshot>,
    ) -> (r: VaroResult<()>)
        ensures
            r is Ok,
            final(self)@ == loaded_nodes(Some(preset@), system@, snapshots.deep_view()),
            final(self)@.wf(),
    {
        self.load_nodes_from_varo_path_with_preset(Some(preset), system, snapshots)
    }

    /// The number of nodes.
    pub fn get_node_count(&self) -> (r: usize)
        ensures
            r == self@.nodes.len(),
    {
        self.nodes.len()
    }

    /// The warnings of the last load.
    pub fn get_warnings(&self) -> (r: &Vec<String>)
        ensures
            r.deep_view() == self@.warnings,
    {
        &self.warnings
    }

    /// Replaces the icon of the node with the given identifier. Says
    /// whether there is such a node.
    pub fn set_node_icon(&mut self, id: &str, icon: String) -> (r: bool)
        ensures
            r == node_with_id(old(self)@.nodes, id@).is_some(),
            old(self)@.wf() ==> final(self)@.wf(),
            final(self)@.warnings == old(self)@.warnings,
            final(self)@.nodes.len() == old(self)@.nodes.len(),
            forall|i: int|
                0 <= i < old(self)@.nodes.len() ==> final(self)@.nodes[i] == if i == index_of_key(
                    keyed_nodes(old(self)@.nodes),
                    id@,
                ) {
                    VaroNodeModel { icon: icon@, ..old(self)@.nodes[i] }
                } else {
                    old(self)@.nodes[i]
                },
    {
        let ghost before = self@.nodes;
        let i = node_position(&self.nodes, id);
        if i < self.nodes.len() {
            self.nodes[i].icon = icon;
            proof {
                if ids_distinct(before) {
                    assert forall|a: int, b: int| 0 <= a < b < self@.nodes.len() implies self@.nodes[a].id
                        != self@.nodes[b].id by {
                        assert(self@.nodes[a].id == before[a].id);
                        assert(self@.nodes[b].id == before[b].id);
                    }
                }
            }
            true
        } else {
            false
        }
    }

    /// The path of the file that declares a node: what the caller has to
    /// reveal in the file manager.
    pub fn show_node_in_folder(&self, id: &str) -> (r: VaroResult<String>)
        ensures
            match node_with_id(self@.nodes, id@) {
                None => r is Err && r->Err_0@ == node_not_found(id@),
                Some(n) => match n.filepath {
                    Some(path) => r is Ok && r->Ok_0@ == path,
                    None => r is Err && r->Err_0@ == execution_error(
                        "Node has no filepath specified"@,
                    ),
                },
            },
    {
        match self.get_node(id) {
            None => {
                let msg = join2("Node not found: ", id);
                Err(VaroError::node(msg.as_str()))
            },
            Some(node) => match &node.filepath {
                Some(path) => Ok(path.clone()),
                None => Err(VaroError::execution("Node has no filepath specified")),
            },
        }
    }
}

} // verus!
