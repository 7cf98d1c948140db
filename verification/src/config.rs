//! The layered configuration: a default tree, deep-merged with overrides.

use vstd::prelude::*;
use crate::env::{expand_tree, resolve_env_vars_recursive, EnvMap};
use crate::errors::VaroResult;
use crate::json::{
    lemma_array_view, lemma_object_view, parse_json, parsed_json, well_keyed, Json, JsonModel,
    Member,
};
use crate::keyed::{
    index_of_key, keys_distinct, lemma_index_of_key_bounds, lemma_index_of_key_is,
    lemma_value_set_other, lemma_value_set_same, set_key, value_at_key,
};
use crate::text::same_text;

verus! {

/// `over` laid over `base`: where both are objects, each member of `over`
/// is merged into the member of `base` with the same key, or added if
/// `base` has none; anywhere else `over` replaces `base` wholesale, arrays
/// included.
pub open spec fn merge(base: JsonModel, over: JsonModel) -> JsonModel
    decreases over, 0nat,
{
    match (base, over) {
        (JsonModel::Object(b), JsonModel::Object(o)) => JsonModel::Object(
            merge_members(b, o, o.len()),
        ),
        _ => over,
    }
}

/// The members of `b` after the first `n` members of `o` have been merged
/// in, in order.
pub open spec fn merge_members(b: Seq<Member>, o: Seq<Member>, n: nat) -> Seq<Member>
    decreases o, n,
{
    if n == 0 || n > o.len() {
        b
    } else {
        let prev = merge_members(b, o, (n - 1) as nat);
        let key = o[n - 1].0;
        let earlier = match value_at_key(prev, key) {
            Some(v) => v,
            None => JsonModel::Null,
        };
        set_key(prev, key, merge(earlier, o[n - 1].1))
    }
}

/// Deep-merges `overrides` into `base`.
pub fn merge_configs(base: &mut Json, overrides: &Json)
    ensures
        final(base)@ == merge(old(base)@, overrides@),
    decreases overrides,
{
    match overrides {
        Json::Object(over_members) => {
            if let Json::Object(base_members) = base {
                proof {
                    lemma_object_view(*over_members);
                    lemma_object_view(*base_members);
                }
                let ghost before = base_members.deep_view();
                let mut i: usize = 0;
                while i < over_members.len()
                    invariant
                        i <= over_members.len(),
                        forall|n: int|
                            0 <= n < over_members.len() ==> decreases_to!(*overrides => over_members[n].1),
                        base_members.deep_view() == merge_members(
                            before,
                            over_members.deep_view(),
                            i as nat,
                        ),
                    decreases over_members.len() - i,
                {
                    let key = &over_members[i].0;
                    let ghost prev = base_members.deep_view();
                    let mut k: usize = 0;
                    while k < base_members.len() && !same_text(
                        base_members[k].0.as_str(),
                        key.as_str(),
                    )
                        invariant
                            k <= base_members.len(),
                            forall|j: int| 0 <= j < k ==> base_members.deep_view()[j].0 != key@,
                        decreases base_members.len() - k,
                    {
                        k += 1;
                    }
                    proof {
                        lemma_index_of_key_is(prev, key@, k as int);
                    }
                    if k < base_members.len() {
                        merge_configs(&mut base_members[k].1, &over_members[i].1);
                    } else {
                        base_members.push((key.clone(), over_members[i].1.duplicate()));
                    }
                    i += 1;
                    proof {
                        let o = over_members.deep_view();
                        assert(o[i - 1] == (key@, over_members[i - 1].1@));
                        let earlier = match value_at_key(prev, key@) {
                            Some(v) => v,
                            None => JsonModel::Null,
                        };
                        assert(base_members.deep_view() =~= set_key(
                            prev,
                            key@,
                            merge(earlier, o[i - 1].1),
                        ));
                    }
                }
                proof {
                    lemma_object_view(*base_members);
                }
            } else {
                *base = overrides.duplicate();
            }
        },
        _ => {
            *base = overrides.duplicate();
        },
    }
}

/// The value of a member, or `null` where there is no such member.
pub open spec fn member_or_null(m: Seq<Member>, key: Seq<char>) -> JsonModel {
    match value_at_key(m, key) {
        Some(v) => v,
        None => JsonModel::Null,
    }
}

/// What a key carries after the first `n` members of `o` have been merged
/// into `b`, when no key occurs twice in `o`: if one of those members has
/// the key, its value merged over what `b` had for the key; else what `b`
/// had.
pub proof fn lemma_merge_members_value(b: Seq<Member>, o: Seq<Member>, n: nat, key: Seq<char>)
    requires
        keys_distinct(o),
        n <= o.len(),
    ensures
        value_at_key(merge_members(b, o, n), key) == if index_of_key(o, key) < n {
            Some(merge(member_or_null(b, key), o[index_of_key(o, key)].1))
        } else {
            value_at_key(b, key)
        },
    decreases n,
{
    lemma_index_of_key_bounds(o, key);
    if n > 0 {
        lemma_merge_members_value(b, o, (n - 1) as nat, key);
        let prev = merge_members(b, o, (n - 1) as nat);
        let k = o[n - 1].0;
        let merged = merge(member_or_null(prev, k), o[n - 1].1);
        if k == key {
            lemma_index_of_key_is(o, key, n - 1);
            lemma_value_set_same(prev, k, merged);
        } else {
            lemma_value_set_other(prev, k, merged, key);
        }
    }
}

/// Deep merge, member by member: for two objects, where the overriding one
/// has no key twice, a key of the override carries its value merged over
/// what the base had for it, and every other key carries what the base
/// had. Siblings that the override does not name are untouched.
pub proof fn lemma_merge_member(base: JsonModel, over: JsonModel, key: Seq<char>)
    requires
        base is Object,
        over is Object,
        keys_distinct(over->Object_0),
    ensures
        merge(base, over).get(key) == match over.get(key) {
            Some(v) => Some(merge(member_or_null(base->Object_0, key), v)),
            None => base.get(key),
        },
{
    let o = over->Object_0;
    lemma_index_of_key_bounds(o, key);
    lemma_merge_members_value(base->Object_0, o, o.len(), key);
}

/// The object without members.
pub open spec fn empty_object_model() -> JsonModel {
    JsonModel::Object(Seq::empty())
}

/// The built-in configuration that every load starts from.
pub open spec fn default_config_model() -> JsonModel {
    JsonModel::Object(
        seq![
            (
                "env_presets"@,
                JsonModel::Object(
                    seq![
                        ("default_id"@, JsonModel::Null),
                        ("directories"@, JsonModel::Array(Seq::empty())),
                    ],
                ),
            ),
            (
                "ui"@,
                JsonModel::Object(
                    seq![
                        ("dark_mode"@, JsonModel::Bool(true)),
                        ("show_categories"@, JsonModel::Bool(true)),
                        ("show_groups"@, JsonModel::Bool(false)),
                        ("show_hidden_nodes"@, JsonModel::Bool(false)),
                    ],
                ),
            ),
        ],
    )
}

/// The override that the content of a configuration file stands for: the
/// tree it parses to, or an object without members where there is no
/// content or it is not JSON.
pub open spec fn override_of(content: Option<Seq<char>>) -> JsonModel {
    match content {
        Some(text) => match parsed_json(text) {
            Ok(tree) => tree,
            Err(_) => empty_object_model(),
        },
        None => empty_object_model(),
    }
}

/// The default configuration with the file that the environment points to
/// merged over it, and the user's file merged over both.
pub open spec fn merged_config(
    env_file: Option<Seq<char>>,
    user_file: Option<Seq<char>>,
) -> JsonModel {
    merge(merge(default_config_model(), override_of(env_file)), override_of(user_file))
}

/// The object without members.
pub fn empty_object() -> (r: Json)
    ensures
        r@ == empty_object_model(),
{
    let members: Vec<(String, Json)> = Vec::new();
    proof {
        lemma_object_view(members);
        assert(members.deep_view() =~= Seq::<Member>::empty());
    }
    Json::Object(members)
}

/// An object with the given members.
fn object_of(members: Vec<(String, Json)>) -> (r: Json)
    ensures
        r@ == JsonModel::Object(members.deep_view()),
{
    proof {
        lemma_object_view(members);
    }
    Json::Object(members)
}

/// The built-in configuration: no preset directories, no default preset,
/// and the interface flags.
pub fn default_config() -> (r: Json)
    ensures
        r@ == default_config_model(),
{
    let directories: Vec<Json> = Vec::new();
    proof {
        lemma_array_view(directories);
        assert(directories.deep_view() =~= Seq::<JsonModel>::empty());
    }
    let mut presets: Vec<(String, Json)> = Vec::new();
    presets.push(("default_id".to_string(), Json::Null));
    presets.push(("directories".to_string(), Json::Array(directories)));
    assert(presets.deep_view() =~= seq![
        ("default_id"@, JsonModel::Null),
        ("directories"@, JsonModel::Array(Seq::empty())),
    ]);
    let mut ui: Vec<(String, Json)> = Vec::new();
    ui.push(("dark_mode".to_string(), Json::Bool(true)));
    ui.push(("show_categories".to_string(), Json::Bool(true)));
    ui.push(("show_groups".to_string(), Json::Bool(false)));
    ui.push(("show_hidden_nodes".to_string(), Json::Bool(false)));
    assert(ui.deep_view() =~= seq![
        ("dark_mode"@, JsonModel::Bool(true)),
        ("show_categories"@, JsonModel::Bool(true)),
        ("show_groups"@, JsonModel::Bool(false)),
        ("show_hidden_nodes"@, JsonModel::Bool(false)),
    ]);
    let presets_tree = object_of(presets);
    let ui_tree = object_of(ui);
    let mut root: Vec<(String, Json)> = Vec::new();
    root.push(("env_presets".to_string(), presets_tree));
    root.push(("ui".to_string(), ui_tree));
    assert(root.deep_view() =~= seq![("env_presets"@, presets_tree@), ("ui"@, ui_tree@)]);
    object_of(root)
}

/// The override that the content of a configuration file stands for. A
/// file that is missing or is not JSON counts as an object without members.
/// No object of the override holds a key twice, so what
/// [`lemma_merge_member`] says of a merge holds of it.
pub fn load_config_file(content: Option<&str>) -> (r: Json)
    ensures
        r@ == override_of(content.deep_view()),
        well_keyed(r@),
        r@ is Object ==> keys_distinct(r@->Object_0),
{
    match content {
        Some(text) => match parse_json(text) {
            Ok(tree) => tree,
            Err(_) => empty_object(),
        },
        None => empty_object(),
    }
}

/// Builds the configuration from its three layers: the default, then the
/// file that the environment points to, then the user's file. A later
/// layer wins: where the user's file is an object laid over an object,
/// each of its keys carries its value merged over what was there, and
/// every other key carries what was there.
pub fn load_config(env_file: Option<&str>, user_file: Option<&str>) -> (r: Json)
    ensures
        r@ == merged_config(env_file.deep_view(), user_file.deep_view()),
        ({
            let base = merge(default_config_model(), override_of(env_file.deep_view()));
            let over = override_of(user_file.deep_view());
            base is Object && over is Object ==> forall|key: Seq<char>| #[trigger]
                r@.get(key) == match over.get(key) {
                    Some(v) => Some(merge(member_or_null(base->Object_0, key), v)),
                    None => base.get(key),
                }
        }),
{
    let mut config = default_config();
    let env_override = load_config_file(env_file);
    merge_configs(&mut config, &env_override);
    let user_override = load_config_file(user_file);
    let ghost base = config@;
    merge_configs(&mut config, &user_override);
    proof {
        if base is Object && user_override@ is Object {
            assert forall|key: Seq<char>| #[trigger]
                config@.get(key) == match user_override@.get(key) {
                    Some(v) => Some(merge(member_or_null(base->Object_0, key), v)),
                    None => base.get(key),
                } by {
                lemma_merge_member(base, user_override@, key);
            }
        }
    }
    config
}

/// Holds the configuration tree, with every placeholder that the system
/// environment binds resolved.
pub struct ConfigManager {
    config: Json,
}

impl View for ConfigManager {
    type V = JsonModel;

    closed spec fn view(&self) -> JsonModel {
        self.config@
    }
}

impl ConfigManager {
    /// Loads the configuration from its layers and resolves placeholders
    /// against the system environment. Never fails: a missing or malformed
    /// file is an empty override.
    pub fn load(env_file: Option<&str>, user_file: Option<&str>, system: &EnvMap) -> (r:
        VaroResult<Self>)
        ensures
            r is Ok,
            r->Ok_0@ == expand_tree(
                merged_config(env_file.deep_view(), user_file.deep_view()),
                system@,
            ),
    {
        let mut config = Self::load_merged_config(env_file, user_file);
        resolve_env_vars_recursive(&mut config, system);
        Ok(ConfigManager { config })
    }

    /// A manager whose configuration is an object without members.
    pub fn empty() -> (r: Self)
        ensures
            r@ == empty_object_model(),
    {
        ConfigManager { config: empty_object() }
    }

    /// A copy of the configuration.
    pub fn get_config(&self) -> (r: Json)
        ensures
            r@ == self@,
    {
        self.config.duplicate()
    }

    /// A copy of the subtree at a top-level key, or an object without
    /// members if the key is absent.
    pub fn get_section(&self, section: &str) -> (r: Json)
        ensures
            r@ == match self@.get(section@) {
                Some(v) => v,
                None => empty_object_model(),
            },
    {
        match self.config.get(section) {
            Some(v) => v.duplicate(),
            None => empty_object(),
        }
    }

    /// Runs the whole load again and replaces the configuration with its
    /// result.
    pub fn reload(&mut self, env_file: Option<&str>, user_file: Option<&str>, system: &EnvMap) -> (r:
        VaroResult<()>)
        ensures
            r is Ok,
            final(self)@ == expand_tree(
                merged_config(env_file.deep_view(), user_file.deep_view()),
                system@,
            ),
    {
        let mut config = Self::load_merged_config(env_file, user_file);
        resolve_env_vars_recursive(&mut config, system);
        self.config = config;
        Ok(())
    }

    /// The built-in configuration.
    pub fn default_config() -> (r: Json)
        ensures
            r@ == default_config_model(),
    {
        default_config()
    }

    /// The three layers merged, placeholders not yet resolved.
    pub fn load_merged_config(env_file: Option<&str>, user_file: Option<&str>) -> (r: Json)
        ensures
            r@ == merged_config(env_file.deep_view(), user_file.deep_view()),
    {
        load_config(env_file, user_file)
    }
}

} // verus!
