//! Environment presets: reading them from files and holding the one that is
//! selected.

use vstd::prelude::*;
use crate::collect::{append_all, filter_map, filter_map_first};
use crate::entities::{EnvPreset, EnvPresetModel, EnvVar};
use crate::env::{
    env_vars_of, expand, expand_tokens_with_map, parse_env_vars_from_json, Binding, EnvMap,
};
use crate::errors::{ErrorKind, VaroError, VaroErrorModel, VaroResult};
use crate::hasher::{id_of, normalized, Hasher};
use crate::json::{parse_json, parsed_json, Json, JsonModel};
use crate::source::{
    find_listing, listing_of, DirSnapshot, DirSnapshotModel, Listing, ListingModel, SourceFile,
    SourceFileModel,
};
use crate::text::{has_json_extension, is_json_path, join2, join3, same_text};

verus! {

/// The preset that a parsed file declares. The name is required; the
/// identifier defaults to the one derived from the file's name.
pub open spec fn preset_of_json(j: JsonModel, path: Seq<char>, b: Seq<Binding>) -> Option<
    EnvPresetModel,
> {
    match j.str_at("name"@) {
        Some(name) => Some(
            EnvPresetModel {
                id: match j.str_at("id"@) {
                    Some(id) => id,
                    None => id_of(normalized(path)),
                },
                name,
                filepath: Some(path),
                description: j.str_at("description"@),
                env: match j.get("env"@) {
                    Some(e) => env_vars_of(e, b),
                    None => Seq::empty(),
                },
            },
        ),
        None => None,
    }
}

/// The preset that a file declares, or why it declares none.
pub open spec fn preset_of_file(file: SourceFileModel, b: Seq<Binding>) -> Result<
    EnvPresetModel,
    Seq<char>,
> {
    match file.content {
        None => Err("Failed to read file "@ + file.path),
        Some(text) => match parsed_json(text) {
            Err(e) => Err("Failed to parse JSON in file "@ + file.path + ": "@ + e),
            Ok(j) => match preset_of_json(j, file.path, b) {
                Some(p) => Ok(p),
                None => Err("Missing or invalid 'name' field in "@ + file.path),
            },
        },
    }
}

/// The preset that a directory entry contributes: that of a file with the
/// extension `json` that declares one.
pub open spec fn loaded_preset(file: SourceFileModel, b: Seq<Binding>) -> Option<EnvPresetModel> {
    if is_json_path(file.path) {
        match preset_of_file(file, b) {
            Ok(p) => Some(p),
            Err(_) => None,
        }
    } else {
        None
    }
}

/// The warning that a directory entry contributes: that of a file with the
/// extension `json` that declares no preset.
pub open spec fn preset_warning(file: SourceFileModel, b: Seq<Binding>) -> Option<Seq<char>> {
    if is_json_path(file.path) {
        match preset_of_file(file, b) {
            Ok(_) => None,
            Err(m) => Some(m),
        }
    } else {
        None
    }
}

/// [`loaded_preset`] as a function of the entry.
pub open spec fn loaded_preset_fn(b: Seq<Binding>) -> spec_fn(SourceFileModel) -> Option<
    EnvPresetModel,
> {
    |file: SourceFileModel| loaded_preset(file, b)
}

/// [`preset_warning`] as a function of the entry.
pub open spec fn preset_warning_fn(b: Seq<Binding>) -> spec_fn(SourceFileModel) -> Option<
    Seq<char>,
> {
    |file: SourceFileModel| preset_warning(file, b)
}

/// Why a directory that is not there yields no presets.
pub open spec fn missing_dir_message(dir: Seq<char>) -> Seq<char> {
    "Directory does not exist or is not a directory: "@ + dir
}

/// Why a directory that cannot be read yields no presets.
pub open spec fn unreadable_dir_message(dir: Seq<char>, reason: Seq<char>) -> Seq<char> {
    "Failed to read directory '"@ + dir + "': "@ + reason
}

/// The presets of a directory, or why it has none to give.
pub open spec fn presets_in_dir(dir: Seq<char>, listing: ListingModel, b: Seq<Binding>) -> Result<
    Seq<EnvPresetModel>,
    Seq<char>,
> {
    match listing {
        ListingModel::Missing | ListingModel::NotADirectory => Err(missing_dir_message(dir)),
        ListingModel::Unreadable(reason) => Err(unreadable_dir_message(dir, reason)),
        ListingModel::Entries(files) => Ok(filter_map(files, loaded_preset_fn(b))),
    }
}

/// The warnings of a directory: one for the directory if it cannot be
/// listed, else one for each JSON file in it that declares no preset.
pub open spec fn warnings_in_dir(dir: Seq<char>, listing: ListingModel, b: Seq<Binding>) -> Seq<
    Seq<char>,
> {
    match presets_in_dir(dir, listing, b) {
        Err(m) => seq!["Failed to load presets from '"@ + dir + "': "@ + m],
        Ok(_) => filter_map(listing->Entries_0, preset_warning_fn(b)),
    }
}

/// The directory that an element of `directories` names: a string names
/// one, after expansion against `b`.
pub open spec fn directory_of(item: JsonModel, b: Seq<Binding>) -> Option<Seq<char>> {
    match item.as_str() {
        Some(s) => Some(expand(s, b)),
        None => None,
    }
}

/// [`directory_of`] as a function of the element.
pub open spec fn directory_fn(b: Seq<Binding>) -> spec_fn(JsonModel) -> Option<Seq<char>> {
    |item: JsonModel| directory_of(item, b)
}

/// The directories that a preset configuration names: the strings of its
/// `directories` array, each expanded against `b`. A configuration that is
/// not an object, or has no members, names none.
pub open spec fn preset_directories(config: JsonModel, b: Seq<Binding>) -> Seq<Seq<char>> {
    match config {
        JsonModel::Object(m) => if m.len() == 0 {
            Seq::empty()
        } else {
            match config.get("directories"@) {
                Some(JsonModel::Array(items)) => filter_map(items, directory_fn(b)),
                _ => Seq::empty(),
            }
        },
        _ => Seq::empty(),
    }
}

/// The presets of the first `n` directories, in order.
pub open spec fn presets_of_dirs(
    dirs: Seq<Seq<char>>,
    snapshots: Seq<DirSnapshotModel>,
    b: Seq<Binding>,
    n: nat,
) -> Seq<EnvPresetModel>
    decreases n,
{
    if n == 0 || n > dirs.len() {
        Seq::empty()
    } else {
        let dir = dirs[n - 1];
        presets_of_dirs(dirs, snapshots, b, (n - 1) as nat) + match presets_in_dir(
            dir,
            listing_of(snapshots, dir),
            b,
        ) {
            Ok(p) => p,
            Err(_) => Seq::empty(),
        }
    }
}

/// The warnings of the first `n` directories, in order.
pub open spec fn warnings_of_dirs(
    dirs: Seq<Seq<char>>,
    snapshots: Seq<DirSnapshotModel>,
    b: Seq<Binding>,
    n: nat,
) -> Seq<Seq<char>>
    decreases n,
{
    if n == 0 || n > dirs.len() {
        Seq::empty()
    } else {
        let dir = dirs[n - 1];
        warnings_of_dirs(dirs, snapshots, b, (n - 1) as nat) + warnings_in_dir(
            dir,
            listing_of(snapshots, dir),
            b,
        )
    }
}

/// All presets that a configuration leads to, given what the caller found
/// in its directories.
pub open spec fn configured_presets(
    config: JsonModel,
    snapshots: Seq<DirSnapshotModel>,
    b: Seq<Binding>,
) -> Seq<EnvPresetModel> {
    let dirs = preset_directories(config, b);
    presets_of_dirs(dirs, snapshots, b, dirs.len())
}

/// All warnings that loading the presets of a configuration gives.
pub open spec fn configured_warnings(
    config: JsonModel,
    snapshots: Seq<DirSnapshotModel>,
    b: Seq<Binding>,
) -> Seq<Seq<char>> {
    let dirs = preset_directories(config, b);
    warnings_of_dirs(dirs, snapshots, b, dirs.len())
}

/// The first preset with the given identifier.
pub open spec fn first_with_id(presets: Seq<EnvPresetModel>, id: Seq<char>) -> Option<
    EnvPresetModel,
>
    decreases presets.len(),
{
    if presets.len() == 0 {
        None
    } else if presets[0].id == id {
        Some(presets[0])
    } else {
        first_with_id(presets.skip(1), id)
    }
}

/// Why a selection failed.
pub open spec fn not_found_message(id: Seq<char>) -> Seq<char> {
    "No EnvPreset found with id: "@ + id
}

/// Reads a preset from a parsed file.
pub fn preset_from_json(json: &Json, path: &str, system: &EnvMap) -> (r: Option<EnvPreset>)
    ensures
        r.deep_view() == preset_of_json(json@, path@, system@),
{
    let name = match json.str_at("name") {
        Some(n) => n,
        None => {
            return None;
        },
    };
    let description = json.str_at("description");
    let env = match json.get("env") {
        Some(e) => parse_env_vars_from_json(e, system),
        None => {
            let v: Vec<EnvVar> = Vec::new();
            assert(v.deep_view() =~= Seq::empty());
            v
        },
    };
    let id = match json.str_at("id") {
        Some(i) => i,
        None => Hasher::generate_id_from_path(path),
    };
    Some(EnvPreset { id, name, filepath: Some(String::from_str(path)), description, env })
}

/// Reads a preset from a file, or says why the file declares none.
pub fn parse_env_preset(file: &SourceFile, system: &EnvMap) -> (r: Result<EnvPreset, String>)
    ensures
        match r {
            Ok(p) => preset_of_file(file@, system@) == Ok::<EnvPresetModel, Seq<char>>(p@),
            Err(m) => preset_of_file(file@, system@) == Err::<EnvPresetModel, Seq<char>>(m@),
        },
{
    let path = file.path.as_str();
    match &file.content {
        None => Err(join2("Failed to read file ", path)),
        Some(text) => match parse_json(text.as_str()) {
            Err(e) => {
                let head = join3("Failed to parse JSON in file ", path, ": ");
                Err(join2(head.as_str(), e.as_str()))
            },
            Ok(json) => match preset_from_json(&json, path, system) {
                Some(p) => Ok(p),
                None => Err(join2("Missing or invalid 'name' field in ", path)),
            },
        },
    }
}

/// Reads a preset from a file, if it declares one.
pub fn load_env_preset_from_file(file: &SourceFile, system: &EnvMap) -> (r: Option<EnvPreset>)
    ensures
        r.deep_view() == match preset_of_file(file@, system@) {
            Ok(p) => Some(p),
            Err(_) => None,
        },
{
    match parse_env_preset(file, system) {
        Ok(p) => Some(p),
        Err(_) => None,
    }
}

/// The presets and the warnings that the entries of a directory give.
#[derive(Debug, PartialEq, Eq)]
pub struct PresetScan {
    pub presets: Vec<EnvPreset>,
    pub warnings: Vec<String>,
}

/// Reads the presets of the JSON files among the entries. A file that
/// declares no preset gives a warning and does not stop the others.
pub fn scan_preset_files(files: &Vec<SourceFile>, system: &EnvMap) -> (r: PresetScan)
    ensures
        r.presets.deep_view() == filter_map(files.deep_view(), loaded_preset_fn(system@)),
        r.warnings.deep_view() == filter_map(files.deep_view(), preset_warning_fn(system@)),
{
    let mut presets: Vec<EnvPreset> = Vec::new();
    let mut warnings: Vec<String> = Vec::new();
    let mut i: usize = 0;
    assert(presets.deep_view() =~= Seq::<EnvPresetModel>::empty());
    assert(warnings.deep_view() =~= Seq::<Seq<char>>::empty());
    while i < files.len()
        invariant
            i <= files.len(),
            presets.deep_view() == filter_map_first(
                files.deep_view(),
                loaded_preset_fn(system@),
                i as nat,
            ),
            warnings.deep_view() == filter_map_first(
                files.deep_view(),
                preset_warning_fn(system@),
                i as nat,
            ),
        decreases files.len() - i,
    {
        let ghost presets_before = presets.deep_view();
        let ghost warnings_before = warnings.deep_view();
        assert(files.deep_view()[i as int] == files[i as int]@);
        if has_json_extension(files[i].path.as_str()) {
            match parse_env_preset(&files[i], system) {
                Ok(p) => {
                    presets.push(p);
                    assert(presets.deep_view() =~= presets_before.push(p@));
                },
                Err(m) => {
                    warnings.push(m);
                    assert(warnings.deep_view() =~= warnings_before.push(m@));
                },
            }
        }
        i += 1;
    }
    PresetScan { presets, warnings }
}

/// The presets of a directory. Fails if the directory is not there or
/// cannot be read; files in it that declare no preset are passed over.
pub fn load_env_presets_in_dir(dir_path: &str, listing: &Listing, system: &EnvMap) -> (r: Result<
    Vec<EnvPreset>,
    String,
>)
    ensures
        match r {
            Ok(p) => presets_in_dir(dir_path@, listing@, system@) == Ok::<
                Seq<EnvPresetModel>,
                Seq<char>,
            >(p.deep_view()),
            Err(m) => presets_in_dir(dir_path@, listing@, system@) == Err::<
                Seq<EnvPresetModel>,
                Seq<char>,
            >(m@),
        },
{
    match listing {
        Listing::Missing | Listing::NotADirectory => Err(
            join2("Directory does not exist or is not a directory: ", dir_path),
        ),
        Listing::Unreadable(reason) => {
            let head = join3("Failed to read directory '", dir_path, "': ");
            Err(join2(head.as_str(), reason.as_str()))
        },
        Listing::Entries(files) => Ok(scan_preset_files(files, system).presets),
    }
}

/// The model of a [`PresetManager`]: its presets, the selected one, and the warnings
/// of the last load.
pub ghost struct PresetManagerModel {
    pub presets: Seq<EnvPresetModel>,
    pub selected: Option<EnvPresetModel>,
    pub warnings: Seq<Seq<char>>,
}

impl PresetManagerModel {
    /// A selection always names a preset that is there.
    pub open spec fn wf(self) -> bool {
        match self.selected {
            Some(s) => first_with_id(self.presets, s.id).is_some(),
            None => true,
        }
    }
}

/// The registry of presets, with at most one of them selected.
pub struct PresetManager {
    presets: Vec<EnvPreset>,
    selected_preset: Option<EnvPreset>,
    warnings: Vec<String>,
}

impl View for PresetManager {
    type V = PresetManagerModel;

    closed spec fn view(&self) -> PresetManagerModel {
        PresetManagerModel {
            presets: self.presets.deep_view(),
            selected: self.selected_preset.deep_view(),
            warnings: self.warnings.deep_view(),
        }
    }
}

impl PresetManager {
    /// A registry with the presets that the configuration leads to and
    /// nothing selected.
    pub fn new(env_presets_config: &Json, snapshots: &Vec<DirSnapshot>, system: &EnvMap) -> (r:
        VaroResult<Self>)
        ensures
            r is Ok,
            r->Ok_0@ == (PresetManagerModel {
                presets: configured_presets(
                    env_presets_config@,
                    snapshots.deep_view(),
                    system@,
                ),
                selected: None,
                warnings: configured_warnings(
                    env_presets_config@,
                    snapshots.deep_view(),
                    system@,
                ),
            }),
            r->Ok_0@.wf(),
    {
        let scan = Self::scan_configured(env_presets_config, snapshots, system);
        Ok(PresetManager { presets: scan.presets, selected_preset: None, warnings: scan.warnings })
    }

    /// A registry without presets.
    pub fn empty() -> (r: Self)
        ensures
            r@ == (PresetManagerModel {
                presets: Seq::empty(),
                selected: None,
                warnings: Seq::empty(),
            }),
            r@.wf(),
    {
        let r = PresetManager {
            presets: Vec::new(),
            selected_preset: None,
            warnings: Vec::new(),
        };
        assert(r.presets.deep_view() =~= Seq::empty());
        assert(r.warnings.deep_view() =~= Seq::empty());
        r
    }

    /// Copies of all presets, in the order in which they were found.
    pub fn get_all_presets(&self) -> (r: Vec<EnvPreset>)
        ensures
            r.deep_view() == self@.presets,
    {
        let mut out: Vec<EnvPreset> = Vec::new();
        let mut i: usize = 0;
        while i < self.presets.len()
            invariant
                i <= self.presets.len(),
                out.len() == i,
                forall|j: int| 0 <= j < i ==> out@[j]@ == self.presets@[j]@,
            decreases self.presets.len() - i,
        {
            out.push(self.presets[i].clone());
            i += 1;
        }
        assert(out.deep_view() =~= self.presets.deep_view());
        out
    }

    /// The index of the first preset with the given identifier.
    fn position(&self, id: &str) -> (r: Option<usize>)
        ensures
            match r {
                Some(i) => i < self.presets.len() && first_with_id(self@.presets, id@) == Some(
                    self.presets@[i as int]@,
                ),
                None => first_with_id(self@.presets, id@) is None,
            },
    {
        let mut i: usize = 0;
        assert(self@.presets.skip(0) =~= self@.presets);
        while i < self.presets.len()
            invariant
                i <= self.presets.len(),
                first_with_id(self@.presets, id@) == first_with_id(
                    self@.presets.skip(i as int),
                    id@,
                ),
            decreases self.presets.len() - i,
        {
            let ghost rest = self@.presets.skip(i as int);
            assert(rest[0] == self.presets@[i as int]@);
            assert(rest.skip(1) =~= self@.presets.skip(i + 1));
            if same_text(self.presets[i].id.as_str(), id) {
                return Some(i);
            }
            i += 1;
        }
        None
    }

    /// The first preset with the given identifier, if any.
    pub fn get_preset(&self, id: &str) -> (r: Option<&EnvPreset>)
        ensures
            r.deep_view() == first_with_id(self@.presets, id@),
    {
        match self.position(id) {
            Some(i) => Some(&self.presets[i]),
            None => None,
        }
    }

    /// Selects the preset with the given identifier. If there is none, the
    /// call fails and the earlier selection stays.
    pub fn select_preset(&mut self, id: &str) -> (r: VaroResult<()>)
        ensures
            final(self)@.presets == old(self)@.presets,
            final(self)@.warnings == old(self)@.warnings,
            match first_with_id(old(self)@.presets, id@) {
                Some(p) => r is Ok && final(self)@.selected == Some(p),
                None => r is Err && final(self)@.selected == old(self)@.selected && r->Err_0@ == (
                VaroErrorModel { kind: ErrorKind::EnvPreset, message: not_found_message(id@) }),
            },
            old(self)@.wf() ==> final(self)@.wf(),
            r is Ok ==> final(self)@.wf(),
    {
        match self.position(id) {
            Some(i) => {
                self.selected_preset = Some(self.presets[i].clone());
                proof {
                    lemma_first_with_id_has_id(self@.presets, id@);
                }
                Ok(())
            },
            None => {
                let msg = join2("No EnvPreset found with id: ", id);
                Err(VaroError::env_preset(msg.as_str()))
            },
        }
    }

    /// The selected preset, if any.
    pub fn get_selected_preset(&self) -> (r: Option<&EnvPreset>)
        ensures
            r.deep_view() == self@.selected,
    {
        self.selected_preset.as_ref()
    }

    /// The warnings of the last load.
    pub fn get_warnings(&self) -> (r: &Vec<String>)
        ensures
            r.deep_view() == self@.warnings,
    {
        &self.warnings
    }

    /// The directories that the configuration names, expanded against the
    /// system environment: what the caller has to list before a load.
    pub fn preset_directories(env_presets_config: &Json, system: &EnvMap) -> (r: Vec<String>)
        ensures
            r.deep_view() == preset_directories(env_presets_config@, system@),
    {
        let mut out: Vec<String> = Vec::new();
        assert(out.deep_view() =~= Seq::<Seq<char>>::empty());
        let members = match env_presets_config.as_object() {
            Some(m) => m,
            None => {
                return out;
            },
        };
        if members.len() == 0 {
            return out;
        }
        let items = match env_presets_config.get("directories") {
            Some(d) => match d.as_array() {
                Some(items) => items,
                None => {
                    return out;
                },
            },
            None => {
                return out;
            },
        };
        let mut i: usize = 0;
        while i < items.len()
            invariant
                i <= items.len(),
                out.deep_view() == filter_map_first(
                    items.deep_view(),
                    directory_fn(system@),
                    i as nat,
                ),
            decreases items.len() - i,
        {
            let ghost before = out.deep_view();
            assert(items.deep_view()[i as int] == items[i as int]@);
            match items[i].as_str() {
                Some(s) => {
                    let dir = expand_tokens_with_map(s.as_str(), system);
                    out.push(dir);
                    assert(out.deep_view() =~= before.push(dir@));
                },
                None => {},
            }
            i += 1;
        }
        out
    }

    /// Reads the presets of every directory that the configuration names.
    /// A directory that cannot be listed, or a file that declares no
    /// preset, gives a warning and does not stop the others.
    pub fn scan_configured(
        env_presets_config: &Json,
        snapshots: &Vec<DirSnapshot>,
        system: &EnvMap,
    ) -> (r: PresetScan)
        ensures
            r.presets.deep_view() == configured_presets(
                env_presets_config@,
                snapshots.deep_view(),
                system@,
            ),
            r.warnings.deep_view() == configured_warnings(
                env_presets_config@,
                snapshots.deep_view(),
                system@,
            ),
    {
        let dirs = Self::preset_directories(env_presets_config, system);
        let mut presets: Vec<EnvPreset> = Vec::new();
        let mut warnings: Vec<String> = Vec::new();
        assert(presets.deep_view() =~= Seq::<EnvPresetModel>::empty());
        assert(warnings.deep_view() =~= Seq::<Seq<char>>::empty());
        let mut i: usize = 0;
        while i < dirs.len()
            invariant
                i <= dirs.len(),
                presets.deep_view() == presets_of_dirs(
                    dirs.deep_view(),
                    snapshots.deep_view(),
                    system@,
                    i as nat,
                ),
                warnings.deep_view() == warnings_of_dirs(
                    dirs.deep_view(),
                    snapshots.deep_view(),
                    system@,
                    i as nat,
                ),
            decreases dirs.len() - i,
        {
            let dir = dirs[i].as_str();
            assert(dirs.deep_view()[i as int] == dir@);
            let ghost presets_before = presets.deep_view();
            let ghost warnings_before = warnings.deep_view();
            let missing = Listing::Missing;
            let listing = match find_listing(snapshots, dir) {
                Some(l) => l,
                None => &missing,
            };
            match listing {
                Listing::Entries(files) => {
                    let scan = scan_preset_files(files, system);
                    append_all(&mut presets, scan.presets);
                    append_all(&mut warnings, scan.warnings);
                },
                _ => {
                    match load_env_presets_in_dir(dir, listing, system) {
                        Ok(_) => {},
                        Err(m) => {
                            let head = join3("Failed to load presets from '", dir, "': ");
                            let w = join2(head.as_str(), m.as_str());
                            warnings.push(w);
                            assert(warnings.deep_view() =~= warnings_before + seq![w@]);
                        },
                    }
                    assert(presets.deep_view() =~= presets_before + Seq::empty());
                },
            }
            i += 1;
        }
        PresetScan { presets, warnings }
    }

    /// The presets that the configuration leads to.
    pub fn load_presets_from_env_config(
        env_presets_config: &Json,
        snapshots: &Vec<DirSnapshot>,
        system: &EnvMap,
    ) -> (r: VaroResult<Vec<EnvPreset>>)
        ensures
            r is Ok,
            r->Ok_0.deep_view() == configured_presets(
                env_presets_config@,
                snapshots.deep_view(),
                system@,
            ),
    {
        Ok(Self::scan_configured(env_presets_config, snapshots, system).presets)
    }

    /// Loads the presets again. A selection whose identifier is no longer
    /// among the presets is cleared; one whose identifier is still there
    /// stays as it was.
    pub fn reload(
        &mut self,
        env_presets_config: &Json,
        snapshots: &Vec<DirSnapshot>,
        system: &EnvMap,
    ) -> (r: VaroResult<()>)
        ensures
            r is Ok,
            final(self)@.presets == configured_presets(
                env_presets_config@,
                snapshots.deep_view(),
                system@,
            ),
            final(self)@.warnings == configured_warnings(
                env_presets_config@,
                snapshots.deep_view(),
                system@,
            ),
            final(self)@.selected == match old(self)@.selected {
                Some(s) => if first_with_id(final(self)@.presets, s.id).is_some() {
                    Some(s)
                } else {
                    None
                },
                None => None,
            },
            final(self)@.wf(),
    {
        let scan = Self::scan_configured(env_presets_config, snapshots, system);
        self.presets = scan.presets;
        self.warnings = scan.warnings;
        let keep = match &self.selected_preset {
            Some(selected) => self.position(selected.id.as_str()).is_some(),
            None => true,
        };
        if !keep {
            self.selected_preset = None;
        }
        Ok(())
    }
}

/// The preset found for an identifier has that identifier.
pub proof fn lemma_first_with_id_has_id(presets: Seq<EnvPresetModel>, id: Seq<char>)
    ensures
        first_with_id(presets, id) matches Some(p) ==> p.id == id,
    decreases presets.len(),
{
    if presets.len() > 0 && presets[0].id != id {
        lemma_first_with_id_has_id(presets.skip(1), id);
    }
}

/// The presets that a whole configuration leads to: those of the
/// directories that its `env_presets` section names.
pub open spec fn presets_of_config(
    config: JsonModel,
    snapshots: Seq<DirSnapshotModel>,
    b: Seq<Binding>,
) -> Seq<EnvPresetModel> {
    match config.get("env_presets"@) {
        Some(section) => configured_presets(section, snapshots, b),
        None => Seq::empty(),
    }
}

/// Loads the presets of the directories that the `env_presets` section of
/// a configuration names. A directory that cannot be listed is passed
/// over.
pub fn load_env_presets_from_config(
    config: &Json,
    snapshots: &Vec<DirSnapshot>,
    system: &EnvMap,
) -> (r: Vec<EnvPreset>)
    ensures
        r.deep_view() == presets_of_config(config@, snapshots.deep_view(), system@),
{
    match config.get("env_presets") {
        Some(section) => PresetManager::scan_configured(section, snapshots, system).presets,
        None => {
            let v: Vec<EnvPreset> = Vec::new();
            assert(v.deep_view() =~= Seq::empty());
            v
        },
    }
}

} // verus!
