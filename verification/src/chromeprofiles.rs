//! Profile discovery and preference-document parsing.
//!
//! The index document ("Local State") enumerates profile identifiers under
//! `profile.info_cache`; each profile directory holds a preference
//! document with the profile's display name under `profile.name` and its
//! extension settings under `extensions.settings`.
//!
//! Parsing is defensive: only the presence of `profile` (with a string
//! `name`) and of `extensions.settings` as objects is required. Every
//! other field resolves to `None` when absent, `null`, or of the wrong
//! type, and a settings entry whose value is not an object is skipped
//! rather than failing the profile (per-entry leniency). A batch load is
//! strict: the first profile that fails to read or parse aborts the whole
//! batch.

use vstd::prelude::*;

use crate::json::{spec_parse_json, parse_json, JsonModel, JsonValue};
use crate::util::{spec_matches_filter, MatchesFilter, SafeValue};

verus! {

broadcast use vstd::std_specs::vec::group_vec_axioms, vstd::seq::group_seq_axioms;

// ---------------------------------------------------------------------------
// Records and their models
// ---------------------------------------------------------------------------
/// Model of a manifest record.
pub ghost struct ManifestModel {
    pub description: Option<Seq<char>>,
    pub manifest_version: Option<i32>,
    pub name: Seq<char>,
    pub version: Seq<char>,
    pub version_name: Option<Seq<char>>,
}

/// An extension's self-declared metadata. `name` and `version` default to
/// the empty string when missing, rather than failing the profile.
#[derive(Debug, PartialEq)]
pub struct GoogleChromeExtensionManifestData {
    pub description: Option<String>,
    pub manifest_version: Option<i32>,
    pub name: String,
    pub version: String,
    pub version_name: Option<String>,
}

impl DeepView for GoogleChromeExtensionManifestData {
    type V = ManifestModel;

    open spec fn deep_view(&self) -> ManifestModel {
        ManifestModel {
            description: self.description.deep_view(),
            manifest_version: self.manifest_version,
            name: self.name@,
            version: self.version@,
            version_name: self.version_name.deep_view(),
        }
    }
}

/// A service worker registration's version record.
#[derive(Debug, PartialEq)]
pub struct ServiceWorkerRegistrationInfoData {
    pub version: String,
}

/// A settings entry kept with its manifest as a raw document tree, for
/// callers that want the manifest untyped.
#[derive(Debug, PartialEq)]
pub struct ChomeUserExtension {
    pub manifest: JsonValue,
}

/// Model of an extension record.
pub ghost struct ExtensionModel {
    pub active_bit: Option<bool>,
    pub first_install_time: Option<Seq<char>>,
    pub from_webstore: Option<bool>,
    pub last_update_time: Option<Seq<char>>,
    pub manifest: Option<ManifestModel>,
    pub state: Option<i32>,
    pub was_installed_by_default: Option<bool>,
    pub was_installed_by_oem: Option<bool>,
    pub withholding_permissions: Option<bool>,
}

/// One entry of a profile's extension settings. Every field is optional:
/// absence never fails a parse.
#[derive(Debug, PartialEq)]
pub struct GoogleChromeExtensionData {
    pub active_bit: Option<bool>,
    pub first_install_time: Option<String>,
    pub from_webstore: Option<bool>,
    pub last_update_time: Option<String>,
    pub manifest: Option<GoogleChromeExtensionManifestData>,
    pub state: Option<i32>,
    pub was_installed_by_default: Option<bool>,
    pub was_installed_by_oem: Option<bool>,
    pub withholding_permissions: Option<bool>,
}

impl DeepView for GoogleChromeExtensionData {
    type V = ExtensionModel;

    open spec fn deep_view(&self) -> ExtensionModel {
        ExtensionModel {
            active_bit: self.active_bit,
            first_install_time: self.first_install_time.deep_view(),
            from_webstore: self.from_webstore,
            last_update_time: self.last_update_time.deep_view(),
            manifest: self.manifest.deep_view(),
            state: self.state,
            was_installed_by_default: self.was_installed_by_default,
            was_installed_by_oem: self.was_installed_by_oem,
            withholding_permissions: self.withholding_permissions,
        }
    }
}

/// A profile's extension settings: identifier/record pairs in document
/// order.
#[derive(Debug, PartialEq)]
pub struct Extensions {
    pub settings: Vec<(String, GoogleChromeExtensionData)>,
}

/// A profile's display-name record.
#[derive(Debug, PartialEq)]
pub struct ChomeUserProfile {
    pub name: String,
}

/// One parsed preference document.
#[derive(Debug, PartialEq)]
pub struct ChomeUserPreferences {
    pub profile: ChomeUserProfile,
    pub extensions: Extensions,
}

/// Model of a preference document.
pub ghost struct PreferencesModel {
    pub name: Seq<char>,
    pub settings: Seq<(Seq<char>, ExtensionModel)>,
}

impl DeepView for ChomeUserPreferences {
    type V = PreferencesModel;

    open spec fn deep_view(&self) -> PreferencesModel {
        PreferencesModel {
            name: self.profile.name@,
            settings: self.extensions.settings.deep_view(),
        }
    }
}

// ---------------------------------------------------------------------------
// Errors
// ---------------------------------------------------------------------------
/// Model of a discovery or load error.
pub ghost enum ProfileErrorModel {
    IoFailure(Seq<char>),
    ParseFailure(Seq<char>),
}

/// Why discovery or loading failed: the file could not be read, or its
/// text is not a well-formed document of the required shape.
#[derive(Debug, PartialEq)]
pub enum ProfileError {
    IoFailure(String),
    ParseFailure(String),
}

impl DeepView for ProfileError {
    type V = ProfileErrorModel;

    open spec fn deep_view(&self) -> ProfileErrorModel {
        match self {
            ProfileError::IoFailure(m) => ProfileErrorModel::IoFailure(m@),
            ProfileError::ParseFailure(m) => ProfileErrorModel::ParseFailure(m@),
        }
    }
}

impl ProfileError {
    /// A human-readable description of the error.
    pub fn message(&self) -> (r: &String)
        ensures
            match self {
                ProfileError::IoFailure(m) => r@ == m@,
                ProfileError::ParseFailure(m) => r@ == m@,
            },
    {
        match self {
            ProfileError::IoFailure(m) => m,
            ProfileError::ParseFailure(m) => m,
        }
    }
}

// ---------------------------------------------------------------------------
// Field access over parsed documents
// ---------------------------------------------------------------------------
/// First value bound to `key` in an association sequence.
pub open spec fn assoc<T>(pairs: Seq<(Seq<char>, T)>, key: Seq<char>) -> Option<T>
    decreases pairs.len(),
{
    if pairs.len() == 0 {
        None
    } else if pairs[0].0 == key {
        Some(pairs[0].1)
    } else {
        assoc(pairs.drop_first(), key)
    }
}

proof fn lemma_assoc_first_match<T>(pairs: Seq<(Seq<char>, T)>, key: Seq<char>, k: int)
    requires
        0 <= k < pairs.len(),
        pairs[k].0 == key,
        forall|t: int| 0 <= t < k ==> pairs[t].0 != key,
    ensures
        assoc(pairs, key) == Some(pairs[k].1),
    decreases k,
{
    if k > 0 {
        lemma_assoc_first_match(pairs.drop_first(), key, k - 1);
    }
}

proof fn lemma_assoc_no_match<T>(pairs: Seq<(Seq<char>, T)>, key: Seq<char>)
    requires
        forall|t: int| 0 <= t < pairs.len() ==> pairs[t].0 != key,
    ensures
        assoc(pairs, key) is None,
    decreases pairs.len(),
{
    if pairs.len() > 0 {
        lemma_assoc_no_match(pairs.drop_first(), key);
    }
}

/// Length of the member-model sequence.
pub proof fn lemma_member_models_len(s: Seq<(String, JsonValue)>)
    ensures
        JsonValue::member_models_of(s).len() == s.len(),
    decreases s.len(),
{
    reveal_with_fuel(JsonValue::member_models_of, 2);
    if s.len() > 0 {
        lemma_member_models_len(s.drop_first());
    }
}

/// Indexing into the member-model sequence.
pub proof fn lemma_member_models_index(s: Seq<(String, JsonValue)>, k: int)
    requires
        0 <= k < s.len(),
    ensures
        JsonValue::member_models_of(s).len() == s.len(),
        JsonValue::member_models_of(s)[k] == (s[k].0@, s[k].1.model()),
    decreases k,
{
    lemma_member_models_len(s);
    if k > 0 {
        lemma_member_models_index(s.drop_first(), k - 1);
    }
}

/// First value bound to `key` among an object's members; `None` when the
/// value is not an object or has no such member.
pub open spec fn obj_get(m: JsonModel, key: Seq<char>) -> Option<JsonModel> {
    match m {
        JsonModel::Obj(fields) => assoc(fields, key),
        _ => None,
    }
}

/// First member of `fields` whose key is `key`.
fn obj_lookup<'a>(fields: &'a Vec<(String, JsonValue)>, key: &String) -> (r: Option<&'a JsonValue>)
    ensures
        match r {
            Some(v) => assoc(JsonValue::member_models_of(fields@), key@) == Some(v.model()),
            None => assoc(JsonValue::member_models_of(fields@), key@) is None,
        },
{
    proof {
        lemma_member_models_len(fields@);
    }
    let mut k: usize = 0;
    while k < fields.len()
        invariant
            k <= fields@.len(),
            JsonValue::member_models_of(fields@).len() == fields@.len(),
            forall|t: int|
                0 <= t < k ==> #[trigger] JsonValue::member_models_of(fields@)[t].0 != key@,
        decreases fields@.len() - k,
    {
        proof {
            lemma_member_models_index(fields@, k as int);
        }
        if fields[k].0 == *key {
            proof {
                lemma_assoc_first_match(JsonValue::member_models_of(fields@), key@, k as int);
            }
            return Some(&fields[k].1);
        }
        k = k + 1;
    }
    proof {
        lemma_assoc_no_match(JsonValue::member_models_of(fields@), key@);
    }
    None
}

/// The boolean bound to `key`, if one is.
pub open spec fn field_bool(m: JsonModel, key: Seq<char>) -> Option<bool> {
    match obj_get(m, key) {
        Some(JsonModel::Bool(b)) => Some(b),
        _ => None,
    }
}

/// The string bound to `key`, if one is.
pub open spec fn field_str(m: JsonModel, key: Seq<char>) -> Option<Seq<char>> {
    match obj_get(m, key) {
        Some(JsonModel::Str(s)) => Some(s),
        _ => None,
    }
}

/// The integer bound to `key`, if one is and it fits in an `i32`.
pub open spec fn field_i32(m: JsonModel, key: Seq<char>) -> Option<i32> {
    match obj_get(m, key) {
        Some(JsonModel::Int(n)) => if -0x8000_0000 <= n && n <= 0x7fff_ffff {
            Some(n as i32)
        } else {
            None
        },
        _ => None,
    }
}

fn get_bool(fields: &Vec<(String, JsonValue)>, key: &String) -> (r: Option<bool>)
    ensures
        r == field_bool(JsonModel::Obj(JsonValue::member_models_of(fields@)), key@),
{
    match obj_lookup(fields, key) {
        Some(v) => match v {
            JsonValue::Bool(b) => Some(*b),
            _ => None,
        },
        None => None,
    }
}

fn get_str(fields: &Vec<(String, JsonValue)>, key: &String) -> (r: Option<String>)
    ensures
        r.deep_view() == field_str(JsonModel::Obj(JsonValue::member_models_of(fields@)), key@),
{
    match obj_lookup(fields, key) {
        Some(v) => match v {
            JsonValue::Str(s) => Some(s.clone()),
            _ => None,
        },
        None => None,
    }
}

fn get_i32(fields: &Vec<(String, JsonValue)>, key: &String) -> (r: Option<i32>)
    ensures
        r == field_i32(JsonModel::Obj(JsonValue::member_models_of(fields@)), key@),
{
    match obj_lookup(fields, key) {
        Some(v) => match v {
            JsonValue::Int(n) => {
                let n = *n;
                if -0x8000_0000i64 <= n && n <= 0x7fff_ffffi64 {
                    Some(n as i32)
                } else {
                    None
                }
            },
            _ => None,
        },
        None => None,
    }
}

// ---------------------------------------------------------------------------
// Record decoding
// ---------------------------------------------------------------------------
/// The manifest record read from a manifest value: `name` and `version`
/// default to the empty string, the other fields stay optional.
pub open spec fn spec_manifest(m: JsonModel) -> ManifestModel {
    ManifestModel {
        description: field_str(m, "description"@),
        manifest_version: field_i32(m, "manifest_version"@),
        name: match field_str(m, "name"@) {
            Some(s) => s,
            None => Seq::empty(),
        },
        version: match field_str(m, "version"@) {
            Some(s) => s,
            None => Seq::empty(),
        },
        version_name: field_str(m, "version_name"@),
    }
}

/// Decodes a manifest value into a manifest record.
pub fn decode_manifest(v: &JsonValue) -> (r: GoogleChromeExtensionManifestData)
    ensures
        r.deep_view() == spec_manifest(v.model()),
{
    match v {
        JsonValue::Obj(fields) => GoogleChromeExtensionManifestData {
            description: get_str(fields, &String::from_str("description")),
            manifest_version: get_i32(fields, &String::from_str("manifest_version")),
            name: match get_str(fields, &String::from_str("name")) {
                Some(s) => s,
                None => String::new(),
            },
            version: match get_str(fields, &String::from_str("version")) {
                Some(s) => s,
                None => String::new(),
            },
            version_name: get_str(fields, &String::from_str("version_name")),
        },
        _ => GoogleChromeExtensionManifestData {
            description: None,
            manifest_version: None,
            name: String::new(),
            version: String::new(),
            version_name: None,
        },
    }
}

/// The extension record read from a settings entry: every leaf field is
/// `None` when absent, `null` or of the wrong type, and the manifest is
/// `None` unless it is an object.
pub open spec fn spec_extension(m: JsonModel) -> ExtensionModel {
    ExtensionModel {
        active_bit: field_bool(m, "active_bit"@),
        first_install_time: field_str(m, "first_install_time"@),
        from_webstore: field_bool(m, "from_webstore"@),
        last_update_time: field_str(m, "last_update_time"@),
        manifest: match obj_get(m, "manifest"@) {
            Some(man) => if man is Obj {
                Some(spec_manifest(man))
            } else {
                None
            },
            None => None,
        },
        state: field_i32(m, "state"@),
        was_installed_by_default: field_bool(m, "was_installed_by_default"@),
        was_installed_by_oem: field_bool(m, "was_installed_by_oem"@),
        withholding_permissions: field_bool(m, "withholding_permissions"@),
    }
}

/// Decodes a settings entry into an extension record.
pub fn decode_extension(v: &JsonValue) -> (r: GoogleChromeExtensionData)
    ensures
        r.deep_view() == spec_extension(v.model()),
{
    match v {
        JsonValue::Obj(fields) => GoogleChromeExtensionData {
            active_bit: get_bool(fields, &String::from_str("active_bit")),
            first_install_time: get_str(fields, &String::from_str("first_install_time")),
            from_webstore: get_bool(fields, &String::from_str("from_webstore")),
            last_update_time: get_str(fields, &String::from_str("last_update_time")),
            manifest: match obj_lookup(fields, &String::from_str("manifest")) {
                Some(man) => match man {
                    JsonValue::Obj(_) => Some(decode_manifest(man)),
                    _ => None,
                },
                None => None,
            },
            state: get_i32(fields, &String::from_str("state")),
            was_installed_by_default: get_bool(fields, &String::from_str("was_installed_by_default")),
            was_installed_by_oem: get_bool(fields, &String::from_str("was_installed_by_oem")),
            withholding_permissions: get_bool(fields, &String::from_str("withholding_permissions")),
        },
        _ => GoogleChromeExtensionData {
            active_bit: None,
            first_install_time: None,
            from_webstore: None,
            last_update_time: None,
            manifest: None,
            state: None,
            was_installed_by_default: None,
            was_installed_by_oem: None,
            withholding_permissions: None,
        },
    }
}

/// The settings entries decoded from the members of the
/// `extensions.settings` object, in document order. An entry whose value
/// is not an object is skipped rather than failing the profile.
pub open spec fn spec_settings(fields: Seq<(Seq<char>, JsonModel)>) -> Seq<
    (Seq<char>, ExtensionModel),
>
    decreases fields.len(),
{
    if fields.len() == 0 {
        Seq::empty()
    } else {
        let rest = spec_settings(fields.drop_first());
        if fields[0].1 is Obj {
            seq![(fields[0].0, spec_extension(fields[0].1))] + rest
        } else {
            rest
        }
    }
}

fn decode_settings_from(fields: &Vec<(String, JsonValue)>, k: usize) -> (r: Vec<
    (String, GoogleChromeExtensionData),
>)
    requires
        k <= fields@.len(),
    ensures
        r.deep_view() == spec_settings(JsonValue::member_models_of(fields@).skip(k as int)),
    decreases fields@.len() - k,
{
    proof {
        lemma_member_models_len(fields@);
    }
    let ghost mm = JsonValue::member_models_of(fields@);
    if k == fields.len() {
        let out: Vec<(String, GoogleChromeExtensionData)> = Vec::new();
        proof {
            assert(mm.skip(k as int) =~= Seq::<(Seq<char>, JsonModel)>::empty());
            assert(out.deep_view() =~= spec_settings(mm.skip(k as int)));
        }
        out
    } else {
        let mut rest = decode_settings_from(fields, k + 1);
        proof {
            lemma_member_models_index(fields@, k as int);
            assert(mm.skip(k as int)[0] == mm[k as int]);
            assert(mm.skip(k as int).drop_first() =~= mm.skip(k as int + 1));
        }
        let pair = &fields[k];
        match &pair.1 {
            JsonValue::Obj(_) => {
                let entry = (pair.0.clone(), decode_extension(&pair.1));
                let ghost entry0 = entry.deep_view();
                let mut out: Vec<(String, GoogleChromeExtensionData)> = Vec::new();
                out.push(entry);
                let ghost rest0 = rest.deep_view();
                out.append(&mut rest);
                proof {
                    assert(out.deep_view() =~= seq![entry0] + rest0);
                }
                out
            },
            _ => rest,
        }
    }
}

// ---------------------------------------------------------------------------
// Preference documents
// ---------------------------------------------------------------------------
/// The preference record read from a parsed document: `profile.name` must
/// be a string and `extensions.settings` an object, everything else is
/// optional.
pub open spec fn spec_preferences(m: JsonModel) -> Option<PreferencesModel> {
    match obj_get(m, "profile"@) {
        Some(p) => match field_str(p, "name"@) {
            Some(nm) => match obj_get(m, "extensions"@) {
                Some(e) => match obj_get(e, "settings"@) {
                    Some(sv) => match sv {
                        JsonModel::Obj(fields) => Some(
                            PreferencesModel { name: nm, settings: spec_settings(fields) },
                        ),
                        _ => None,
                    },
                    None => None,
                },
                None => None,
            },
            None => None,
        },
        None => None,
    }
}

/// The outcome of loading one preference document from its text.
pub open spec fn spec_load_profile(text: Seq<char>) -> Result<PreferencesModel, ProfileErrorModel> {
    match spec_parse_json(text) {
        None => Err(ProfileErrorModel::ParseFailure("document is not well-formed JSON"@)),
        Some(m) => match spec_preferences(m) {
            None => Err(
                ProfileErrorModel::ParseFailure("document lacks profile name or extension settings"@),
            ),
            Some(p) => Ok(p),
        },
    }
}

/// View of a read outcome handed in by the caller.
pub open spec fn read_view(read: Result<String, String>) -> Result<Seq<char>, Seq<char>> {
    match read {
        Ok(t) => Ok(t@),
        Err(e) => Err(e@),
    }
}

/// The outcome of loading one preference document from a read outcome: a
/// failed read is an `IoFailure` carrying the reader's message.
pub open spec fn spec_load_read(read: Result<Seq<char>, Seq<char>>) -> Result<
    PreferencesModel,
    ProfileErrorModel,
> {
    match read {
        Err(e) => Err(ProfileErrorModel::IoFailure(e)),
        Ok(t) => spec_load_profile(t),
    }
}

/// View of a load result.
pub open spec fn load_result_view(r: Result<ChomeUserPreferences, ProfileError>) -> Result<
    PreferencesModel,
    ProfileErrorModel,
> {
    match r {
        Ok(p) => Ok(p.deep_view()),
        Err(e) => Err(e.deep_view()),
    }
}

fn decode_preferences(doc: &JsonValue) -> (r: Option<ChomeUserPreferences>)
    ensures
        match r {
            Some(p) => spec_preferences(doc.model()) == Some(p.deep_view()),
            None => spec_preferences(doc.model()) is None,
        },
{
    let top = match doc {
        JsonValue::Obj(fields) => fields,
        _ => {
            return None;
        },
    };
    let pv = match obj_lookup(top, &String::from_str("profile")) {
        Some(pv) => pv,
        None => {
            return None;
        },
    };
    let name = match pv {
        JsonValue::Obj(pf) => match get_str(pf, &String::from_str("name")) {
            Some(nm) => nm,
            None => {
                return None;
            },
        },
        _ => {
            return None;
        },
    };
    let ev = match obj_lookup(top, &String::from_str("extensions")) {
        Some(ev) => ev,
        None => {
            return None;
        },
    };
    let sv = match ev {
        JsonValue::Obj(ef) => match obj_lookup(ef, &String::from_str("settings")) {
            Some(sv) => sv,
            None => {
                return None;
            },
        },
        _ => {
            return None;
        },
    };
    let settings = match sv {
        JsonValue::Obj(sfields) => {
            let s = decode_settings_from(sfields, 0);
            proof {
                assert(JsonValue::member_models_of(sfields@).skip(0) =~= JsonValue::member_models_of(
                    sfields@,
                ));
            }
            s
        },
        _ => {
            return None;
        },
    };
    Some(
        ChomeUserPreferences {
            profile: ChomeUserProfile { name },
            extensions: Extensions { settings },
        },
    )
}

/// Loads one profile's preference record from the outcome of reading its
/// preference file.
///
/// A failed read yields `IoFailure` with the reader's message; text that
/// is not well-formed JSON, or lacks a string `profile.name` or an
/// `extensions.settings` object, yields `ParseFailure`; anything else
/// parses, with optional fields defaulting as documented.
pub fn load_profile(read: &Result<String, String>) -> (r: Result<ChomeUserPreferences, ProfileError>)
    ensures
        load_result_view(r) == spec_load_read(read_view(*read)),
{
    let text = match read {
        Err(e) => {
            return Err(ProfileError::IoFailure(e.clone()));
        },
        Ok(t) => t,
    };
    let doc = match parse_json(text.as_str()) {
        None => {
            return Err(
                ProfileError::ParseFailure(String::from_str("document is not well-formed JSON")),
            );
        },
        Some(d) => d,
    };
    match decode_preferences(&doc) {
        Some(p) => Ok(p),
        None => Err(
            ProfileError::ParseFailure(
                String::from_str("document lacks profile name or extension settings"),
            ),
        ),
    }
}

// ---------------------------------------------------------------------------
// Profile discovery
// ---------------------------------------------------------------------------
/// The keys of an object's members, in document order.
pub open spec fn keys_of(fields: Seq<(Seq<char>, JsonModel)>) -> Seq<Seq<char>> {
    Seq::new(fields.len(), |i: int| fields[i].0)
}

/// The first `k` keys with duplicates removed, keeping first occurrences
/// in order.
pub open spec fn spec_dedup(keys: Seq<Seq<char>>, k: int) -> Seq<Seq<char>>
    decreases k,
{
    if k <= 0 {
        Seq::empty()
    } else {
        let prev = spec_dedup(keys, k - 1);
        if prev.contains(keys[k - 1]) {
            prev
        } else {
            prev.push(keys[k - 1])
        }
    }
}

/// The profile identifiers enumerated by an index document: the key set
/// of the `profile.info_cache` object, first occurrences in document
/// order.
pub open spec fn spec_profile_ids(m: JsonModel) -> Option<Seq<Seq<char>>> {
    match obj_get(m, "profile"@) {
        Some(p) => match obj_get(p, "info_cache"@) {
            Some(ic) => match ic {
                JsonModel::Obj(fields) => Some(spec_dedup(keys_of(fields), fields.len() as int)),
                _ => None,
            },
            None => None,
        },
        None => None,
    }
}

/// The outcome of enumerating profile identifiers from a read outcome.
pub open spec fn spec_list_profile_ids(read: Result<Seq<char>, Seq<char>>) -> Result<
    Seq<Seq<char>>,
    ProfileErrorModel,
> {
    match read {
        Err(e) => Err(ProfileErrorModel::IoFailure(e)),
        Ok(text) => match spec_parse_json(text) {
            None => Err(ProfileErrorModel::ParseFailure("document is not well-formed JSON"@)),
            Some(m) => match spec_profile_ids(m) {
                None => Err(ProfileErrorModel::ParseFailure("document lacks profile.info_cache"@)),
                Some(ids) => Ok(ids),
            },
        },
    }
}

/// View of a discovery result.
pub open spec fn ids_result_view(r: Result<Vec<String>, ProfileError>) -> Result<
    Seq<Seq<char>>,
    ProfileErrorModel,
> {
    match r {
        Ok(ids) => Ok(ids.deep_view()),
        Err(e) => Err(e.deep_view()),
    }
}

fn vec_contains_string(v: &Vec<String>, s: &String) -> (r: bool)
    ensures
        r == v.deep_view().contains(s@),
{
    let mut k: usize = 0;
    while k < v.len()
        invariant
            k <= v@.len(),
            forall|t: int| 0 <= t < k ==> #[trigger] v.deep_view()[t] != s@,
        decreases v@.len() - k,
    {
        if v[k] == *s {
            proof {
                assert(v.deep_view()[k as int] == s@);
            }
            return true;
        }
        proof {
            assert(v.deep_view()[k as int] == v@[k as int]@);
        }
        k = k + 1;
    }
    proof {
        assert forall|t: int| 0 <= t < v.deep_view().len() implies #[trigger] v.deep_view()[t]
            != s@ by {}
    }
    false
}

/// Enumerates the profile identifiers named by the index document, given
/// the outcome of reading that document.
///
/// A failed read yields `IoFailure` with the reader's message; text that
/// is not well-formed JSON, or lacks a `profile.info_cache` object,
/// yields `ParseFailure`; otherwise the identifiers are the keys of
/// `profile.info_cache`, without duplicates, first occurrences in
/// document order.
pub fn list_profile_ids(read: &Result<String, String>) -> (r: Result<Vec<String>, ProfileError>)
    ensures
        ids_result_view(r) == spec_list_profile_ids(read_view(*read)),
{
    let text = match read {
        Err(e) => {
            return Err(ProfileError::IoFailure(e.clone()));
        },
        Ok(t) => t,
    };
    let doc = match parse_json(text.as_str()) {
        None => {
            return Err(
                ProfileError::ParseFailure(String::from_str("document is not well-formed JSON")),
            );
        },
        Some(d) => d,
    };
    let missing = "document lacks profile.info_cache";
    let top = match &doc {
        JsonValue::Obj(fields) => fields,
        _ => {
            return Err(ProfileError::ParseFailure(String::from_str(missing)));
        },
    };
    let pv = match obj_lookup(top, &String::from_str("profile")) {
        Some(pv) => pv,
        None => {
            return Err(ProfileError::ParseFailure(String::from_str(missing)));
        },
    };
    let icf = match pv {
        JsonValue::Obj(pf) => match obj_lookup(pf, &String::from_str("info_cache")) {
            Some(icv) => match icv {
                JsonValue::Obj(icf) => icf,
                _ => {
                    return Err(ProfileError::ParseFailure(String::from_str(missing)));
                },
            },
            None => {
                return Err(ProfileError::ParseFailure(String::from_str(missing)));
            },
        },
        _ => {
            return Err(ProfileError::ParseFailure(String::from_str(missing)));
        },
    };
    proof {
        lemma_member_models_len(icf@);
    }
    let ghost mm = JsonValue::member_models_of(icf@);
    let mut ids: Vec<String> = Vec::new();
    let mut k: usize = 0;
    while k < icf.len()
        invariant
            k <= icf@.len(),
            mm == JsonValue::member_models_of(icf@),
            mm.len() == icf@.len(),
            ids.deep_view() == spec_dedup(keys_of(mm), k as int),
        decreases icf@.len() - k,
    {
        proof {
            lemma_member_models_index(icf@, k as int);
            assert(keys_of(mm)[k as int] == icf@[k as int].0@);
        }
        let key = &icf[k].0;
        let ghost before = ids.deep_view();
        if !vec_contains_string(&ids, key) {
            ids.push(key.clone());
            proof {
                assert(ids.deep_view() =~= before.push(key@));
            }
        }
        k = k + 1;
    }
    Ok(ids)
}

// ---------------------------------------------------------------------------
// Batch loading
// ---------------------------------------------------------------------------
/// View of the read outcomes handed in by the caller, keyed by profile
/// identifier.
pub open spec fn reads_view(reads: Seq<(String, Result<String, String>)>) -> Seq<
    (Seq<char>, Result<Seq<char>, Seq<char>>),
> {
    Seq::new(reads.len(), |i: int| (reads[i].0@, read_view(reads[i].1)))
}

/// The outcome of loading the profiles named by `ids`, in order, from the
/// supplied read outcomes; strict: the first profile that fails aborts
/// the batch. A profile whose read outcome was not supplied counts as a
/// failed read.
pub open spec fn spec_load_all(
    ids: Seq<Seq<char>>,
    reads: Seq<(Seq<char>, Result<Seq<char>, Seq<char>>)>,
) -> Result<Seq<(Seq<char>, PreferencesModel)>, ProfileErrorModel>
    decreases ids.len(),
{
    if ids.len() == 0 {
        Ok(Seq::empty())
    } else {
        let outcome = match assoc(reads, ids[0]) {
            None => Err(ProfileErrorModel::IoFailure("no preference text provided for profile"@)),
            Some(rd) => spec_load_read(rd),
        };
        match outcome {
            Err(e) => Err(e),
            Ok(p) => match spec_load_all(ids.drop_first(), reads) {
                Err(e) => Err(e),
                Ok(rest) => Ok(seq![(ids[0], p)] + rest),
            },
        }
    }
}

/// The outcome of the whole run: enumerate identifiers from the index
/// read outcome, then load each profile from the supplied read outcomes.
pub open spec fn spec_configure(
    index_read: Result<Seq<char>, Seq<char>>,
    reads: Seq<(Seq<char>, Result<Seq<char>, Seq<char>>)>,
) -> Result<Seq<(Seq<char>, PreferencesModel)>, ProfileErrorModel> {
    match spec_list_profile_ids(index_read) {
        Err(e) => Err(e),
        Ok(ids) => spec_load_all(ids, reads),
    }
}

/// View of a batch-load result.
pub open spec fn profiles_result_view(
    r: Result<Vec<(String, ChomeUserPreferences)>, ProfileError>,
) -> Result<Seq<(Seq<char>, PreferencesModel)>, ProfileErrorModel> {
    match r {
        Ok(v) => Ok(v.deep_view()),
        Err(e) => Err(e.deep_view()),
    }
}

fn lookup_read<'a>(reads: &'a Vec<(String, Result<String, String>)>, id: &String) -> (r: Option<
    &'a Result<String, String>,
>)
    ensures
        match r {
            Some(rd) => assoc(reads_view(reads@), id@) == Some(read_view(*rd)),
            None => assoc(reads_view(reads@), id@) is None,
        },
{
    let mut k: usize = 0;
    while k < reads.len()
        invariant
            k <= reads@.len(),
            forall|t: int| 0 <= t < k ==> #[trigger] reads_view(reads@)[t].0 != id@,
        decreases reads@.len() - k,
    {
        if reads[k].0 == *id {
            proof {
                lemma_assoc_first_match(reads_view(reads@), id@, k as int);
            }
            return Some(&reads[k].1);
        }
        k = k + 1;
    }
    proof {
        lemma_assoc_no_match(reads_view(reads@), id@);
    }
    None
}

fn load_profiles_from(
    ids: &Vec<String>,
    k: usize,
    reads: &Vec<(String, Result<String, String>)>,
) -> (r: Result<Vec<(String, ChomeUserPreferences)>, ProfileError>)
    requires
        k <= ids@.len(),
    ensures
        profiles_result_view(r) == spec_load_all(ids.deep_view().skip(k as int), reads_view(reads@)),
    decreases ids@.len() - k,
{
    let ghost idv = ids.deep_view();
    if k == ids.len() {
        let out: Vec<(String, ChomeUserPreferences)> = Vec::new();
        proof {
            assert(idv.skip(k as int) =~= Seq::<Seq<char>>::empty());
            assert(out.deep_view() =~= Seq::<(Seq<char>, PreferencesModel)>::empty());
        }
        return Ok(out);
    }
    proof {
        assert(idv.skip(k as int)[0] == idv[k as int]);
        assert(idv[k as int] == ids@[k as int]@);
        assert(idv.skip(k as int).drop_first() =~= idv.skip(k as int + 1));
    }
    let id = &ids[k];
    let outcome = match lookup_read(reads, id) {
        None => Err(
            ProfileError::IoFailure(String::from_str("no preference text provided for profile")),
        ),
        Some(rd) => load_profile(rd),
    };
    match outcome {
        Err(e) => Err(e),
        Ok(p) => match load_profiles_from(ids, k + 1, reads) {
            Err(e) => Err(e),
            Ok(rest) => {
                let entry = (id.clone(), p);
                let ghost entry0 = entry.deep_view();
                let mut out: Vec<(String, ChomeUserPreferences)> = Vec::new();
                out.push(entry);
                let mut rest = rest;
                let ghost rest0 = rest.deep_view();
                out.append(&mut rest);
                proof {
                    assert(out.deep_view() =~= seq![entry0] + rest0);
                }
                Ok(out)
            },
        },
    }
}

/// Runs the whole discovery-and-load pass: enumerates profile identifiers
/// from the index read outcome, then loads each named profile from the
/// supplied per-profile read outcomes, in enumeration order.
///
/// Strict batch policy: the first profile that fails to read or parse
/// aborts the whole run with that profile's error.
pub fn configure(
    index_read: &Result<String, String>,
    profile_reads: &Vec<(String, Result<String, String>)>,
) -> (r: Result<Vec<(String, ChomeUserPreferences)>, ProfileError>)
    ensures
        profiles_result_view(r) == spec_configure(read_view(*index_read), reads_view(
            profile_reads@,
        )),
{
    match list_profile_ids(index_read) {
        Err(e) => Err(e),
        Ok(ids) => {
            proof {
                assert(ids.deep_view().skip(0) =~= ids.deep_view());
            }
            load_profiles_from(&ids, 0, profile_reads)
        },
    }
}

// ---------------------------------------------------------------------------
// Report selection
// ---------------------------------------------------------------------------
/// Model of a fully resolved report entry.
pub ghost struct ExtensionReportModel {
    pub id: Seq<char>,
    pub active_bit: bool,
    pub first_install_time: Seq<char>,
    pub from_webstore: bool,
    pub last_update_time: Seq<char>,
    pub description: Seq<char>,
    pub manifest_version: i32,
    pub name: Seq<char>,
    pub version: Seq<char>,
    pub version_name: Seq<char>,
    pub state: i32,
    pub was_installed_by_default: bool,
    pub was_installed_by_oem: bool,
    pub withholding_permissions: bool,
}

/// One extension as it appears in the report: every optional field
/// resolved to its documented default (empty string, `false`, `0`).
#[derive(Debug, PartialEq)]
pub struct ExtensionReport {
    pub id: String,
    pub active_bit: bool,
    pub first_install_time: String,
    pub from_webstore: bool,
    pub last_update_time: String,
    pub description: String,
    pub manifest_version: i32,
    pub name: String,
    pub version: String,
    pub version_name: String,
    pub state: i32,
    pub was_installed_by_default: bool,
    pub was_installed_by_oem: bool,
    pub withholding_permissions: bool,
}

impl DeepView for ExtensionReport {
    type V = ExtensionReportModel;

    open spec fn deep_view(&self) -> ExtensionReportModel {
        ExtensionReportModel {
            id: self.id@,
            active_bit: self.active_bit,
            first_install_time: self.first_install_time@,
            from_webstore: self.from_webstore,
            last_update_time: self.last_update_time@,
            description: self.description@,
            manifest_version: self.manifest_version,
            name: self.name@,
            version: self.version@,
            version_name: self.version_name@,
            state: self.state,
            was_installed_by_default: self.was_installed_by_default,
            was_installed_by_oem: self.was_installed_by_oem,
            withholding_permissions: self.withholding_permissions,
        }
    }
}

/// The string an optional string resolves to: itself, or empty.
pub open spec fn str_or_empty(s: Option<Seq<char>>) -> Seq<char> {
    match s {
        Some(t) => t,
        None => Seq::empty(),
    }
}

/// The report entry for one settings entry whose manifest is present.
pub open spec fn spec_report_entry(id: Seq<char>, e: ExtensionModel) -> ExtensionReportModel {
    let man = e.manifest->0;
    ExtensionReportModel {
        id: id,
        active_bit: e.active_bit.spec_safe_value(),
        first_install_time: str_or_empty(e.first_install_time),
        from_webstore: e.from_webstore.spec_safe_value(),
        last_update_time: str_or_empty(e.last_update_time),
        description: str_or_empty(man.description),
        manifest_version: man.manifest_version.spec_safe_value(),
        name: man.name,
        version: man.version,
        version_name: str_or_empty(man.version_name),
        state: e.state.spec_safe_value(),
        was_installed_by_default: e.was_installed_by_default.spec_safe_value(),
        was_installed_by_oem: e.was_installed_by_oem.spec_safe_value(),
        withholding_permissions: e.withholding_permissions.spec_safe_value(),
    }
}

/// The report entries for a settings sequence, in order: exactly the
/// entries that carry a manifest, each fully resolved. Manifest presence
/// is a hard filter: an entry without one is left out.
pub open spec fn spec_report(settings: Seq<(Seq<char>, ExtensionModel)>) -> Seq<
    ExtensionReportModel,
>
    decreases settings.len(),
{
    if settings.len() == 0 {
        Seq::empty()
    } else {
        let rest = spec_report(settings.drop_first());
        if settings[0].1.manifest is Some {
            seq![spec_report_entry(settings[0].0, settings[0].1)] + rest
        } else {
            rest
        }
    }
}

fn report_from(settings: &Vec<(String, GoogleChromeExtensionData)>, k: usize) -> (r: Vec<
    ExtensionReport,
>)
    requires
        k <= settings@.len(),
    ensures
        r.deep_view() == spec_report(settings.deep_view().skip(k as int)),
    decreases settings@.len() - k,
{
    let ghost sv = settings.deep_view();
    if k == settings.len() {
        let out: Vec<ExtensionReport> = Vec::new();
        proof {
            assert(sv.skip(k as int) =~= Seq::<(Seq<char>, ExtensionModel)>::empty());
            assert(out.deep_view() =~= spec_report(sv.skip(k as int)));
        }
        return out;
    }
    let mut rest = report_from(settings, k + 1);
    proof {
        assert(sv.skip(k as int)[0] == sv[k as int]);
        assert(sv[k as int] == settings@[k as int].deep_view());
        assert(sv.skip(k as int).drop_first() =~= sv.skip(k as int + 1));
    }
    let pair = &settings[k];
    let e = &pair.1;
    match &e.manifest {
        Some(man) => {
            let entry = ExtensionReport {
                id: pair.0.clone(),
                active_bit: e.active_bit.safe_value(),
                first_install_time: e.first_install_time.safe_value(),
                from_webstore: e.from_webstore.safe_value(),
                last_update_time: e.last_update_time.safe_value(),
                description: man.description.safe_value(),
                manifest_version: man.manifest_version.safe_value(),
                name: man.name.safe_value(),
                version: man.version.safe_value(),
                version_name: man.version_name.safe_value(),
                state: e.state.safe_value(),
                was_installed_by_default: e.was_installed_by_default.safe_value(),
                was_installed_by_oem: e.was_installed_by_oem.safe_value(),
                withholding_permissions: e.withholding_permissions.safe_value(),
            };
            let ghost entry0 = entry.deep_view();
            let mut out: Vec<ExtensionReport> = Vec::new();
            out.push(entry);
            let ghost rest0 = rest.deep_view();
            out.append(&mut rest);
            proof {
                assert(out.deep_view() =~= seq![entry0] + rest0);
            }
            out
        },
        None => rest,
    }
}

/// The extensions of a profile as the report shows them: exactly those
/// settings entries that carry a manifest, in document order, with every
/// optional field resolved to its documented default.
pub fn report_extensions(prefs: &ChomeUserPreferences) -> (r: Vec<ExtensionReport>)
    ensures
        r.deep_view() == spec_report(prefs.deep_view().settings),
{
    proof {
        assert(prefs.extensions.settings.deep_view().skip(0)
            =~= prefs.extensions.settings.deep_view());
    }
    report_from(&prefs.extensions.settings, 0)
}

/// Whether a profile appears in the report: with no filter every profile
/// does, otherwise its display name or its identifier must contain one of
/// the filter strings.
pub open spec fn spec_profile_selected(
    key: Seq<char>,
    name: Seq<char>,
    filter: Seq<Seq<char>>,
) -> bool {
    filter.len() == 0 || spec_matches_filter(name, filter) || spec_matches_filter(key, filter)
}

/// Decides whether the profile with identifier `key` and display name
/// `name` appears in a report filtered by `filter`.
pub fn profile_selected(key: &String, name: &String, filter: &Vec<String>) -> (r: bool)
    ensures
        r == spec_profile_selected(key@, name@, filter.deep_view()),
{
    if filter.len() == 0 {
        true
    } else if name.matches_one_of(filter) {
        true
    } else {
        key.matches_one_of(filter)
    }
}

// ---------------------------------------------------------------------------
// Path resolution
// ---------------------------------------------------------------------------
/// Joined path model: an empty base yields the segment alone, otherwise
/// the two parts separated by `/` (a separator every supported platform
/// accepts).
pub open spec fn spec_join_path(base: Seq<char>, seg: Seq<char>) -> Seq<char> {
    if base.len() == 0 {
        seg
    } else {
        base + seq!['/'] + seg
    }
}

/// Joins one path segment onto a base path.
pub fn join_path(base: &str, seg: &str) -> (r: String)
    ensures
        r@ == spec_join_path(base@, seg@),
{
    if base.is_empty() {
        seg.to_owned()
    } else {
        let mut out = base.to_owned();
        out.append("/");
        out.append(seg);
        proof {
            reveal_strlit("/");
            assert(out@ =~= spec_join_path(base@, seg@));
        }
        out
    }
}

/// Root of the per-user profile tree: the local application data
/// directory handed in by the caller (empty when unset), with the fixed
/// vendor, product and data segments joined on.
pub open spec fn spec_profiles_home_dir(local_app_data: Seq<char>) -> Seq<char> {
    spec_join_path(
        spec_join_path(spec_join_path(local_app_data, "Google"@), "Chrome"@),
        "User Data"@,
    )
}

/// Resolves the root of the per-user profile tree from the local
/// application data directory.
pub fn detect_chrome_profiles_home_dir(local_app_data: &str) -> (r: String)
    ensures
        r@ == spec_profiles_home_dir(local_app_data@),
{
    let a = join_path(local_app_data, "Google");
    let b = join_path(a.as_str(), "Chrome");
    join_path(b.as_str(), "User Data")
}

/// Resolves the index document's path under the given root.
pub fn detect_local_state_file_path(root: &str) -> (r: String)
    ensures
        r@ == spec_join_path(root@, "Local State"@),
{
    join_path(root, "Local State")
}

/// Resolves a profile's preference-document path under the given root.
pub fn detect_chrome_profile_file_path(root: &str, name: &str) -> (r: String)
    ensures
        r@ == spec_join_path(spec_join_path(root@, name@), "Preferences"@),
{
    let dir = join_path(root, name);
    join_path(dir.as_str(), "Preferences")
}

// ---------------------------------------------------------------------------
// Laws
// ---------------------------------------------------------------------------
proof fn lemma_dedup_exact(keys: Seq<Seq<char>>, k: int)
    requires
        0 <= k <= keys.len(),
    ensures
        spec_dedup(keys, k).no_duplicates(),
        forall|x: Seq<char>|
            #[trigger] spec_dedup(keys, k).contains(x) <==> exists|i: int|
                0 <= i < k && keys[i] == x,
    decreases k,
{
    if k > 0 {
        lemma_dedup_exact(keys, k - 1);
        let prev = spec_dedup(keys, k - 1);
        let cur = spec_dedup(keys, k);
        if prev.contains(keys[k - 1]) {
            assert forall|x: Seq<char>| #[trigger] cur.contains(x) implies exists|i: int|
                0 <= i < k && keys[i] == x by {}
            assert forall|x: Seq<char>| (exists|i: int| 0 <= i < k && keys[i] == x) implies
                #[trigger] cur.contains(x) by {
                let i = choose|i: int| 0 <= i < k && keys[i] == x;
                if i < k - 1 {
                    assert(prev.contains(x));
                } else {
                    assert(prev.contains(keys[k - 1]));
                }
            }
        } else {
            assert(cur == prev.push(keys[k - 1]));
            assert forall|a: int, b: int| 0 <= a < b < cur.len() implies cur[a] != cur[b] by {
                if b < prev.len() {
                    assert(prev[a] != prev[b]);
                } else {
                    if cur[a] == cur[b] {
                        assert(prev[a] == keys[k - 1]);
                        assert(prev.contains(keys[k - 1]));
                    }
                }
            }
            assert forall|x: Seq<char>| #[trigger] cur.contains(x) implies exists|i: int|
                0 <= i < k && keys[i] == x by {
                let j = choose|j: int| 0 <= j < cur.len() && cur[j] == x;
                if j < prev.len() {
                    assert(prev.contains(x));
                } else {
                    assert(keys[k - 1] == x);
                }
            }
            assert forall|x: Seq<char>| (exists|i: int| 0 <= i < k && keys[i] == x) implies
                #[trigger] cur.contains(x) by {
                let i = choose|i: int| 0 <= i < k && keys[i] == x;
                if i < k - 1 {
                    assert(prev.contains(x));
                    let j = choose|j: int| 0 <= j < prev.len() && prev[j] == x;
                    assert(cur[j] == x);
                } else {
                    assert(cur[prev.len() as int] == x);
                }
            }
        }
    }
}

/// For every valid index document, the enumerated profile identifiers are
/// exactly the key set of `profile.info_cache`: every key appears, nothing
/// else appears, and there are no duplicates.
pub proof fn lemma_profile_ids_exact_key_set(m: JsonModel)
    requires
        spec_profile_ids(m) is Some,
    ensures
        spec_profile_ids(m)->0.no_duplicates(),
        obj_get(m, "profile"@) matches Some(p) ==> (obj_get(p, "info_cache"@) matches Some(
            JsonModel::Obj(fields),
        ) ==> forall|x: Seq<char>|
            #[trigger] (spec_profile_ids(m)->0).contains(x) <==> keys_of(fields).contains(x)),
{
    let p = obj_get(m, "profile"@)->0;
    let ic = obj_get(p, "info_cache"@)->0;
    if ic is Obj {
        let fields = ic->Obj_0;
        let keys = keys_of(fields);
        lemma_dedup_exact(keys, fields.len() as int);
        let ids = spec_profile_ids(m)->0;
        assert forall|x: Seq<char>| #[trigger] ids.contains(x) implies keys.contains(x) by {
            let i = choose|i: int| 0 <= i < fields.len() && keys[i] == x;
            assert(keys[i] == x);
        }
        assert forall|x: Seq<char>| keys.contains(x) implies #[trigger] ids.contains(x) by {
            let i = choose|i: int| 0 <= i < keys.len() && keys[i] == x;
            assert(0 <= i < fields.len() && keys[i] == x);
        }
    }
}

/// The report carries an entry with identifier `x`.
pub open spec fn report_has_id(settings: Seq<(Seq<char>, ExtensionModel)>, x: Seq<char>) -> bool {
    exists|j: int| 0 <= j < spec_report(settings).len() && #[trigger] spec_report(settings)[j].id == x
}

/// Some settings entry with identifier `x` carries a manifest.
pub open spec fn has_manifest_entry(settings: Seq<(Seq<char>, ExtensionModel)>, x: Seq<char>) -> bool {
    exists|i: int|
        0 <= i < settings.len() && #[trigger] settings[i].0 == x && settings[i].1.manifest is Some
}

/// Manifest presence is a hard filter: an identifier appears in the
/// report exactly when some settings entry with that identifier carries a
/// manifest. In particular an entry without a manifest contributes
/// nothing to the report.
pub proof fn lemma_manifest_filter(settings: Seq<(Seq<char>, ExtensionModel)>)
    ensures
        forall|x: Seq<char>| #[trigger] report_has_id(settings, x) <==> has_manifest_entry(
            settings,
            x,
        ),
    decreases settings.len(),
{
    if settings.len() > 0 {
        let rest = settings.drop_first();
        lemma_manifest_filter(rest);
        let rep = spec_report(settings);
        let rrep = spec_report(rest);
        assert forall|x: Seq<char>| #[trigger] report_has_id(settings, x) implies has_manifest_entry(
            settings,
            x,
        ) by {
            let j = choose|j: int| 0 <= j < rep.len() && #[trigger] rep[j].id == x;
            if settings[0].1.manifest is Some {
                if j == 0 {
                    assert(settings[0].0 == x && settings[0].1.manifest is Some);
                } else {
                    assert(rrep[j - 1].id == x);
                    assert(report_has_id(rest, x));
                    let i = choose|i: int|
                        0 <= i < rest.len() && #[trigger] rest[i].0 == x && rest[i].1.manifest
                            is Some;
                    assert(settings[i + 1].0 == x && settings[i + 1].1.manifest is Some);
                }
            } else {
                assert(rrep[j].id == x);
                assert(report_has_id(rest, x));
                let i = choose|i: int|
                    0 <= i < rest.len() && #[trigger] rest[i].0 == x && rest[i].1.manifest is Some;
                assert(settings[i + 1].0 == x && settings[i + 1].1.manifest is Some);
            }
        }
        assert forall|x: Seq<char>| #[trigger] has_manifest_entry(settings, x) implies report_has_id(
            settings,
            x,
        ) by {
            let i = choose|i: int|
                0 <= i < settings.len() && #[trigger] settings[i].0 == x && settings[i].1.manifest
                    is Some;
            if i == 0 {
                assert(rep[0].id == x);
            } else {
                assert(rest[i - 1].0 == x && rest[i - 1].1.manifest is Some);
                assert(has_manifest_entry(rest, x));
                assert(report_has_id(rest, x));
                let j = choose|j: int|
                    0 <= j < spec_report(rest).len() && #[trigger] spec_report(rest)[j].id == x;
                if settings[0].1.manifest is Some {
                    assert(rep[j + 1].id == x);
                } else {
                    assert(rep[j].id == x);
                }
            }
        }
    }
}

/// Optional fields that are absent resolve to the documented type
/// defaults in the report, and never fail the surrounding record: the
/// report entry is always defined.
pub proof fn lemma_optional_defaults(id: Seq<char>, e: ExtensionModel)
    ensures
        e.active_bit is None ==> !spec_report_entry(id, e).active_bit,
        e.first_install_time is None ==> spec_report_entry(id, e).first_install_time
            == Seq::<char>::empty(),
        e.from_webstore is None ==> !spec_report_entry(id, e).from_webstore,
        e.last_update_time is None ==> spec_report_entry(id, e).last_update_time
            == Seq::<char>::empty(),
        e.state is None ==> spec_report_entry(id, e).state == 0,
        e.was_installed_by_default is None ==> !spec_report_entry(id, e).was_installed_by_default,
        e.was_installed_by_oem is None ==> !spec_report_entry(id, e).was_installed_by_oem,
        e.withholding_permissions is None ==> !spec_report_entry(id, e).withholding_permissions,
        e.manifest matches Some(man) ==> {
            &&& man.description is None ==> spec_report_entry(id, e).description
                == Seq::<char>::empty()
            &&& man.manifest_version is None ==> spec_report_entry(id, e).manifest_version == 0
            &&& man.version_name is None ==> spec_report_entry(id, e).version_name
                == Seq::<char>::empty()
        },
{
}

/// A successful batch load returns one record per enumerated identifier,
/// keyed by exactly those identifiers, in enumeration order.
pub proof fn lemma_load_all_keys(
    ids: Seq<Seq<char>>,
    reads: Seq<(Seq<char>, Result<Seq<char>, Seq<char>>)>,
)
    requires
        spec_load_all(ids, reads) is Ok,
    ensures
        spec_load_all(ids, reads)->Ok_0.len() == ids.len(),
        forall|i: int|
            0 <= i < ids.len() ==> #[trigger] spec_load_all(ids, reads)->Ok_0[i].0 == ids[i],
    decreases ids.len(),
{
    if ids.len() > 0 {
        lemma_load_all_keys(ids.drop_first(), reads);
    }
}

/// A member bound to `null` reads the same as an absent member: every
/// defensive leaf accessor resolves it to `None`.
pub proof fn lemma_null_reads_as_absent(m: JsonModel, key: Seq<char>)
    requires
        obj_get(m, key) == Some(JsonModel::Null),
    ensures
        field_bool(m, key) is None,
        field_str(m, key) is None,
        field_i32(m, key) is None,
{
}

} // verus!
