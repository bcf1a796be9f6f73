use vstd::prelude::*;
use vstd::string::*;
use crate::text::same_text;

verus! {

/// Why a settings lookup failed.
#[derive(Debug, Clone, PartialEq, Eq)]
pub enum SettingsError {
    /// A configuration field that does not exist was asked for.
    UnknownConfigField(String),
    /// A secret that does not exist was asked for.
    UnknownSecret(String),
}

impl SettingsError {
    /// The human-readable description of the error.
    pub fn message(&self) -> (m: String)
        ensures
            self matches SettingsError::UnknownConfigField(k) ==> m@ == "unknown config field: "@ + k@,
            self matches SettingsError::UnknownSecret(k) ==> m@ == "unknown secret: "@ + k@,
    {
        match self {
            SettingsError::UnknownConfigField(k) => {
                let mut m = String::from_str("unknown config field: ");
                m.append(k.as_str());
                m
            },
            SettingsError::UnknownSecret(k) => {
                let mut m = String::from_str("unknown secret: ");
                m.append(k.as_str());
                m
            },
        }
    }
}

// ---------------------------------------------------------------------------------------
// Configuration
// ---------------------------------------------------------------------------------------

/// Number of configuration fields.
pub const CONFIG_FIELDS: usize = 4;

/// The name of configuration field `i`.
pub open spec fn config_key(i: int) -> Seq<char> {
    if i == 0 {
        "BRIDGE_ADDRESS"@
    } else if i == 1 {
        "BRIDGE_PORT"@
    } else if i == 2 {
        "APP_ID"@
    } else {
        "ENTERTAINMENT_CONFIG_ID"@
    }
}

/// The prompt label of configuration field `i`.
pub open spec fn config_label(i: int) -> Seq<char> {
    if i == 0 {
        "Bridge IP address"@
    } else if i == 1 {
        "Bridge port"@
    } else if i == 2 {
        "App ID"@
    } else {
        "Entertainment config ID"@
    }
}

/// The position of the configuration field named `key`, if there is one.
pub open spec fn config_index(key: Seq<char>) -> Option<int> {
    if key == config_key(0) {
        Some(0)
    } else if key == config_key(1) {
        Some(1)
    } else if key == config_key(2) {
        Some(2)
    } else if key == config_key(3) {
        Some(3)
    } else {
        None
    }
}

/// The configuration field names are pairwise distinct.
pub proof fn lemma_config_keys_distinct()
    ensures
        forall|i: int, j: int|
            0 <= i < CONFIG_FIELDS && 0 <= j < CONFIG_FIELDS && i != j ==> config_key(i) != config_key(j),
{
    reveal_strlit("BRIDGE_ADDRESS");
    reveal_strlit("BRIDGE_PORT");
    reveal_strlit("APP_ID");
    reveal_strlit("ENTERTAINMENT_CONFIG_ID");
    assert(config_key(0).len() == 14);
    assert(config_key(1).len() == 11);
    assert(config_key(2).len() == 6);
    assert(config_key(3).len() == 23);
}

/// The value that the saved pairs give to field `key`: that of the last pair named `key`,
/// or `current` when there is none.
pub open spec fn saved_value(saved: Seq<(String, String)>, key: Seq<char>, current: Seq<char>) -> Seq<char>
    decreases saved.len(),
{
    if saved.len() == 0 {
        current
    } else if saved.last().0@ == key {
        saved.last().1@
    } else {
        saved_value(saved.drop_last(), key, current)
    }
}

/// Every configuration field is found under its own name, so a value written to field `i`
/// is the value that a lookup of `config_key(i)` reads back.
pub proof fn lemma_config_key_finds_own_field(i: int)
    requires
        0 <= i < CONFIG_FIELDS,
    ensures
        config_index(config_key(i)) == Some(i),
{
    lemma_config_keys_distinct();
}

proof fn lemma_saved_prefix(pairs: Seq<(String, String)>, values: Seq<Seq<char>>, current: Seq<char>, i: int, n: int)
    requires
        0 <= i < CONFIG_FIELDS,
        0 <= n <= pairs.len(),
        pairs.len() == CONFIG_FIELDS,
        forall|k: int| 0 <= k < CONFIG_FIELDS ==> (#[trigger] pairs[k]).0@ == config_key(k) && pairs[k].1@ == values[k],
    ensures
        saved_value(pairs.take(n), config_key(i), current) == if i < n { values[i] } else { current },
    decreases n,
{
    lemma_config_keys_distinct();
    if n > 0 {
        assert(pairs.take(n).drop_last() =~= pairs.take(n - 1));
        assert(pairs.take(n).last() == pairs[n - 1]);
        lemma_saved_prefix(pairs, values, current, i, n - 1);
    }
}

/// Saving and loading the configuration round-trips: reading back the pairs that
/// `values_to_save` writes gives every field the value it was saved with, whatever the
/// field held before.
pub proof fn lemma_saved_config_round_trip(
    pairs: Seq<(String, String)>,
    values: Seq<Seq<char>>,
    current: Seq<char>,
    i: int,
)
    requires
        0 <= i < CONFIG_FIELDS,
        pairs.len() == CONFIG_FIELDS,
        forall|k: int| 0 <= k < CONFIG_FIELDS ==> (#[trigger] pairs[k]).0@ == config_key(k) && pairs[k].1@ == values[k],
    ensures
        saved_value(pairs, config_key(i), current) == values[i],
{
    lemma_saved_prefix(pairs, values, current, i, CONFIG_FIELDS as int);
    assert(pairs.take(CONFIG_FIELDS as int) =~= pairs);
}

// ---------------------------------------------------------------------------------------
// The configuration file
// ---------------------------------------------------------------------------------------

/// `serde_json::Error`, the error of reading JSON text.
#[verifier::external_type_specification]
#[verifier::external_body]
pub struct ExJsonError(serde_json::Error);

/// What the text of a configuration file holds: the JSON object of string values that it
/// spells, as a map from name to value, or none when the text is not such an object.
pub uninterp spec fn config_file_entries(text: Seq<char>) -> Option<Map<Seq<char>, Seq<char>>>;

/// The map that name/value pairs make when inserted in order: a later pair wins over an
/// earlier one of the same name.
pub open spec fn pairs_map(pairs: Seq<(String, String)>) -> Map<Seq<char>, Seq<char>>
    decreases pairs.len(),
{
    if pairs.len() == 0 {
        Map::empty()
    } else {
        pairs_map(pairs.drop_last()).insert(pairs.last().0@, pairs.last().1@)
    }
}

/// The file entries that describe the configuration `values`: every field name with the
/// value of that field, and nothing else.
pub open spec fn config_map(values: Seq<Seq<char>>) -> Map<Seq<char>, Seq<char>> {
    Map::new(|k: Seq<char>| config_index(k) is Some, |k: Seq<char>| values[config_index(k)->0])
}

/// The value that a field named `key` takes from the file entries: the entry of that
/// name, or `current` when there is none.
pub open spec fn file_value(entries: Map<Seq<char>, Seq<char>>, key: Seq<char>, current: Seq<char>) -> Seq<char> {
    if entries.dom().contains(key) {
        entries[key]
    } else {
        current
    }
}

/// Parses configuration file text with `serde_json::from_str` into a
/// `HashMap<String, String>` and hands out its entries, in the order in which the map is
/// walked. The contract claims that parsing fails exactly when the text holds no JSON
/// object of strings, and that the pairs handed out make up the object's entries. What
/// the error says, and the order of the pairs, are left unsaid.
#[verifier::external_body]
fn parse_config_file(text: &str) -> (res: Result<Vec<(String, String)>, serde_json::Error>)
    ensures
        res is Err <==> config_file_entries(text@) is None,
        res matches Ok(p) ==> config_file_entries(text@) == Some(pairs_map(p@)),
{
    let saved: std::collections::HashMap<String, String> = serde_json::from_str(text)?;
    Ok(saved.into_iter().collect())
}

/// Writes name/value pairs as configuration file text with `serde_json::to_string_pretty`
/// on the `HashMap<&str, &str>` collected from them. The contract claims that this cannot
/// fail (a map of strings, written to memory) and that the text reads back as the map of
/// the pairs. The order of the entries in the text, which follows the map's walk, is left
/// unsaid.
#[verifier::external_body]
fn write_config_file(pairs: &[(String, String)]) -> (res: Result<String, serde_json::Error>)
    ensures
        res is Ok,
        res matches Ok(t) ==> config_file_entries(t@) == Some(pairs_map(pairs@)),
{
    let values: std::collections::HashMap<&str, &str> = pairs.iter().map(|(k, v)| (k.as_str(), v.as_str())).collect();
    serde_json::to_string_pretty(&values)
}

/// Applying pairs one after another leaves a field with the value that the map of the
/// pairs holds for its name, or with its old value when the map has none.
pub proof fn lemma_saved_value_is_map_value(pairs: Seq<(String, String)>, key: Seq<char>, current: Seq<char>)
    ensures
        saved_value(pairs, key, current) == file_value(pairs_map(pairs), key, current),
    decreases pairs.len(),
{
    if pairs.len() > 0 {
        lemma_saved_value_is_map_value(pairs.drop_last(), key, current);
    }
}

/// The names that the map of `pairs` holds are those of the pairs.
proof fn lemma_pairs_map_names(pairs: Seq<(String, String)>, key: Seq<char>)
    ensures
        pairs_map(pairs).dom().contains(key) <==> exists|i: int| 0 <= i < pairs.len() && (#[trigger] pairs[i]).0@ == key,
    decreases pairs.len(),
{
    if pairs.len() > 0 {
        lemma_pairs_map_names(pairs.drop_last(), key);
        if pairs_map(pairs.drop_last()).dom().contains(key) {
            let i = choose|i: int| 0 <= i < pairs.drop_last().len() && (#[trigger] pairs.drop_last()[i]).0@ == key;
            assert(pairs[i] == pairs.drop_last()[i]);
        }
        if exists|i: int| 0 <= i < pairs.len() && (#[trigger] pairs[i]).0@ == key {
            let i = choose|i: int| 0 <= i < pairs.len() && (#[trigger] pairs[i]).0@ == key;
            if i < pairs.len() - 1 {
                assert(pairs.drop_last()[i] == pairs[i]);
            }
        }
    }
}

/// The pairs that `values_to_save` produces make the map of the configuration.
proof fn lemma_saved_pairs_map(pairs: Seq<(String, String)>, values: Seq<Seq<char>>)
    requires
        pairs.len() == CONFIG_FIELDS,
        values.len() == CONFIG_FIELDS,
        forall|k: int| 0 <= k < CONFIG_FIELDS ==> (#[trigger] pairs[k]).0@ == config_key(k) && pairs[k].1@ == values[k],
    ensures
        pairs_map(pairs) == config_map(values),
{
    assert forall|key: Seq<char>| #[trigger] pairs_map(pairs).dom().contains(key) <==> config_map(values).dom().contains(key) by {
        lemma_pairs_map_names(pairs, key);
        if config_index(key) is Some {
            let i = config_index(key)->0;
            assert(pairs[i].0@ == key);
        }
    }
    assert forall|key: Seq<char>| #[trigger] pairs_map(pairs).dom().contains(key) implies pairs_map(pairs)[key]
        == config_map(values)[key] by {
        lemma_pairs_map_names(pairs, key);
        let i = config_index(key)->0;
        lemma_saved_value_is_map_value(pairs, key, Seq::empty());
        lemma_saved_config_round_trip(pairs, values, Seq::empty(), i);
    }
    assert(pairs_map(pairs) =~= config_map(values));
}

/// A configuration file written from `values` restores them: loading its entries gives
/// every configuration field the value it was written with, whatever it held before.
pub proof fn lemma_config_file_round_trip(values: Seq<Seq<char>>, current: Seq<char>, i: int)
    requires
        values.len() == CONFIG_FIELDS,
        0 <= i < CONFIG_FIELDS,
    ensures
        file_value(config_map(values), config_key(i), current) == values[i],
{
    lemma_config_key_finds_own_field(i);
}

struct ConfigEntry {
    key: &'static str,
    label: &'static str,
    value: String,
}

/// The abstract state of the configuration: one value per field, and whether there are
/// changes not yet written to disk.
pub struct ConfigView {
    pub values: Seq<Seq<char>>,
    pub dirty: bool,
}

/// The non-secret settings: bridge address and port, app id and entertainment configuration.
pub struct AppConfig {
    entries: Vec<ConfigEntry>,
    dirty: bool,
}

impl View for AppConfig {
    type V = ConfigView;

    closed spec fn view(&self) -> ConfigView {
        ConfigView { values: self.entries@.map_values(|e: ConfigEntry| e.value@), dirty: self.dirty }
    }
}

impl AppConfig {
    /// The entries are the configuration fields, in order.
    pub closed spec fn wf(&self) -> bool {
        &&& self.entries@.len() == CONFIG_FIELDS
        &&& forall|i: int|
            0 <= i < CONFIG_FIELDS ==> {
                &&& (#[trigger] self.entries@[i]).key@ == config_key(i)
                &&& self.entries@[i].label@ == config_label(i)
            }
    }

    /// A well-formed configuration has one value per field.
    pub proof fn lemma_len(&self)
        requires
            self.wf(),
        ensures
            self@.values.len() == CONFIG_FIELDS,
    {
    }

    /// A configuration with every field empty and nothing to save.
    pub fn new() -> (c: AppConfig)
        ensures
            c.wf(),
            c@.values == Seq::new(CONFIG_FIELDS as nat, |i: int| Seq::<char>::empty()),
            !c@.dirty,
    {
        let mut entries: Vec<ConfigEntry> = Vec::new();
        entries.push(ConfigEntry { key: "BRIDGE_ADDRESS", label: "Bridge IP address", value: String::new() });
        entries.push(ConfigEntry { key: "BRIDGE_PORT", label: "Bridge port", value: String::new() });
        entries.push(ConfigEntry { key: "APP_ID", label: "App ID", value: String::new() });
        entries.push(ConfigEntry {
            key: "ENTERTAINMENT_CONFIG_ID",
            label: "Entertainment config ID",
            value: String::new(),
        });
        let c = AppConfig { entries, dirty: false };
        assert(c@.values =~= Seq::new(CONFIG_FIELDS as nat, |i: int| Seq::<char>::empty()));
        c
    }

    /// The position of the field named `key`.
    fn position(&self, key: &str) -> (p: Option<usize>)
        requires
            self.wf(),
        ensures
            p matches Some(i) ==> config_index(key@) == Some(i as int),
            p is None ==> config_index(key@) is None,
    {
        let mut i: usize = 0;
        while i < self.entries.len()
            invariant
                self.wf(),
                i <= CONFIG_FIELDS,
                forall|k: int| 0 <= k < i ==> config_key(k) != key@,
            decreases CONFIG_FIELDS - i,
        {
            if same_text(self.entries[i].key, key) {
                return Some(i);
            }
            i = i + 1;
        }
        None
    }

    /// Looks up the values of `keys`, in order. Fails on the first key that is not a
    /// configuration field.
    pub fn get<'a>(&'a self, keys: &[&str]) -> (res: Result<Vec<&'a String>, SettingsError>)
        requires
            self.wf(),
        ensures
            res is Ok <==> forall|k: int| 0 <= k < keys@.len() ==> (#[trigger] config_index(keys@[k]@)) is Some,
            res matches Ok(vals) ==> {
                &&& vals@.len() == keys@.len()
                &&& forall|k: int|
                    0 <= k < keys@.len() ==> (#[trigger] vals@[k])@ == self@.values[config_index(keys@[k]@)->0]
            },
            res matches Err(e) ==> exists|j: int|
                0 <= j < keys@.len() && (#[trigger] config_index(keys@[j]@)) is None && (forall|l: int|
                    0 <= l < j ==> (#[trigger] config_index(keys@[l]@)) is Some) && (e matches SettingsError::UnknownConfigField(s)
                    && s@ == keys@[j]@),
    {
        let mut results: Vec<&'a String> = Vec::new();
        let mut i: usize = 0;
        while i < keys.len()
            invariant
                self.wf(),
                i <= keys@.len(),
                results@.len() == i,
                forall|k: int| 0 <= k < i ==> (#[trigger] config_index(keys@[k]@)) is Some,
                forall|k: int|
                    0 <= k < i ==> (#[trigger] results@[k])@ == self@.values[config_index(keys@[k]@)->0],
            decreases keys@.len() - i,
        {
            match self.position(keys[i]) {
                Some(p) => {
                    results.push(&self.entries[p].value);
                },
                None => {
                    let e = SettingsError::UnknownConfigField(keys[i].to_owned());
                    assert(config_index(keys@[i as int]@) is None);
                    return Err(e);
                },
            }
            i = i + 1;
        }
        Ok(results)
    }

    /// The name of field `i`.
    pub fn key(&self, i: usize) -> (k: &'static str)
        requires
            self.wf(),
            i < CONFIG_FIELDS,
        ensures
            k@ == config_key(i as int),
    {
        self.entries[i].key
    }

    /// The prompt label of field `i`.
    pub fn label(&self, i: usize) -> (l: &'static str)
        requires
            self.wf(),
            i < CONFIG_FIELDS,
        ensures
            l@ == config_label(i as int),
    {
        self.entries[i].label
    }

    /// Whether field `i` holds a value.
    pub fn is_set(&self, i: usize) -> (set: bool)
        requires
            self.wf(),
            i < CONFIG_FIELDS,
        ensures
            set == (self@.values[i as int].len() != 0),
    {
        !self.entries[i].value.as_str().is_empty()
    }

    fn set_value(&mut self, i: usize, value: String)
        requires
            old(self).wf(),
            i < CONFIG_FIELDS,
        ensures
            final(self).wf(),
            final(self)@.values == old(self)@.values.update(i as int, value@),
            final(self)@.dirty == old(self)@.dirty,
    {
        let key = self.entries[i].key;
        let label = self.entries[i].label;
        self.entries.set(i, ConfigEntry { key, label, value });
        assert(self@.values =~= old(self)@.values.update(i as int, value@));
    }

    /// Takes over the values saved on disk: each pair whose name is a configuration field
    /// sets that field (a later pair wins over an earlier one); other pairs are ignored.
    pub fn apply_saved(&mut self, saved: &[(String, String)])
        requires
            old(self).wf(),
        ensures
            final(self).wf(),
            final(self)@.dirty == old(self)@.dirty,
            final(self)@.values.len() == CONFIG_FIELDS,
            forall|i: int|
                0 <= i < CONFIG_FIELDS ==> #[trigger] final(self)@.values[i] == saved_value(
                    saved@,
                    config_key(i),
                    old(self)@.values[i],
                ),
    {
        proof {
            lemma_config_keys_distinct();
        }
        let ghost old_values = self@.values;
        let mut j: usize = 0;
        while j < saved.len()
            invariant
                self.wf(),
                self@.dirty == old(self)@.dirty,
                old_values == old(self)@.values,
                old_values.len() == CONFIG_FIELDS,
                j <= saved@.len(),
                forall|i: int, k: int|
                    0 <= i < CONFIG_FIELDS && 0 <= k < CONFIG_FIELDS && i != k ==> config_key(i) != config_key(k),
                forall|i: int|
                    0 <= i < CONFIG_FIELDS ==> #[trigger] self@.values[i] == saved_value(
                        saved@.take(j as int),
                        config_key(i),
                        old_values[i],
                    ),
            decreases saved@.len() - j,
        {
            let ghost before = self@.values;
            let (k, v) = &saved[j];
            assert(saved@.take(j + 1).drop_last() =~= saved@.take(j as int));
            assert(saved@.take(j + 1).last() == saved@[j as int]);
            match self.position(k.as_str()) {
                Some(p) => {
                    self.set_value(p, v.clone());
                },
                None => {},
            }
            j = j + 1;
        }
        assert(saved@.take(saved@.len() as int) =~= saved@);
    }

    /// Takes over the text of the configuration file: each entry whose name is a
    /// configuration field sets that field; other entries are ignored. Fails, changing
    /// nothing, when the text is not a JSON object of strings.
    pub fn apply_file(&mut self, text: &str) -> (res: Result<(), serde_json::Error>)
        requires
            old(self).wf(),
        ensures
            final(self).wf(),
            res is Err <==> config_file_entries(text@) is None,
            res is Err ==> final(self)@ == old(self)@,
            res is Ok ==> {
                &&& final(self)@.dirty == old(self)@.dirty
                &&& final(self)@.values.len() == CONFIG_FIELDS
                &&& forall|i: int|
                    0 <= i < CONFIG_FIELDS ==> #[trigger] final(self)@.values[i] == file_value(
                        config_file_entries(text@)->0,
                        config_key(i),
                        old(self)@.values[i],
                    )
            },
    {
        match parse_config_file(text) {
            Ok(pairs) => {
                self.apply_saved(pairs.as_slice());
                assert forall|i: int| 0 <= i < CONFIG_FIELDS implies #[trigger] self@.values[i] == file_value(
                    config_file_entries(text@)->0,
                    config_key(i),
                    old(self)@.values[i],
                ) by {
                    lemma_saved_value_is_map_value(pairs@, config_key(i), old(self)@.values[i]);
                }
                Ok(())
            },
            Err(e) => Err(e),
        }
    }

    /// Applies the environment's value for field `i`, if it has one. Returns whether the
    /// field must still be asked for: it has no value from the environment and none
    /// from before.
    pub fn apply_env(&mut self, i: usize, env_value: Option<String>) -> (ask: bool)
        requires
            old(self).wf(),
            i < CONFIG_FIELDS,
        ensures
            final(self).wf(),
            final(self)@.dirty == old(self)@.dirty,
            env_value matches Some(v) ==> final(self)@.values == old(self)@.values.update(i as int, v@) && !ask,
            env_value is None ==> final(self)@.values == old(self)@.values && ask == (old(self)@.values[i as int].len() == 0),
    {
        match env_value {
            Some(v) => {
                self.set_value(i, v);
                false
            },
            None => !self.is_set(i),
        }
    }

    /// Stores the answer typed for field `i`; the configuration then has changes to save.
    pub fn set_prompted(&mut self, i: usize, value: String)
        requires
            old(self).wf(),
            i < CONFIG_FIELDS,
        ensures
            final(self).wf(),
            final(self)@.values == old(self)@.values.update(i as int, value@),
            final(self)@.dirty,
    {
        self.set_value(i, value);
        self.dirty = true;
    }

    /// Applies an answer from the setup dialogue to field `i`: a given value replaces the
    /// field and marks the configuration as changed; no answer keeps the field.
    pub fn apply_setup_answer(&mut self, i: usize, answer: Option<String>)
        requires
            old(self).wf(),
            i < CONFIG_FIELDS,
        ensures
            final(self).wf(),
            answer matches Some(v) ==> final(self)@.values == old(self)@.values.update(i as int, v@) && final(self)@.dirty,
            answer is None ==> final(self)@ == old(self)@,
    {
        match answer {
            Some(v) => self.set_prompted(i, v),
            None => {},
        }
    }

    /// The pairs to write to disk: every field name with its value, in order, when the
    /// configuration has unsaved changes; nothing otherwise.
    pub fn values_to_save(&self) -> (pairs: Option<Vec<(String, String)>>)
        requires
            self.wf(),
        ensures
            pairs is None <==> !self@.dirty,
            pairs matches Some(v) ==> {
                &&& v@.len() == CONFIG_FIELDS
                &&& forall|i: int|
                    0 <= i < CONFIG_FIELDS ==> (#[trigger] v@[i]).0@ == config_key(i) && v@[i].1@
                        == self@.values[i]
            },
    {
        if !self.dirty {
            return None;
        }
        let mut pairs: Vec<(String, String)> = Vec::new();
        let mut i: usize = 0;
        while i < CONFIG_FIELDS
            invariant
                self.wf(),
                i <= CONFIG_FIELDS,
                pairs@.len() == i,
                forall|k: int|
                    0 <= k < i ==> (#[trigger] pairs@[k]).0@ == config_key(k) && pairs@[k].1@ == self@.values[k],
            decreases CONFIG_FIELDS - i,
        {
            pairs.push((self.entries[i].key.to_owned(), self.entries[i].value.clone()));
            i = i + 1;
        }
        Some(pairs)
    }

    /// The text to write to the configuration file: a JSON object of every field name
    /// with its value, when the configuration has unsaved changes; nothing otherwise.
    pub fn file_text(&self) -> (text: Option<String>)
        requires
            self.wf(),
        ensures
            text is None <==> !self@.dirty,
            text matches Some(t) ==> config_file_entries(t@) == Some(config_map(self@.values)),
    {
        match self.values_to_save() {
            Some(pairs) => {
                proof {
                    lemma_saved_pairs_map(pairs@, self@.values);
                }
                match write_config_file(pairs.as_slice()) {
                    Ok(t) => Some(t),
                    Err(_) => None,
                }
            },
            None => None,
        }
    }
}

// ---------------------------------------------------------------------------------------
// Secrets
// ---------------------------------------------------------------------------------------

/// Number of secrets.
pub const SECRET_FIELDS: usize = 2;

/// The name of secret `i`.
pub open spec fn secret_key(i: int) -> Seq<char> {
    if i == 0 {
        "APP_KEY"@
    } else {
        "CLIENT_KEY"@
    }
}

/// The prompt label of secret `i`.
pub open spec fn secret_label(i: int) -> Seq<char> {
    if i == 0 {
        "App key"@
    } else {
        "Client key"@
    }
}

/// The name under which secret `i` is kept in the system keyring.
pub open spec fn secret_keyring_key(i: int) -> Seq<char> {
    if i == 0 {
        "app-key"@
    } else {
        "client-key"@
    }
}

/// The position of the secret named `key`, if there is one.
pub open spec fn secret_index(key: Seq<char>) -> Option<int> {
    if key == secret_key(0) {
        Some(0)
    } else if key == secret_key(1) {
        Some(1)
    } else {
        None
    }
}

/// Every secret is found under its own name, so a value written to secret `i` is the value
/// that a lookup of `secret_key(i)` reads back.
pub proof fn lemma_secret_key_finds_own_field(i: int)
    requires
        0 <= i < SECRET_FIELDS,
    ensures
        secret_index(secret_key(i)) == Some(i),
{
    reveal_strlit("APP_KEY");
    reveal_strlit("CLIENT_KEY");
    assert(secret_key(0).len() == 7);
    assert(secret_key(1).len() == 10);
}

struct SecretEntry {
    key: &'static str,
    label: &'static str,
    keyring_key: &'static str,
    value: String,
    dirty: bool,
}

/// The abstract state of the secrets: one value per secret, and per secret whether it has
/// changed since it was last written to the keyring.
pub struct SecretsView {
    pub values: Seq<Seq<char>>,
    pub dirty: Seq<bool>,
}

/// The pairs (keyring name, value) of the changed secrets among the first `n`, in order.
pub open spec fn secrets_to_store(v: SecretsView, n: int) -> Seq<(Seq<char>, Seq<char>)>
    decreases n,
{
    if n <= 0 {
        Seq::empty()
    } else if v.dirty[n - 1] {
        secrets_to_store(v, n - 1).push((secret_keyring_key(n - 1), v.values[n - 1]))
    } else {
        secrets_to_store(v, n - 1)
    }
}

/// What is written to the keyring is exactly the changed secrets, in order, each under its
/// keyring name (`app-key`, `client-key`) with its value.
pub proof fn lemma_secrets_to_store_changed_only(v: SecretsView)
    ensures
        secrets_to_store(v, SECRET_FIELDS as int) == (if v.dirty[0] {
            seq![("app-key"@, v.values[0])]
        } else {
            Seq::empty()
        }) + (if v.dirty[1] {
            seq![("client-key"@, v.values[1])]
        } else {
            Seq::empty()
        }),
{
    let first: Seq<(Seq<char>, Seq<char>)> = if v.dirty[0] {
        seq![("app-key"@, v.values[0])]
    } else {
        Seq::empty()
    };
    assert(secrets_to_store(v, 0) == Seq::<(Seq<char>, Seq<char>)>::empty());
    assert(secrets_to_store(v, 1) =~= first);
    assert(secrets_to_store(v, SECRET_FIELDS as int) =~= (if v.dirty[0] {
        seq![("app-key"@, v.values[0])]
    } else {
        Seq::empty()
    }) + (if v.dirty[1] {
        seq![("client-key"@, v.values[1])]
    } else {
        Seq::empty()
    }));
}

/// The secret settings: the bridge's application key and the entertainment client key.
pub struct AppSecrets {
    entries: Vec<SecretEntry>,
}

impl View for AppSecrets {
    type V = SecretsView;

    closed spec fn view(&self) -> SecretsView {
        SecretsView {
            values: self.entries@.map_values(|e: SecretEntry| e.value@),
            dirty: self.entries@.map_values(|e: SecretEntry| e.dirty),
        }
    }
}

impl AppSecrets {
    /// The entries are the secrets, in order.
    pub closed spec fn wf(&self) -> bool {
        &&& self.entries@.len() == SECRET_FIELDS
        &&& forall|i: int|
            0 <= i < SECRET_FIELDS ==> {
                &&& (#[trigger] self.entries@[i]).key@ == secret_key(i)
                &&& self.entries@[i].label@ == secret_label(i)
                &&& self.entries@[i].keyring_key@ == secret_keyring_key(i)
            }
    }

    /// Well-formed secrets have one value and one change flag per secret.
    pub proof fn lemma_len(&self)
        requires
            self.wf(),
        ensures
            self@.values.len() == SECRET_FIELDS,
            self@.dirty.len() == SECRET_FIELDS,
    {
    }

    /// Secrets with every value empty and none changed.
    pub fn new() -> (s: AppSecrets)
        ensures
            s.wf(),
            s@.values == Seq::new(SECRET_FIELDS as nat, |i: int| Seq::<char>::empty()),
            s@.dirty == Seq::new(SECRET_FIELDS as nat, |i: int| false),
    {
        let mut entries: Vec<SecretEntry> = Vec::new();
        entries.push(
            SecretEntry {
                key: "APP_KEY",
                label: "App key",
                keyring_key: "app-key",
                value: String::new(),
                dirty: false,
            },
        );
        entries.push(
            SecretEntry {
                key: "CLIENT_KEY",
                label: "Client key",
                keyring_key: "client-key",
                value: String::new(),
                dirty: false,
            },
        );
        let s = AppSecrets { entries };
        assert(s@.values =~= Seq::new(SECRET_FIELDS as nat, |i: int| Seq::<char>::empty()));
        assert(s@.dirty =~= Seq::new(SECRET_FIELDS as nat, |i: int| false));
        s
    }

    fn position(&self, key: &str) -> (p: Option<usize>)
        requires
            self.wf(),
        ensures
            p matches Some(i) ==> secret_index(key@) == Some(i as int),
            p is None ==> secret_index(key@) is None,
    {
        let mut i: usize = 0;
        while i < self.entries.len()
            invariant
                self.wf(),
                i <= SECRET_FIELDS,
                forall|k: int| 0 <= k < i ==> secret_key(k) != key@,
            decreases SECRET_FIELDS - i,
        {
            if same_text(self.entries[i].key, key) {
                return Some(i);
            }
            i = i + 1;
        }
        None
    }

    /// Looks up the values of `keys`, in order. Fails on the first key that is not a secret.
    pub fn get<'a>(&'a self, keys: &[&str]) -> (res: Result<Vec<&'a String>, SettingsError>)
        requires
            self.wf(),
        ensures
            res is Ok <==> forall|k: int| 0 <= k < keys@.len() ==> (#[trigger] secret_index(keys@[k]@)) is Some,
            res matches Ok(vals) ==> {
                &&& vals@.len() == keys@.len()
                &&& forall|k: int|
                    0 <= k < keys@.len() ==> (#[trigger] vals@[k])@ == self@.values[secret_index(keys@[k]@)->0]
            },
            res matches Err(e) ==> exists|j: int|
                0 <= j < keys@.len() && (#[trigger] secret_index(keys@[j]@)) is None && (forall|l: int|
                    0 <= l < j ==> (#[trigger] secret_index(keys@[l]@)) is Some) && (e matches SettingsError::UnknownSecret(s)
                    && s@ == keys@[j]@),
    {
        let mut results: Vec<&'a String> = Vec::new();
        let mut i: usize = 0;
        while i < keys.len()
            invariant
                self.wf(),
                i <= keys@.len(),
                results@.len() == i,
                forall|k: int| 0 <= k < i ==> (#[trigger] secret_index(keys@[k]@)) is Some,
                forall|k: int|
                    0 <= k < i ==> (#[trigger] results@[k])@ == self@.values[secret_index(keys@[k]@)->0],
            decreases keys@.len() - i,
        {
            match self.position(keys[i]) {
                Some(p) => {
                    results.push(&self.entries[p].value);
                },
                None => {
                    let e = SettingsError::UnknownSecret(keys[i].to_owned());
                    assert(secret_index(keys@[i as int]@) is None);
                    return Err(e);
                },
            }
            i = i + 1;
        }
        Ok(results)
    }

    /// The name of secret `i`.
    pub fn key(&self, i: usize) -> (k: &'static str)
        requires
            self.wf(),
            i < SECRET_FIELDS,
        ensures
            k@ == secret_key(i as int),
    {
        self.entries[i].key
    }

    /// The prompt label of secret `i`.
    pub fn label(&self, i: usize) -> (l: &'static str)
        requires
            self.wf(),
            i < SECRET_FIELDS,
        ensures
            l@ == secret_label(i as int),
    {
        self.entries[i].label
    }

    /// The keyring name of secret `i`.
    pub fn keyring_key(&self, i: usize) -> (k: &'static str)
        requires
            self.wf(),
            i < SECRET_FIELDS,
        ensures
            k@ == secret_keyring_key(i as int),
    {
        self.entries[i].keyring_key
    }

    /// Whether secret `i` holds a value.
    pub fn is_set(&self, i: usize) -> (set: bool)
        requires
            self.wf(),
            i < SECRET_FIELDS,
        ensures
            set == (self@.values[i as int].len() != 0),
    {
        !self.entries[i].value.as_str().is_empty()
    }

    fn set_entry(&mut self, i: usize, value: String, dirty: bool)
        requires
            old(self).wf(),
            i < SECRET_FIELDS,
        ensures
            final(self).wf(),
            final(self)@.values == old(self)@.values.update(i as int, value@),
            final(self)@.dirty == old(self)@.dirty.update(i as int, dirty),
    {
        let key = self.entries[i].key;
        let label = self.entries[i].label;
        let keyring_key = self.entries[i].keyring_key;
        self.entries.set(i, SecretEntry { key, label, keyring_key, value, dirty });
        assert(self@.values =~= old(self)@.values.update(i as int, value@));
        assert(self@.dirty =~= old(self)@.dirty.update(i as int, dirty));
    }

    /// Applies the environment's value for secret `i`, if it has one. Returns whether the
    /// value must still be read from the keyring (it must when the environment has none).
    pub fn apply_env(&mut self, i: usize, env_value: Option<String>) -> (from_keyring: bool)
        requires
            old(self).wf(),
            i < SECRET_FIELDS,
        ensures
            final(self).wf(),
            final(self)@.dirty == old(self)@.dirty,
            from_keyring == env_value is None,
            env_value matches Some(v) ==> final(self)@.values == old(self)@.values.update(i as int, v@),
            env_value is None ==> final(self)@.values == old(self)@.values,
    {
        match env_value {
            Some(v) => {
                let dirty = self.entries[i].dirty;
                self.set_entry(i, v, dirty);
                assert(self@.dirty =~= old(self)@.dirty);
                false
            },
            None => true,
        }
    }

    /// Applies the keyring's value for secret `i` (none counts as empty). Returns whether
    /// the secret is still empty and must be asked for.
    pub fn apply_stored(&mut self, i: usize, stored: Option<String>) -> (ask: bool)
        requires
            old(self).wf(),
            i < SECRET_FIELDS,
        ensures
            final(self).wf(),
            final(self)@.dirty == old(self)@.dirty,
            stored matches Some(v) ==> final(self)@.values == old(self)@.values.update(i as int, v@),
            stored is None ==> final(self)@.values == old(self)@.values.update(i as int, Seq::empty()),
            ask == (final(self)@.values[i as int].len() == 0),
    {
        let value = match stored {
            Some(v) => v,
            None => String::new(),
        };
        let dirty = self.entries[i].dirty;
        self.set_entry(i, value, dirty);
        assert(self@.dirty =~= old(self)@.dirty);
        !self.is_set(i)
    }

    /// Stores the answer typed for secret `i` and marks it as changed.
    pub fn set_prompted(&mut self, i: usize, value: String)
        requires
            old(self).wf(),
            i < SECRET_FIELDS,
        ensures
            final(self).wf(),
            final(self)@.values == old(self)@.values.update(i as int, value@),
            final(self)@.dirty == old(self)@.dirty.update(i as int, true),
    {
        self.set_entry(i, value, true);
    }

    /// Applies an answer from the setup dialogue to secret `i`: a given value replaces the
    /// secret and marks it as changed; no answer keeps it.
    pub fn apply_setup_answer(&mut self, i: usize, answer: Option<String>)
        requires
            old(self).wf(),
            i < SECRET_FIELDS,
        ensures
            final(self).wf(),
            answer matches Some(v) ==> final(self)@.values == old(self)@.values.update(i as int, v@)
                && final(self)@.dirty == old(self)@.dirty.update(i as int, true),
            answer is None ==> final(self)@ == old(self)@,
    {
        match answer {
            Some(v) => self.set_prompted(i, v),
            None => {},
        }
    }

    /// The (keyring name, value) pairs of the secrets changed since they were loaded, in
    /// order: what must be written to the keyring.
    pub fn to_store(&self) -> (pairs: Vec<(&'static str, String)>)
        requires
            self.wf(),
        ensures
            pairs@.len() == secrets_to_store(self@, SECRET_FIELDS as int).len(),
            forall|k: int|
                0 <= k < pairs@.len() ==> (#[trigger] pairs@[k]).0@ == secrets_to_store(self@, SECRET_FIELDS as int)[k].0
                    && pairs@[k].1@ == secrets_to_store(self@, SECRET_FIELDS as int)[k].1,
    {
        let mut pairs: Vec<(&'static str, String)> = Vec::new();
        let mut i: usize = 0;
        while i < SECRET_FIELDS
            invariant
                self.wf(),
                i <= SECRET_FIELDS,
                pairs@.len() == secrets_to_store(self@, i as int).len(),
                forall|k: int|
                    0 <= k < pairs@.len() ==> (#[trigger] pairs@[k]).0@ == secrets_to_store(self@, i as int)[k].0
                        && pairs@[k].1@ == secrets_to_store(self@, i as int)[k].1,
            decreases SECRET_FIELDS - i,
        {
            if self.entries[i].dirty {
                pairs.push((self.entries[i].keyring_key, self.entries[i].value.clone()));
            }
            i = i + 1;
        }
        pairs
    }
}

/// All settings: the configuration and the secrets.
pub struct AppSettings {
    pub config: AppConfig,
    pub secrets: AppSecrets,
}

impl AppSettings {
    /// Both parts are well formed.
    pub open spec fn wf(&self) -> bool {
        self.config.wf() && self.secrets.wf()
    }
}

} // verus!
