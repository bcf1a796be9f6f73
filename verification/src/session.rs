use vstd::prelude::*;
use crate::settings::{
    AppConfig, AppSecrets, AppSettings, CONFIG_FIELDS, SECRET_FIELDS, config_file_entries, config_key, config_label,
    config_map, file_value, lemma_config_file_round_trip, secret_key, secret_keyring_key, secret_label,
    secrets_to_store,
};

verus! {

// ---------------------------------------------------------------------------------------
// Loading the settings
// ---------------------------------------------------------------------------------------

/// Where loading the settings stands.
#[derive(Clone, Copy, Debug, PartialEq, Eq, Structural)]
pub enum LoadPhase {
    /// Waiting for the configuration saved on disk.
    Start,
    /// Waiting for the environment's value of configuration field `i`.
    ConfigEnv(usize),
    /// Waiting for the answer typed for configuration field `i`.
    ConfigPrompt(usize),
    /// Waiting for the configuration to be written to disk.
    ConfigSave,
    /// Waiting for the environment's value of secret `i`.
    SecretEnv(usize),
    /// Waiting for the keyring's value of secret `i`.
    SecretKeyring(usize),
    /// Waiting for the answer typed for secret `i`.
    SecretPrompt(usize),
    /// Waiting for the changed secrets to be written to the keyring.
    SecretStore,
    /// Loading is complete.
    Finished,
    /// Loading stopped: the configuration file could not be read.
    Failed,
}

/// What the caller must do next while loading the settings.
pub enum LoadAction {
    /// Read the environment variable of that name (answer with `LoadEvent::Env`).
    ReadEnv(&'static str),
    /// Read the keyring entry of that name (answer with `LoadEvent::Stored`).
    ReadKeyring(&'static str),
    /// Ask the user for the value with that label (answer with `LoadEvent::Answer`).
    Prompt(&'static str),
    /// Write this text to the configuration file (answer with `LoadEvent::Done`).
    SaveConfig(String),
    /// Write these keyring name/value pairs to the keyring (answer with `LoadEvent::Done`).
    StoreSecrets(Vec<(&'static str, String)>),
    /// Nothing more: the settings are loaded.
    Finished,
    /// Stop with this error: the configuration file does not hold a JSON object of strings.
    InvalidConfigFile(serde_json::Error),
}

/// What the caller reports back while loading the settings.
pub enum LoadEvent {
    /// The text of the configuration file (none when there is no file).
    Saved(Option<String>),
    /// The value of an environment variable, if it is set.
    Env(Option<String>),
    /// The value of a keyring entry, if it could be read.
    Stored(Option<String>),
    /// The line typed at a prompt.
    Answer(String),
    /// The requested write has been done.
    Done,
}

/// Whether `event` is the kind of report that `phase` waits for.
pub open spec fn load_event_fits(phase: LoadPhase, event: LoadEvent) -> bool {
    match phase {
        LoadPhase::Start => event is Saved,
        LoadPhase::ConfigEnv(_) => event is Env,
        LoadPhase::ConfigPrompt(_) => event is Answer,
        LoadPhase::ConfigSave => event is Done,
        LoadPhase::SecretEnv(_) => event is Env,
        LoadPhase::SecretKeyring(_) => event is Stored,
        LoadPhase::SecretPrompt(_) => event is Answer,
        LoadPhase::SecretStore => event is Done,
        LoadPhase::Finished => false,
        LoadPhase::Failed => false,
    }
}

/// How far loading has got: every step moves to a later position, and `Finished` is the
/// last one, so loading takes at most that many steps.
pub open spec fn load_position(phase: LoadPhase) -> int {
    match phase {
        LoadPhase::Start => 0,
        LoadPhase::ConfigEnv(i) => 1 + 2 * i,
        LoadPhase::ConfigPrompt(i) => 2 + 2 * i,
        LoadPhase::ConfigSave => 2 * CONFIG_FIELDS + 1,
        LoadPhase::SecretEnv(i) => 2 * CONFIG_FIELDS + 2 + 3 * i,
        LoadPhase::SecretKeyring(i) => 2 * CONFIG_FIELDS + 3 + 3 * i,
        LoadPhase::SecretPrompt(i) => 2 * CONFIG_FIELDS + 4 + 3 * i,
        LoadPhase::SecretStore => 2 * CONFIG_FIELDS + 2 + 3 * SECRET_FIELDS,
        LoadPhase::Finished => 2 * CONFIG_FIELDS + 3 + 3 * SECRET_FIELDS,
        LoadPhase::Failed => 2 * CONFIG_FIELDS + 3 + 3 * SECRET_FIELDS,
    }
}

/// The indices held by `phase` are in range.
pub open spec fn load_phase_wf(phase: LoadPhase) -> bool {
    match phase {
        LoadPhase::ConfigEnv(i) => i < CONFIG_FIELDS,
        LoadPhase::ConfigPrompt(i) => i < CONFIG_FIELDS,
        LoadPhase::SecretEnv(i) => i < SECRET_FIELDS,
        LoadPhase::SecretKeyring(i) => i < SECRET_FIELDS,
        LoadPhase::SecretPrompt(i) => i < SECRET_FIELDS,
        _ => true,
    }
}

/// The phase after configuration fields up to `j` have been settled: the next field, else
/// saving the configuration when it has changes, else the first secret.
pub open spec fn after_config_field(j: int, dirty: bool) -> LoadPhase {
    if j < CONFIG_FIELDS {
        LoadPhase::ConfigEnv(j as usize)
    } else if dirty {
        LoadPhase::ConfigSave
    } else {
        LoadPhase::SecretEnv(0)
    }
}

/// The phase after secrets up to `j` have been settled: the next secret, else storing.
pub open spec fn after_secret(j: int) -> LoadPhase {
    if j < SECRET_FIELDS {
        LoadPhase::SecretEnv(j as usize)
    } else {
        LoadPhase::SecretStore
    }
}

/// The action that asks for what `phase` waits for.
pub open spec fn load_action_for(phase: LoadPhase, s: AppSettings, action: LoadAction) -> bool {
    match phase {
        LoadPhase::Start => false,
        LoadPhase::ConfigEnv(i) => action matches LoadAction::ReadEnv(k) && k@ == config_key(i as int),
        LoadPhase::ConfigPrompt(i) => action matches LoadAction::Prompt(l) && l@ == config_label(i as int),
        LoadPhase::ConfigSave => action matches LoadAction::SaveConfig(t) && config_file_entries(t@) == Some(
            config_map(s.config@.values),
        ),
        LoadPhase::SecretEnv(i) => action matches LoadAction::ReadEnv(k) && k@ == secret_key(i as int),
        LoadPhase::SecretKeyring(i) => action matches LoadAction::ReadKeyring(k) && k@ == secret_keyring_key(
            i as int,
        ),
        LoadPhase::SecretPrompt(i) => action matches LoadAction::Prompt(l) && l@ == secret_label(i as int),
        LoadPhase::SecretStore => action matches LoadAction::StoreSecrets(p) && {
            &&& p@.len() == secrets_to_store(s.secrets@, SECRET_FIELDS as int).len()
            &&& forall|k: int|
                0 <= k < p@.len() ==> (#[trigger] p@[k]).0@ == secrets_to_store(s.secrets@, SECRET_FIELDS as int)[k].0
                    && p@[k].1@ == secrets_to_store(s.secrets@, SECRET_FIELDS as int)[k].1
        },
        LoadPhase::Finished => action is Finished,
        LoadPhase::Failed => action is InvalidConfigFile,
    }
}

/// How one step of loading changes the settings and the phase.
pub open spec fn load_step(old_phase: LoadPhase, event: LoadEvent, old_s: AppSettings, new_s: AppSettings, new_phase: LoadPhase) -> bool {
            match (old_phase, event) {
                (LoadPhase::Start, LoadEvent::Saved(None)) => {
                    &&& new_s.secrets@ == old_s.secrets@
                    &&& new_s.config@ == old_s.config@
                    &&& new_phase == LoadPhase::ConfigEnv(0)
                },
                (LoadPhase::Start, LoadEvent::Saved(Some(text))) => {
                    &&& new_s.secrets@ == old_s.secrets@
                    &&& match config_file_entries(text@) {
                        None => {
                            &&& new_s.config@ == old_s.config@
                            &&& new_phase == LoadPhase::Failed
                        },
                        Some(entries) => {
                            &&& new_s.config@.dirty == old_s.config@.dirty
                            &&& new_s.config@.values.len() == CONFIG_FIELDS
                            &&& forall|i: int|
                                0 <= i < CONFIG_FIELDS ==> #[trigger] new_s.config@.values[i] == file_value(
                                    entries,
                                    config_key(i),
                                    old_s.config@.values[i],
                                )
                            &&& new_phase == LoadPhase::ConfigEnv(0)
                        },
                    }
                },
                (LoadPhase::ConfigEnv(i), LoadEvent::Env(Some(v))) => {
                    &&& new_s.secrets@ == old_s.secrets@
                    &&& new_s.config@.values == old_s.config@.values.update(i as int, v@)
                    &&& new_s.config@.dirty == old_s.config@.dirty
                    &&& new_phase == after_config_field(i + 1, old_s.config@.dirty)
                },
                (LoadPhase::ConfigEnv(i), LoadEvent::Env(None)) => {
                    &&& new_s.secrets@ == old_s.secrets@
                    &&& new_s.config@ == old_s.config@
                    &&& new_phase == if old_s.config@.values[i as int].len() == 0 {
                        LoadPhase::ConfigPrompt(i)
                    } else {
                        after_config_field(i + 1, old_s.config@.dirty)
                    }
                },
                (LoadPhase::ConfigPrompt(i), LoadEvent::Answer(v)) => {
                    &&& new_s.secrets@ == old_s.secrets@
                    &&& new_s.config@.values == old_s.config@.values.update(i as int, v@)
                    &&& new_s.config@.dirty
                    &&& new_phase == after_config_field(i + 1, true)
                },
                (LoadPhase::ConfigSave, LoadEvent::Done) => {
                    &&& new_s.secrets@ == old_s.secrets@
                    &&& new_s.config@ == old_s.config@
                    &&& new_phase == LoadPhase::SecretEnv(0)
                },
                (LoadPhase::SecretEnv(i), LoadEvent::Env(Some(v))) => {
                    &&& new_s.config@ == old_s.config@
                    &&& new_s.secrets@.values == old_s.secrets@.values.update(i as int, v@)
                    &&& new_s.secrets@.dirty == old_s.secrets@.dirty
                    &&& new_phase == after_secret(i + 1)
                },
                (LoadPhase::SecretEnv(i), LoadEvent::Env(None)) => {
                    &&& new_s.config@ == old_s.config@
                    &&& new_s.secrets@ == old_s.secrets@
                    &&& new_phase == LoadPhase::SecretKeyring(i)
                },
                (LoadPhase::SecretKeyring(i), LoadEvent::Stored(stored)) => {
                    let value = match stored {
                        Some(v) => v@,
                        None => Seq::<char>::empty(),
                    };
                    &&& new_s.config@ == old_s.config@
                    &&& new_s.secrets@.values == old_s.secrets@.values.update(i as int, value)
                    &&& new_s.secrets@.dirty == old_s.secrets@.dirty
                    &&& new_phase == if value.len() == 0 {
                        LoadPhase::SecretPrompt(i)
                    } else {
                        after_secret(i + 1)
                    }
                },
                (LoadPhase::SecretPrompt(i), LoadEvent::Answer(v)) => {
                    &&& new_s.config@ == old_s.config@
                    &&& new_s.secrets@.values == old_s.secrets@.values.update(i as int, v@)
                    &&& new_s.secrets@.dirty == old_s.secrets@.dirty.update(i as int, true)
                    &&& new_phase == after_secret(i + 1)
                },
                (LoadPhase::SecretStore, LoadEvent::Done) => {
                    &&& new_s.config@ == old_s.config@
                    &&& new_s.secrets@ == old_s.secrets@
                    &&& new_phase == LoadPhase::Finished
                },
                _ => false,
            }
}

impl AppSettings {
    /// Settings with every value empty, before anything has been loaded.
    pub fn new() -> (s: AppSettings)
        ensures
            s.wf(),
            s.config@.values == Seq::new(CONFIG_FIELDS as nat, |i: int| Seq::<char>::empty()),
            !s.config@.dirty,
            s.secrets@.values == Seq::new(SECRET_FIELDS as nat, |i: int| Seq::<char>::empty()),
            s.secrets@.dirty == Seq::new(SECRET_FIELDS as nat, |i: int| false),
    {
        AppSettings { config: AppConfig::new(), secrets: AppSecrets::new() }
    }

    fn begin_load(&mut self, phase: &mut LoadPhase, text: Option<String>) -> (action: LoadAction)
        requires
            old(self).wf(),
            *old(phase) == LoadPhase::Start,
        ensures
            final(self).wf(),
            load_phase_wf(*final(phase)),
            load_action_for(*final(phase), *final(self), action),
            load_step(*old(phase), LoadEvent::Saved(text), *old(self), *final(self), *final(phase)),
    {
        proof {
            self.config.lemma_len();
        }
        match text {
            None => {
                *phase = LoadPhase::ConfigEnv(0);
                LoadAction::ReadEnv(self.config.key(0))
            },
            Some(t) => {
                match self.config.apply_file(t.as_str()) {
                    Ok(()) => {
                        *phase = LoadPhase::ConfigEnv(0);
                        LoadAction::ReadEnv(self.config.key(0))
                    },
                    Err(e) => {
                        *phase = LoadPhase::Failed;
                        LoadAction::InvalidConfigFile(e)
                    },
                }
            },
        }
    }

    fn next_config_field(&self, phase: &mut LoadPhase, j: usize) -> (action: LoadAction)
        requires
            self.wf(),
            j <= CONFIG_FIELDS,
        ensures
            *final(phase) == after_config_field(j as int, self.config@.dirty),
            load_action_for(*final(phase), *self, action),
    {
        if j < CONFIG_FIELDS {
            *phase = LoadPhase::ConfigEnv(j);
            LoadAction::ReadEnv(self.config.key(j))
        } else {
            match self.config.file_text() {
                Some(text) => {
                    *phase = LoadPhase::ConfigSave;
                    LoadAction::SaveConfig(text)
                },
                None => {
                    *phase = LoadPhase::SecretEnv(0);
                    LoadAction::ReadEnv(self.secrets.key(0))
                },
            }
        }
    }

    fn next_secret(&self, phase: &mut LoadPhase, j: usize) -> (action: LoadAction)
        requires
            self.wf(),
            j <= SECRET_FIELDS,
        ensures
            *final(phase) == after_secret(j as int),
            load_action_for(*final(phase), *self, action),
    {
        if j < SECRET_FIELDS {
            *phase = LoadPhase::SecretEnv(j);
            LoadAction::ReadEnv(self.secrets.key(j))
        } else {
            *phase = LoadPhase::SecretStore;
            LoadAction::StoreSecrets(self.secrets.to_store())
        }
    }

    /// One step of loading the settings. Loading starts from `AppSettings::new()` in phase
    /// `Start` with the text of the configuration file, if there is one: its entries set
    /// the configuration fields they name, and text that is not a JSON object of strings
    /// stops loading with that error. Each configuration field
    /// then takes its value from the environment if set there; a field still empty is
    /// asked for, which marks the configuration as changed; a changed configuration is
    /// saved. Each secret then takes its value from the environment if set there, else from
    /// the keyring; a secret still empty is asked for and marked as changed; finally the
    /// changed secrets are written to the keyring.
    pub fn load(&mut self, phase: &mut LoadPhase, event: LoadEvent) -> (action: LoadAction)
        requires
            old(self).wf(),
            load_phase_wf(*old(phase)),
            load_event_fits(*old(phase), event),
        ensures
            final(self).wf(),
            load_phase_wf(*final(phase)),
            load_action_for(*final(phase), *final(self), action),
            load_position(*old(phase)) < load_position(*final(phase)) <= load_position(LoadPhase::Finished),
            load_step(*old(phase), event, *old(self), *final(self), *final(phase)),
    {
        match event {
            LoadEvent::Saved(text) => {
                self.begin_load(phase, text)
            },
            LoadEvent::Env(value) => {
                match *phase {
                    LoadPhase::ConfigEnv(i) => {
                        if self.config.apply_env(i, value) {
                            *phase = LoadPhase::ConfigPrompt(i);
                            LoadAction::Prompt(self.config.label(i))
                        } else {
                            self.next_config_field(phase, i + 1)
                        }
                    },
                    LoadPhase::SecretEnv(i) => {
                        if self.secrets.apply_env(i, value) {
                            *phase = LoadPhase::SecretKeyring(i);
                            LoadAction::ReadKeyring(self.secrets.keyring_key(i))
                        } else {
                            self.next_secret(phase, i + 1)
                        }
                    },
                    _ => {
                        assert(false);
                        LoadAction::Finished
                    },
                }
            },
            LoadEvent::Stored(stored) => {
                match *phase {
                    LoadPhase::SecretKeyring(i) => {
                        proof {
                            self.secrets.lemma_len();
                        }
                        if self.secrets.apply_stored(i, stored) {
                            *phase = LoadPhase::SecretPrompt(i);
                            LoadAction::Prompt(self.secrets.label(i))
                        } else {
                            self.next_secret(phase, i + 1)
                        }
                    },
                    _ => {
                        assert(false);
                        LoadAction::Finished
                    },
                }
            },
            LoadEvent::Answer(v) => {
                match *phase {
                    LoadPhase::ConfigPrompt(i) => {
                        self.config.set_prompted(i, v);
                        self.next_config_field(phase, i + 1)
                    },
                    LoadPhase::SecretPrompt(i) => {
                        self.secrets.set_prompted(i, v);
                        self.next_secret(phase, i + 1)
                    },
                    _ => {
                        assert(false);
                        LoadAction::Finished
                    },
                }
            },
            LoadEvent::Done => {
                match *phase {
                    LoadPhase::ConfigSave => {
                        *phase = LoadPhase::SecretEnv(0);
                        LoadAction::ReadEnv(self.secrets.key(0))
                    },
                    _ => {
                        *phase = LoadPhase::Finished;
                        LoadAction::Finished
                    },
                }
            },
        }
    }
}

/// A configuration file written from `values` gives them back: when loading starts from
/// its text, every configuration field takes the value it was written with, whatever it
/// held before, and loading goes on to the first field's environment variable.
pub proof fn lemma_load_restores_config_file(
    text: String,
    values: Seq<Seq<char>>,
    old_s: AppSettings,
    new_s: AppSettings,
    new_phase: LoadPhase,
)
    requires
        values.len() == CONFIG_FIELDS,
        load_step(LoadPhase::Start, LoadEvent::Saved(Some(text)), old_s, new_s, new_phase),
    ensures
        config_file_entries(text@) == Some(config_map(values)) ==> {
            &&& new_s.config@.values == values
            &&& new_s.secrets@ == old_s.secrets@
            &&& new_phase == LoadPhase::ConfigEnv(0)
        },
{
    if config_file_entries(text@) == Some(config_map(values)) {
        assert forall|i: int| 0 <= i < CONFIG_FIELDS implies new_s.config@.values[i] == values[i] by {
            lemma_config_file_round_trip(values, old_s.config@.values[i], i);
        }
        assert(new_s.config@.values =~= values);
    }
}

/// Whether `phases`, `events` and `states` record a run of `load` from its start: step `k`
/// takes phase `k` and settings `k`, with event `k`, to phase and settings `k + 1`.
pub open spec fn load_run(phases: Seq<LoadPhase>, events: Seq<LoadEvent>, states: Seq<AppSettings>) -> bool {
    &&& phases.len() == events.len() + 1
    &&& states.len() == events.len() + 1
    &&& phases[0] == LoadPhase::Start
    &&& forall|k: int|
        0 <= k < events.len() ==> #[trigger] load_step(phases[k], events[k], states[k], states[k + 1], phases[k + 1])
}

/// Whether a step from `phase` may change configuration field `i`.
pub open spec fn touches_config_field(phase: LoadPhase, i: int) -> bool {
    phase == LoadPhase::Start || phase == LoadPhase::ConfigEnv(i as usize) || phase == LoadPhase::ConfigPrompt(
        i as usize,
    )
}

/// Whether a step from `phase` may change secret `i`.
pub open spec fn touches_secret(phase: LoadPhase, i: int) -> bool {
    phase == LoadPhase::SecretEnv(i as usize) || phase == LoadPhase::SecretKeyring(i as usize) || phase
        == LoadPhase::SecretPrompt(i as usize)
}

proof fn lemma_load_run_step(phases: Seq<LoadPhase>, events: Seq<LoadEvent>, states: Seq<AppSettings>, k: int)
    requires
        load_run(phases, events, states),
        0 <= k < events.len(),
    ensures
        load_step(phases[k], events[k], states[k], states[k + 1], phases[k + 1]),
{
}

proof fn lemma_load_step_facts(
    old_phase: LoadPhase,
    event: LoadEvent,
    old_s: AppSettings,
    new_s: AppSettings,
    new_phase: LoadPhase,
    i: int,
)
    requires
        load_step(old_phase, event, old_s, new_s, new_phase),
        load_phase_wf(old_phase),
        old_s.config@.values.len() == CONFIG_FIELDS,
        old_s.secrets@.values.len() == SECRET_FIELDS,
        0 <= i,
    ensures
        load_phase_wf(new_phase),
        load_position(old_phase) < load_position(new_phase),
        new_s.config@.values.len() == CONFIG_FIELDS,
        new_s.secrets@.values.len() == SECRET_FIELDS,
        i < CONFIG_FIELDS && !touches_config_field(old_phase, i) ==> new_s.config@.values[i] == old_s.config@.values[i],
        i < SECRET_FIELDS && !touches_secret(old_phase, i) ==> new_s.secrets@.values[i] == old_s.secrets@.values[i],
{
}

proof fn lemma_load_run_wf(phases: Seq<LoadPhase>, events: Seq<LoadEvent>, states: Seq<AppSettings>, j: int)
    requires
        load_run(phases, events, states),
        states[0].config@.values.len() == CONFIG_FIELDS,
        states[0].secrets@.values.len() == SECRET_FIELDS,
        0 <= j <= events.len(),
    ensures
        load_phase_wf(phases[j]),
        states[j].config@.values.len() == CONFIG_FIELDS,
        states[j].secrets@.values.len() == SECRET_FIELDS,
    decreases j,
{
    if j > 0 {
        lemma_load_run_wf(phases, events, states, j - 1);
        lemma_load_run_step(phases, events, states, j - 1);
        lemma_load_step_facts(phases[j - 1], events[j - 1], states[j - 1], states[j], phases[j], 0);
    }
}

proof fn lemma_load_run_advances(
    phases: Seq<LoadPhase>,
    events: Seq<LoadEvent>,
    states: Seq<AppSettings>,
    j1: int,
    j2: int,
)
    requires
        load_run(phases, events, states),
        states[0].config@.values.len() == CONFIG_FIELDS,
        states[0].secrets@.values.len() == SECRET_FIELDS,
        0 <= j1 < j2 <= events.len(),
    ensures
        load_position(phases[j1]) < load_position(phases[j2]),
    decreases j2,
{
    lemma_load_run_wf(phases, events, states, j2 - 1);
    lemma_load_run_step(phases, events, states, j2 - 1);
    lemma_load_step_facts(phases[j2 - 1], events[j2 - 1], states[j2 - 1], states[j2], phases[j2], 0);
    if j1 < j2 - 1 {
        lemma_load_run_advances(phases, events, states, j1, j2 - 1);
    }
}

proof fn lemma_load_run_keeps_field(
    phases: Seq<LoadPhase>,
    events: Seq<LoadEvent>,
    states: Seq<AppSettings>,
    i: int,
    j1: int,
    j2: int,
)
    requires
        load_run(phases, events, states),
        states[0].config@.values.len() == CONFIG_FIELDS,
        states[0].secrets@.values.len() == SECRET_FIELDS,
        0 <= i < CONFIG_FIELDS,
        0 <= j1 <= j2 <= events.len(),
        forall|j: int| j1 <= j < j2 ==> !touches_config_field(#[trigger] phases[j], i),
    ensures
        states[j2].config@.values[i] == states[j1].config@.values[i],
    decreases j2 - j1,
{
    if j1 < j2 {
        lemma_load_run_keeps_field(phases, events, states, i, j1, j2 - 1);
        lemma_load_run_wf(phases, events, states, j2 - 1);
        assert(!touches_config_field(phases[j2 - 1], i));
        lemma_load_run_step(phases, events, states, j2 - 1);
        lemma_load_step_facts(phases[j2 - 1], events[j2 - 1], states[j2 - 1], states[j2], phases[j2], i);
    }
}

/// Over a whole run of loading, configuration field `i` ends with the value that its own
/// steps settle: the environment's value when the variable is set; else, when that is
/// empty or unset, the value it had on reaching that step, which is the configuration
/// file's value, and kept when not empty; else the answer typed at its prompt. No later
/// step changes it.
pub proof fn lemma_load_run_settles_config_field(
    phases: Seq<LoadPhase>,
    events: Seq<LoadEvent>,
    states: Seq<AppSettings>,
    i: int,
    k: int,
)
    requires
        load_run(phases, events, states),
        states[0].wf(),
        0 <= i < CONFIG_FIELDS,
        0 <= k < events.len(),
    ensures
        phases[k] == LoadPhase::ConfigEnv(i as usize) ==> states[k].config@.values[i] == states[1].config@.values[i],
        phases[k] == LoadPhase::ConfigEnv(i as usize) ==> (events[k] matches LoadEvent::Env(Some(v))
            ==> states.last().config@.values[i] == v@),
        phases[k] == LoadPhase::ConfigEnv(i as usize) && states[k].config@.values[i].len() != 0 ==> (
        events[k] matches LoadEvent::Env(None) ==> states.last().config@.values[i] == states[k].config@.values[i]),
        phases[k] == LoadPhase::ConfigPrompt(i as usize) ==> (events[k] matches LoadEvent::Answer(v)
            ==> states.last().config@.values[i] == v@),
{
    let n = events.len() as int;
    states[0].config.lemma_len();
    states[0].secrets.lemma_len();
    lemma_load_run_wf(phases, events, states, k);
    lemma_load_run_step(phases, events, states, k);
    lemma_load_step_facts(phases[k], events[k], states[k], states[k + 1], phases[k + 1], i);
    if phases[k] == LoadPhase::ConfigEnv(i as usize) || phases[k] == LoadPhase::ConfigPrompt(i as usize) {
        let settles = (phases[k] == LoadPhase::ConfigEnv(i as usize) && events[k] is Env && (events[k]->Env_0 is Some
            || states[k].config@.values[i].len() != 0)) || phases[k] == LoadPhase::ConfigPrompt(i as usize);
        if settles {
            if phases[k] == LoadPhase::ConfigEnv(i as usize) {
                assert(phases[k + 1] == after_config_field(i + 1, states[k].config@.dirty));
            }
            assert(load_position(phases[k + 1]) > 2 + 2 * i);
            assert forall|j: int| k + 1 <= j < n implies !touches_config_field(#[trigger] phases[j], i) by {
                if k + 1 < j {
                    lemma_load_run_advances(phases, events, states, k + 1, j);
                }
            }
            lemma_load_run_keeps_field(phases, events, states, i, k + 1, n);
        }
    }
    if phases[k] == LoadPhase::ConfigEnv(i as usize) {
        assert(k != 0);
        assert forall|j: int| 1 <= j < k implies !touches_config_field(#[trigger] phases[j], i) by {
            lemma_load_run_advances(phases, events, states, 0, j);
            lemma_load_run_advances(phases, events, states, j, k);
        }
        lemma_load_run_keeps_field(phases, events, states, i, 1, k);
    }
}

proof fn lemma_load_run_keeps_secret(
    phases: Seq<LoadPhase>,
    events: Seq<LoadEvent>,
    states: Seq<AppSettings>,
    i: int,
    j1: int,
    j2: int,
)
    requires
        load_run(phases, events, states),
        states[0].config@.values.len() == CONFIG_FIELDS,
        states[0].secrets@.values.len() == SECRET_FIELDS,
        0 <= i < SECRET_FIELDS,
        0 <= j1 <= j2 <= events.len(),
        forall|j: int| j1 <= j < j2 ==> !touches_secret(#[trigger] phases[j], i),
    ensures
        states[j2].secrets@.values[i] == states[j1].secrets@.values[i],
    decreases j2 - j1,
{
    if j1 < j2 {
        lemma_load_run_keeps_secret(phases, events, states, i, j1, j2 - 1);
        lemma_load_run_wf(phases, events, states, j2 - 1);
        assert(!touches_secret(phases[j2 - 1], i));
        lemma_load_run_step(phases, events, states, j2 - 1);
        lemma_load_step_facts(phases[j2 - 1], events[j2 - 1], states[j2 - 1], states[j2], phases[j2], i);
    }
}

/// Over a whole run of loading, secret `i` ends with the value that its own steps settle:
/// the environment's value when the variable is set; else the keyring's value when it is
/// there and not empty; else the answer typed at its prompt. No later step changes it.
pub proof fn lemma_load_run_settles_secret(
    phases: Seq<LoadPhase>,
    events: Seq<LoadEvent>,
    states: Seq<AppSettings>,
    i: int,
    k: int,
)
    requires
        load_run(phases, events, states),
        states[0].wf(),
        0 <= i < SECRET_FIELDS,
        0 <= k < events.len(),
    ensures
        phases[k] == LoadPhase::SecretEnv(i as usize) ==> (events[k] matches LoadEvent::Env(Some(v))
            ==> states.last().secrets@.values[i] == v@),
        phases[k] == LoadPhase::SecretKeyring(i as usize) ==> (events[k] matches LoadEvent::Stored(Some(v))
            ==> (v@.len() != 0 ==> states.last().secrets@.values[i] == v@)),
        phases[k] == LoadPhase::SecretPrompt(i as usize) ==> (events[k] matches LoadEvent::Answer(v)
            ==> states.last().secrets@.values[i] == v@),
{
    let n = events.len() as int;
    states[0].config.lemma_len();
    states[0].secrets.lemma_len();
    lemma_load_run_wf(phases, events, states, k);
    lemma_load_run_step(phases, events, states, k);
    lemma_load_step_facts(phases[k], events[k], states[k], states[k + 1], phases[k + 1], i);
    let settles = (phases[k] == LoadPhase::SecretEnv(i as usize) && events[k] is Env && events[k]->Env_0 is Some) || (
    phases[k] == LoadPhase::SecretKeyring(i as usize) && events[k] is Stored && events[k]->Stored_0 is Some && (
    events[k]->Stored_0)->0@.len() != 0) || phases[k] == LoadPhase::SecretPrompt(i as usize);
    if settles {
        if phases[k] == LoadPhase::SecretEnv(i as usize) || phases[k] == LoadPhase::SecretKeyring(i as usize) {
            assert(phases[k + 1] == after_secret(i + 1));
        }
        assert(load_position(phases[k + 1]) > load_position(LoadPhase::SecretPrompt(i as usize)));
        assert forall|j: int| k + 1 <= j < n implies !touches_secret(#[trigger] phases[j], i) by {
            if k + 1 < j {
                lemma_load_run_advances(phases, events, states, k + 1, j);
            }
        }
        lemma_load_run_keeps_secret(phases, events, states, i, k + 1, n);
    }
}

// ---------------------------------------------------------------------------------------
// The setup dialogue
// ---------------------------------------------------------------------------------------

/// Where the setup dialogue stands.
#[derive(Clone, Copy, Debug, PartialEq, Eq, Structural)]
pub enum SetupPhase {
    /// Not started.
    Start,
    /// Waiting for the answer for configuration field `i`.
    ConfigAsk(usize),
    /// Waiting for the configuration to be written to disk.
    ConfigSave,
    /// Waiting for the answer for secret `i`.
    SecretAsk(usize),
    /// Waiting for the changed secrets to be written to the keyring.
    SecretStore,
    /// The dialogue is over.
    Finished,
}

/// What the caller must do next in the setup dialogue.
pub enum SetupAction {
    /// Ask for a new value for the setting with this label, telling the user whether it
    /// holds a value now (answer with `SetupEvent::Answer`).
    Ask { label: &'static str, is_set: bool },
    /// Write this text to the configuration file (answer with `SetupEvent::Done`).
    SaveConfig(String),
    /// Write these keyring name/value pairs to the keyring (answer with `SetupEvent::Done`).
    StoreSecrets(Vec<(&'static str, String)>),
    /// The dialogue is over.
    Finished,
}

/// What the caller reports back in the setup dialogue.
pub enum SetupEvent {
    /// Start the dialogue.
    Begin,
    /// The answer given: a new value, or none to keep the current one.
    Answer(Option<String>),
    /// The requested write has been done.
    Done,
}

/// Whether `event` is the kind of report that `phase` waits for.
pub open spec fn setup_event_fits(phase: SetupPhase, event: SetupEvent) -> bool {
    match phase {
        SetupPhase::Start => event is Begin,
        SetupPhase::ConfigAsk(_) => event is Answer,
        SetupPhase::ConfigSave => event is Done,
        SetupPhase::SecretAsk(_) => event is Answer,
        SetupPhase::SecretStore => event is Done,
        SetupPhase::Finished => false,
    }
}

/// How far the dialogue has got: every step moves to a later position, and `Finished` is
/// the last one, so the dialogue takes at most that many steps.
pub open spec fn setup_position(phase: SetupPhase) -> int {
    match phase {
        SetupPhase::Start => 0,
        SetupPhase::ConfigAsk(i) => 1 + i,
        SetupPhase::ConfigSave => CONFIG_FIELDS + 1,
        SetupPhase::SecretAsk(i) => CONFIG_FIELDS + 2 + i,
        SetupPhase::SecretStore => CONFIG_FIELDS + 2 + SECRET_FIELDS,
        SetupPhase::Finished => CONFIG_FIELDS + 3 + SECRET_FIELDS,
    }
}

/// The indices held by `phase` are in range.
pub open spec fn setup_phase_wf(phase: SetupPhase) -> bool {
    match phase {
        SetupPhase::ConfigAsk(i) => i < CONFIG_FIELDS,
        SetupPhase::SecretAsk(i) => i < SECRET_FIELDS,
        _ => true,
    }
}

/// The phase after the configuration fields up to `j` have been asked for.
pub open spec fn after_config_question(j: int, dirty: bool) -> SetupPhase {
    if j < CONFIG_FIELDS {
        SetupPhase::ConfigAsk(j as usize)
    } else if dirty {
        SetupPhase::ConfigSave
    } else {
        SetupPhase::SecretAsk(0)
    }
}

/// The phase after the secrets up to `j` have been asked for.
pub open spec fn after_secret_question(j: int) -> SetupPhase {
    if j < SECRET_FIELDS {
        SetupPhase::SecretAsk(j as usize)
    } else {
        SetupPhase::SecretStore
    }
}

/// The action that asks for what `phase` waits for.
pub open spec fn setup_action_for(phase: SetupPhase, s: AppSettings, action: SetupAction) -> bool {
    match phase {
        SetupPhase::Start => false,
        SetupPhase::ConfigAsk(i) => action matches SetupAction::Ask { label, is_set } && label@ == config_label(
            i as int,
        ) && is_set == (s.config@.values[i as int].len() != 0),
        SetupPhase::ConfigSave => action matches SetupAction::SaveConfig(t) && config_file_entries(t@) == Some(
            config_map(s.config@.values),
        ),
        SetupPhase::SecretAsk(i) => action matches SetupAction::Ask { label, is_set } && label@ == secret_label(
            i as int,
        ) && is_set == (s.secrets@.values[i as int].len() != 0),
        SetupPhase::SecretStore => action matches SetupAction::StoreSecrets(p) && {
            &&& p@.len() == secrets_to_store(s.secrets@, SECRET_FIELDS as int).len()
            &&& forall|k: int|
                0 <= k < p@.len() ==> (#[trigger] p@[k]).0@ == secrets_to_store(s.secrets@, SECRET_FIELDS as int)[k].0
                    && p@[k].1@ == secrets_to_store(s.secrets@, SECRET_FIELDS as int)[k].1
        },
        SetupPhase::Finished => action is Finished,
    }
}

/// How one step of the setup dialogue changes the settings and the phase.
pub open spec fn setup_step(
    old_phase: SetupPhase,
    event: SetupEvent,
    old_s: AppSettings,
    new_s: AppSettings,
    new_phase: SetupPhase,
) -> bool {
    match (old_phase, event) {
        (SetupPhase::Start, SetupEvent::Begin) => {
            &&& new_s.config@ == old_s.config@
            &&& new_s.secrets@ == old_s.secrets@
            &&& new_phase == SetupPhase::ConfigAsk(0)
        },
        (SetupPhase::ConfigAsk(i), SetupEvent::Answer(answer)) => {
            &&& new_s.secrets@ == old_s.secrets@
            &&& match answer {
                Some(v) => new_s.config@.values == old_s.config@.values.update(i as int, v@)
                    && new_s.config@.dirty,
                None => new_s.config@ == old_s.config@,
            }
            &&& new_phase == after_config_question(i + 1, new_s.config@.dirty)
        },
        (SetupPhase::ConfigSave, SetupEvent::Done) => {
            &&& new_s.config@ == old_s.config@
            &&& new_s.secrets@ == old_s.secrets@
            &&& new_phase == SetupPhase::SecretAsk(0)
        },
        (SetupPhase::SecretAsk(i), SetupEvent::Answer(answer)) => {
            &&& new_s.config@ == old_s.config@
            &&& match answer {
                Some(v) => new_s.secrets@.values == old_s.secrets@.values.update(i as int, v@)
                    && new_s.secrets@.dirty == old_s.secrets@.dirty.update(i as int, true),
                None => new_s.secrets@ == old_s.secrets@,
            }
            &&& new_phase == after_secret_question(i + 1)
        },
        (SetupPhase::SecretStore, SetupEvent::Done) => {
            &&& new_s.config@ == old_s.config@
            &&& new_s.secrets@ == old_s.secrets@
            &&& new_phase == SetupPhase::Finished
        },
        _ => false,
    }
}

impl AppSettings {
    fn ask_config(&self, phase: &mut SetupPhase, j: usize) -> (action: SetupAction)
        requires
            self.wf(),
            j <= CONFIG_FIELDS,
        ensures
            *final(phase) == after_config_question(j as int, self.config@.dirty),
            setup_action_for(*final(phase), *self, action),
    {
        if j < CONFIG_FIELDS {
            *phase = SetupPhase::ConfigAsk(j);
            SetupAction::Ask { label: self.config.label(j), is_set: self.config.is_set(j) }
        } else {
            match self.config.file_text() {
                Some(text) => {
                    *phase = SetupPhase::ConfigSave;
                    SetupAction::SaveConfig(text)
                },
                None => {
                    *phase = SetupPhase::SecretAsk(0);
                    SetupAction::Ask { label: self.secrets.label(0), is_set: self.secrets.is_set(0) }
                },
            }
        }
    }

    fn ask_secret(&self, phase: &mut SetupPhase, j: usize) -> (action: SetupAction)
        requires
            self.wf(),
            j <= SECRET_FIELDS,
        ensures
            *final(phase) == after_secret_question(j as int),
            setup_action_for(*final(phase), *self, action),
    {
        if j < SECRET_FIELDS {
            *phase = SetupPhase::SecretAsk(j);
            SetupAction::Ask { label: self.secrets.label(j), is_set: self.secrets.is_set(j) }
        } else {
            *phase = SetupPhase::SecretStore;
            SetupAction::StoreSecrets(self.secrets.to_store())
        }
    }

    /// One step of the setup dialogue. It starts in phase `Start` with `Begin`, then asks
    /// for every configuration field in turn, showing whether it holds a value; an answer
    /// replaces the value and marks the configuration as changed, no answer keeps it. A
    /// changed configuration is then saved. Next it asks for every secret in the same way,
    /// an answer marking that secret as changed, and finally writes the changed secrets to
    /// the keyring.
    pub fn run_setup(&mut self, phase: &mut SetupPhase, event: SetupEvent) -> (action: SetupAction)
        requires
            old(self).wf(),
            setup_phase_wf(*old(phase)),
            setup_event_fits(*old(phase), event),
        ensures
            final(self).wf(),
            setup_phase_wf(*final(phase)),
            setup_action_for(*final(phase), *final(self), action),
            setup_position(*old(phase)) < setup_position(*final(phase)) <= setup_position(SetupPhase::Finished),
            setup_step(*old(phase), event, *old(self), *final(self), *final(phase)),
    {
        proof {
            self.config.lemma_len();
            self.secrets.lemma_len();
        }
        match event {
            SetupEvent::Begin => self.ask_config(phase, 0),
            SetupEvent::Answer(answer) => {
                match *phase {
                    SetupPhase::ConfigAsk(i) => {
                        self.config.apply_setup_answer(i, answer);
                        self.ask_config(phase, i + 1)
                    },
                    SetupPhase::SecretAsk(i) => {
                        self.secrets.apply_setup_answer(i, answer);
                        self.ask_secret(phase, i + 1)
                    },
                    _ => {
                        assert(false);
                        SetupAction::Finished
                    },
                }
            },
            SetupEvent::Done => {
                match *phase {
                    SetupPhase::ConfigSave => self.ask_secret(phase, 0),
                    _ => {
                        *phase = SetupPhase::Finished;
                        SetupAction::Finished
                    },
                }
            },
        }
    }
}


/// In the setup dialogue an answer to a configuration question always replaces that
/// field, whatever it held before, and marks the configuration as changed; no answer
/// keeps the configuration as it was. The secrets are untouched. After the last field,
/// the dialogue saves the configuration exactly when it has changes, and otherwise goes
/// on to the first secret.
pub proof fn lemma_setup_config_answer(
    i: usize,
    answer: Option<String>,
    old_s: AppSettings,
    new_s: AppSettings,
    new_phase: SetupPhase,
)
    requires
        i < CONFIG_FIELDS,
        setup_step(SetupPhase::ConfigAsk(i), SetupEvent::Answer(answer), old_s, new_s, new_phase),
    ensures
        answer matches Some(v) ==> (new_s.config@.values == old_s.config@.values.update(i as int, v@)
            && new_s.config@.dirty),
        answer is None ==> new_s.config@ == old_s.config@,
        new_s.secrets@ == old_s.secrets@,
        i + 1 < CONFIG_FIELDS ==> new_phase == SetupPhase::ConfigAsk((i + 1) as usize),
        i + 1 == CONFIG_FIELDS ==> (new_phase == SetupPhase::ConfigSave <==> new_s.config@.dirty),
        i + 1 == CONFIG_FIELDS && !new_s.config@.dirty ==> new_phase == SetupPhase::SecretAsk(0),
{
}

/// In the setup dialogue an answer to a secret's question always replaces that secret,
/// whatever it held before, and marks it as to be written to the keyring; no answer keeps
/// the secrets as they were. The configuration is untouched.
pub proof fn lemma_setup_secret_answer(
    i: usize,
    answer: Option<String>,
    old_s: AppSettings,
    new_s: AppSettings,
    new_phase: SetupPhase,
)
    requires
        i < SECRET_FIELDS,
        setup_step(SetupPhase::SecretAsk(i), SetupEvent::Answer(answer), old_s, new_s, new_phase),
    ensures
        answer matches Some(v) ==> (new_s.secrets@.values == old_s.secrets@.values.update(i as int, v@)
            && new_s.secrets@.dirty == old_s.secrets@.dirty.update(i as int, true)),
        answer is None ==> new_s.secrets@ == old_s.secrets@,
        new_s.config@ == old_s.config@,
        i + 1 < SECRET_FIELDS ==> new_phase == SetupPhase::SecretAsk((i + 1) as usize),
        i + 1 == SECRET_FIELDS ==> new_phase == SetupPhase::SecretStore,
{
}

} // verus!
