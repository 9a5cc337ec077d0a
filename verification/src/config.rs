//! The configuration: the built-in defaults, the fallback to the default
//! bindings, and which candidate configuration file decides what is loaded.
use vstd::prelude::*;

use crate::keybinding::{default_keybindings, default_pointer_bindings, default_pointer_table, default_table};
use crate::types::Config;

verus! {

/// The default configuration: the default settings, the default key and
/// pointer bindings, no window rules and no startup programs.
pub open spec fn is_default_config(c: Config) -> bool {
    &&& c.spec_default_settings()
    &&& default_table(c.keybindings@)
    &&& default_pointer_table(c.pointer_bindings@)
    &&& c.window_rules@.len() == 0
    &&& c.spawn_at_startup@.len() == 0
}

/// The built-in default configuration.
pub fn default_config() -> (c: Config)
    ensures
        is_default_config(c),
{
    let mut c = Config::empty();
    c.keybindings = default_keybindings();
    c.pointer_bindings = default_pointer_bindings();
    c
}

/// A parsed configuration whose binding lists are empty gets the default
/// bindings instead; everything else stays as parsed.
pub fn with_default_bindings(config: Config) -> (c: Config)
    ensures
        config.keybindings@.len() == 0 ==> default_table(c.keybindings@),
        config.keybindings@.len() != 0 ==> c.keybindings == config.keybindings,
        config.pointer_bindings@.len() == 0 ==> default_pointer_table(c.pointer_bindings@),
        config.pointer_bindings@.len() != 0 ==> c.pointer_bindings == config.pointer_bindings,
        c == (Config { keybindings: c.keybindings, pointer_bindings: c.pointer_bindings, ..config }),
{
    let mut c = config;
    if c.keybindings.len() == 0 {
        c.keybindings = default_keybindings();
    }
    if c.pointer_bindings.len() == 0 {
        c.pointer_bindings = default_pointer_bindings();
    }
    c
}

/// What reading one candidate configuration file gave.
pub enum ReadOutcome {
    /// The file was read and parsed into this configuration.
    Parsed(Config),
    /// There is no file at this path.
    NotFound,
    /// The file could not be read or parsed; the message says why.
    Failed(String),
}

/// The first outcome that is not a missing file.
pub open spec fn first_found(outcomes: Seq<ReadOutcome>) -> Option<int> {
    if exists|i: int|
        0 <= i < outcomes.len() && !(outcomes[i] is NotFound) && forall|j: int|
            0 <= j < i ==> outcomes[j] is NotFound {
        Some(
            choose|i: int|
                0 <= i < outcomes.len() && !(outcomes[i] is NotFound) && forall|j: int|
                    0 <= j < i ==> outcomes[j] is NotFound,
        )
    } else {
        None
    }
}

proof fn lemma_first_found(outcomes: Seq<ReadOutcome>, i: int)
    requires
        0 <= i < outcomes.len(),
        !(outcomes[i] is NotFound),
        forall|j: int| 0 <= j < i ==> outcomes[j] is NotFound,
    ensures
        first_found(outcomes) == Some(i),
{
    let c = choose|c: int|
        0 <= c < outcomes.len() && !(outcomes[c] is NotFound) && forall|j: int|
            0 <= j < c ==> outcomes[j] is NotFound;
    if c < i {
        assert(outcomes[c] is NotFound);
    } else if c > i {
        assert(outcomes[i] is NotFound);
    }
}

fn decisive_index(outcomes: &Vec<ReadOutcome>) -> (r: Option<usize>)
    ensures
        match r {
            Some(i) => first_found(outcomes@) == Some(i as int) && i < outcomes@.len(),
            None => first_found(outcomes@) is None,
        },
{
    let mut i: usize = 0;
    while i < outcomes.len()
        invariant
            i <= outcomes@.len(),
            forall|j: int| 0 <= j < i ==> outcomes@[j] is NotFound,
        decreases outcomes@.len() - i,
    {
        let found = match &outcomes[i] {
            ReadOutcome::NotFound => false,
            _ => true,
        };
        if found {
            proof {
                lemma_first_found(outcomes@, i as int);
            }
            return Some(i);
        }
        i = i + 1;
    }
    None
}

/// Load the configuration from the outcomes of reading the candidate files
/// in order: the first file that exists decides (its configuration, or its
/// error, which the caller reports loudly); with no file at all the
/// defaults are used.
pub fn load(outcomes: Vec<ReadOutcome>) -> (r: Result<Config, String>)
    ensures
        match first_found(outcomes@) {
            Some(i) => match outcomes@[i] {
                ReadOutcome::Parsed(c) => r == Ok::<Config, String>(c),
                ReadOutcome::Failed(e) => r == Err::<Config, String>(e),
                ReadOutcome::NotFound => false,
            },
            None => r matches Ok(c) && is_default_config(c),
        },
{
    let mut outcomes = outcomes;
    match decisive_index(&outcomes) {
        Some(i) => {
            match outcomes.remove(i) {
                ReadOutcome::Parsed(c) => Ok(c),
                ReadOutcome::Failed(e) => Err(e),
                ReadOutcome::NotFound => Ok(default_config()),
            }
        },
        None => Ok(default_config()),
    }
}

/// Reload the configuration from the outcomes of reading the candidate
/// files in order: the first file that exists decides; `None` (keep the
/// current configuration) when it could not be read or parsed, or when no
/// file exists.
pub fn reload(outcomes: Vec<ReadOutcome>) -> (r: Option<Config>)
    ensures
        match first_found(outcomes@) {
            Some(i) => match outcomes@[i] {
                ReadOutcome::Parsed(c) => r == Some(c),
                _ => r is None,
            },
            None => r is None,
        },
{
    let mut outcomes = outcomes;
    match decisive_index(&outcomes) {
        Some(i) => {
            match outcomes.remove(i) {
                ReadOutcome::Parsed(c) => Some(c),
                _ => None,
            }
        },
        None => None,
    }
}

} // verus!
