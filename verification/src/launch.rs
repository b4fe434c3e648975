//! The application plugin's decisions: its configuration, its candidate
//! entries, and the choice of how a selected entry is launched.  Reading
//! desktop files, parsing the configuration file and spawning the chosen
//! command are plain sequential I/O and stay outside the library; what is
//! decided from the data stands here.

use vstd::prelude::*;
use vstd::string::StringExecFns;

use crate::rank::TextView;

verus! {

/// The application plugin's configuration.
pub struct Config {
    /// Whether desktop actions are offered beside the main entries.
    pub desktop_actions: bool,
    /// How many results a query shows at most.
    pub max_entries: usize,
    /// The terminal to run terminal entries in; when absent, a fixed list
    /// of fallbacks is tried in order.
    pub terminal: Option<String>,
}

impl Default for Config {
    /// The configuration used when none can be read: five entries, no
    /// desktop actions, the `wezterm` terminal.
    fn default() -> (r: Self)
        ensures
            !r.desktop_actions,
            r.max_entries == 5,
            r.terminal matches Some(t) && t@ == "wezterm"@,
    {
        Config { desktop_actions: false, max_entries: 5, terminal: Some(String::from_str("wezterm")) }
    }
}

/// One launchable application: the identifier the plugin hands around and
/// the fields of its desktop entry that the decisions read.
#[derive(Clone)]
pub struct AppEntry {
    /// The plugin's identifier for this entry.
    pub id: u64,
    /// The displayed and searched name.
    pub name: String,
    /// The displayed description, when the entry has one.
    pub desc: Option<String>,
    /// The icon name.
    pub icon: String,
    /// The command line of the entry.
    pub command: String,
    /// Whether the entry asks to run in a terminal.
    pub term: bool,
    /// The working directory the entry asks for, when it names one.
    pub path: Option<String>,
}

impl TextView for AppEntry {
    open spec fn text_view(&self) -> Seq<char> {
        self.name@
    }

    fn text(&self) -> (r: &str) {
        self.name.as_str()
    }
}

/// The application plugin's state across one session: its configuration
/// and the loaded entries.
pub struct State {
    /// The configuration in force.
    pub config: Config,
    /// Every loadable application, in load order.
    pub entries: Vec<AppEntry>,
}

/// How a selected entry is to be launched.
pub enum LaunchPlan {
    /// Run `terminal -e command`.
    InTerminal { terminal: String, command: String },
    /// Try `candidate -e command` for each candidate in order until one
    /// spawns.
    InFallbackTerminal { candidates: Vec<String>, command: String },
    /// Run `sh -c command`, in `dir` when one is named, else where the
    /// caller is.
    InShell { command: String, dir: Option<String> },
}

/// The fixed fallback terminals, in the order they are tried.
pub open spec fn fallback_terminal_names(s: Seq<String>) -> bool {
    &&& s.len() == 5
    &&& s[0]@ == "alacritty"@
    &&& s[1]@ == "foot"@
    &&& s[2]@ == "kitty"@
    &&& s[3]@ == "wezterm"@
    &&& s[4]@ == "wterm"@
}

/// The terminals tried when none is configured.
pub fn sensible_terminals() -> (r: Vec<String>)
    ensures
        fallback_terminal_names(r@),
{
    let mut v: Vec<String> = Vec::new();
    v.push(String::from_str("alacritty"));
    v.push(String::from_str("foot"));
    v.push(String::from_str("kitty"));
    v.push(String::from_str("wezterm"));
    v.push(String::from_str("wterm"));
    v
}

/// Decides how the selected entry is launched: terminal entries go to the
/// configured terminal or, failing one, to the fallback list; everything
/// else runs through the shell in the entry's directory.
pub fn launch_plan(entry: &AppEntry, configured_terminal: &Option<String>) -> (r: LaunchPlan)
    ensures
        entry.term ==> (configured_terminal matches Some(t) ==> (r matches
        LaunchPlan::InTerminal { terminal, command } && terminal@ == t@ && command@
            == entry.command@)),
        entry.term && configured_terminal is None ==> (r matches
        LaunchPlan::InFallbackTerminal { candidates, command } && fallback_terminal_names(
            candidates@,
        ) && command@ == entry.command@),
        !entry.term ==> (r matches LaunchPlan::InShell { command, dir } && command@
            == entry.command@ && (match (dir, entry.path) {
            (Some(d), Some(p)) => d@ == p@,
            (None, None) => true,
            _ => false,
        })),
{
    if entry.term {
        match configured_terminal {
            Some(t) => LaunchPlan::InTerminal { terminal: t.clone(), command: entry.command.clone() },
            None => LaunchPlan::InFallbackTerminal {
                candidates: sensible_terminals(),
                command: entry.command.clone(),
            },
        }
    } else {
        let dir = match &entry.path {
            Some(p) => Some(p.clone()),
            None => None,
        };
        LaunchPlan::InShell { command: entry.command.clone(), dir }
    }
}

/// Finds the first entry carrying the selected identifier.
pub fn find_entry<'a>(entries: &'a Vec<AppEntry>, id: u64) -> (r: Option<&'a AppEntry>)
    ensures
        r matches Some(e) ==> exists|i: int|
            {
                &&& 0 <= i < entries@.len()
                &&& entries@[i] == *e
                &&& entries@[i].id == id
                &&& forall|j: int| 0 <= j < i ==> (#[trigger] entries@[j]).id != id
            },
        r is None ==> forall|i: int| 0 <= i < entries@.len() ==> (#[trigger] entries@[i]).id
            != id,
{
    let mut i: usize = 0;
    while i < entries.len()
        invariant
            i <= entries@.len(),
            forall|j: int| 0 <= j < i ==> (#[trigger] entries@[j]).id != id,
        decreases entries@.len() - i,
    {
        if entries[i].id == id {
            let ghost w = i as int;
            assert(entries@[w] == entries@[i as int] && entries@[w].id == id);
            return Some(&entries[i]);
        }
        i = i + 1;
    }
    None
}

} // verus!
