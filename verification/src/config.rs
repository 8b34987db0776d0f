//! Settings: their defaults, where they are kept, and how they are loaded.

use crate::binary64::Real;
use crate::text::texts;
use std::path::PathBuf;
use vstd::prelude::*;

verus! {

pub const DEFAULT_ADDRESS: &'static str = "localhost";

pub const DEFAULT_PORT: u16 = 4500;

pub const DEFAULT_MAX_WS_CONNECTIONS: usize = 20;

/// One second, by its bits.
pub const DEFAULT_WS_PUSH_INTERVAL: u64 = 0x3ff0_0000_0000_0000;

/// Five seconds, by their bits.
pub const DEFAULT_PROBE_TIMEOUT: u64 = 0x4014_0000_0000_0000;

pub const DEFAULT_LOG_LEVEL: &'static str = "INFO";

pub const DEFAULT_LOG_ENABLED: bool = true;

/// A target whose reachability is checked.
pub struct Probe {
    pub name: String,
    pub url: String,
}

/// The settings of the collector.
pub struct Settings {
    pub logging_enabled: bool,
    pub log_level: String,
    pub address: String,
    pub port_number: u16,
    pub max_ws_connections: usize,
    /// Seconds between two pushes.
    pub ws_push_interval: Real,
    pub probes: Vec<Probe>,
    /// Seconds until a probe gives up.
    pub probe_timeout: Real,
}

/// Whether `probes` are the targets that are checked by default.
pub open spec fn standard_probes(probes: Seq<Probe>) -> bool {
    &&& probes.len() == 2
    &&& probes[0].name@ == "edcs.app"@
    &&& probes[0].url@ == "https://edcs.app"@
    &&& probes[1].name@ == "api.edcs.app"@
    &&& probes[1].url@ == "https://api.edcs.app"@
}

/// The targets that are checked by default.
pub fn default_probes() -> (r: Vec<Probe>)
    ensures
        standard_probes(r@),
{
    vec![
        Probe { name: "edcs.app".to_owned(), url: "https://edcs.app".to_owned() },
        Probe { name: "api.edcs.app".to_owned(), url: "https://api.edcs.app".to_owned() },
    ]
}

pub fn default_log_enabled() -> (r: bool)
    ensures
        r == DEFAULT_LOG_ENABLED,
{
    DEFAULT_LOG_ENABLED
}

pub fn default_log_level() -> (r: String)
    ensures
        r@ == DEFAULT_LOG_LEVEL@,
{
    DEFAULT_LOG_LEVEL.to_owned()
}

pub fn default_address() -> (r: String)
    ensures
        r@ == DEFAULT_ADDRESS@,
{
    DEFAULT_ADDRESS.to_owned()
}

pub fn default_port() -> (r: u16)
    ensures
        r == DEFAULT_PORT,
{
    DEFAULT_PORT
}

pub fn default_max_ws() -> (r: usize)
    ensures
        r == DEFAULT_MAX_WS_CONNECTIONS,
{
    DEFAULT_MAX_WS_CONNECTIONS
}

pub fn default_push_interval() -> (r: Real)
    ensures
        r.bits == DEFAULT_WS_PUSH_INTERVAL,
{
    Real::from_bits(DEFAULT_WS_PUSH_INTERVAL)
}

pub fn default_probe_timeout() -> (r: Real)
    ensures
        r.bits == DEFAULT_PROBE_TIMEOUT,
{
    Real::from_bits(DEFAULT_PROBE_TIMEOUT)
}

impl Settings {
    /// Whether these are the default settings.
    pub open spec fn standard(self) -> bool {
        &&& self.logging_enabled == DEFAULT_LOG_ENABLED
        &&& self.log_level@ == DEFAULT_LOG_LEVEL@
        &&& self.address@ == DEFAULT_ADDRESS@
        &&& self.port_number == DEFAULT_PORT
        &&& self.max_ws_connections == DEFAULT_MAX_WS_CONNECTIONS
        &&& self.ws_push_interval.bits == DEFAULT_WS_PUSH_INTERVAL
        &&& standard_probes(self.probes@)
        &&& self.probe_timeout.bits == DEFAULT_PROBE_TIMEOUT
    }
}

impl Default for Settings {
    fn default() -> (r: Settings)
        ensures
            r.standard(),
    {
        Settings {
            logging_enabled: default_log_enabled(),
            log_level: default_log_level(),
            address: default_address(),
            port_number: default_port(),
            max_ws_connections: default_max_ws(),
            ws_push_interval: default_push_interval(),
            probes: default_probes(),
            probe_timeout: default_probe_timeout(),
        }
    }
}

/// `std::path::PathBuf`, a path of the file system. The library carries such a
/// path without looking into it.
#[verifier::external_type_specification]
#[verifier::external_body]
pub struct ExPathBuf(std::path::PathBuf);

/// A path below the home directory, or below the working directory where no
/// home directory is known. See `segments`.
pub struct HomePath {
    pub home: Option<PathBuf>,
    /// The names below it, outermost first.
    pub parts: Vec<String>,
}

impl HomePath {
    /// Whether this is the path below `home` along `names`.
    pub open spec fn leads(self, home: Option<PathBuf>, names: Seq<Seq<char>>) -> bool {
        self.home == home && texts(self.parts@) == names
    }

    /// The path below `home` to `name`.
    pub fn below(home: Option<PathBuf>, name: &str) -> (r: HomePath)
        ensures
            r.leads(home, seq![name@]),
    {
        let r = HomePath { home, parts: vec![name.to_owned()] };
        assert(texts(r.parts@) =~= seq![name@]);
        r
    }

    /// The names to append one by one to the home directory, where one is known;
    /// otherwise the whole path, which then starts at `.`.
    pub open spec fn steps(self) -> Seq<Seq<char>> {
        match self.home {
            Some(_) => texts(self.parts@),
            None => seq!["."@] + texts(self.parts@),
        }
    }

    /// The names to append one by one to the home directory, where one is known;
    /// otherwise the whole path, which then starts at `.`.
    pub fn segments(&self) -> (r: Vec<String>)
        ensures
            texts(r@) == self.steps(),
    {
        let mut out: Vec<String> = Vec::new();
        if self.home.is_none() {
            out.push(".".to_owned());
        }
        let ghost start = texts(out@);
        assert(start =~= if self.home is None {
            seq!["."@]
        } else {
            Seq::<Seq<char>>::empty()
        });
        let mut i: usize = 0;
        assert(start + texts(self.parts@).take(0) =~= start);
        while i < self.parts.len()
            invariant
                i <= self.parts.len(),
                texts(out@) == start + texts(self.parts@).take(i as int),
            decreases self.parts.len() - i,
        {
            let ghost was = texts(out@);
            out.push(self.parts[i].clone());
            assert(texts(out@) =~= was.push(self.parts@[i as int]@));
            i += 1;
            assert(texts(out@) =~= start + texts(self.parts@).take(i as int));
        }
        assert(texts(out@) =~= self.steps());
        out
    }

    /// The path to `name` inside this directory.
    pub fn join(self, name: &str) -> (r: HomePath)
        ensures
            r.leads(self.home, texts(self.parts@).push(name@)),
    {
        let mut parts = self.parts;
        let ghost was = texts(parts@);
        parts.push(name.to_owned());
        assert(texts(parts@) =~= was.push(name@));
        HomePath { home: self.home, parts }
    }
}

/// Calls `dirs::home_dir`, the home directory of the user, where one is known.
/// It is a matter of the environment, so nothing is promised of it.
#[verifier::external_body]
pub(crate) fn home_dir() -> (r: Option<PathBuf>) {
    dirs::home_dir()
}

/// The directory of the settings below `home`.
pub fn settings_dir_in(home: Option<PathBuf>) -> (r: HomePath)
    ensures
        r.leads(home, seq![".vigil-collector"@]),
{
    HomePath::below(home, ".vigil-collector")
}

/// The settings file below `home`.
pub fn settings_file_in(home: Option<PathBuf>) -> (r: HomePath)
    ensures
        r.leads(home, seq![".vigil-collector"@, "settings.json"@]),
{
    let r = settings_dir_in(home).join("settings.json");
    assert(texts(r.parts@) =~= seq![".vigil-collector"@, "settings.json"@]);
    r
}

/// The directory of the settings under the former name of the collector, below
/// `home`.
pub fn legacy_settings_dir_in(home: Option<PathBuf>) -> (r: HomePath)
    ensures
        r.leads(home, seq![".psmonitor"@]),
{
    HomePath::below(home, ".psmonitor")
}

/// The directory of the settings, below the user's home directory.
pub fn settings_dir() -> (r: HomePath)
    ensures
        r.leads(r.home, seq![".vigil-collector"@]),
{
    settings_dir_in(home_dir())
}

/// The settings file, below the user's home directory.
pub fn settings_file() -> (r: HomePath)
    ensures
        r.leads(r.home, seq![".vigil-collector"@, "settings.json"@]),
{
    settings_file_in(home_dir())
}

/// The directory of the settings under the former name of the collector, below
/// the user's home directory.
pub fn legacy_settings_dir() -> (r: HomePath)
    ensures
        r.leads(r.home, seq![".psmonitor"@]),
{
    legacy_settings_dir_in(home_dir())
}

/// Whether the former directory of the settings takes the place of the new one:
/// only where it is a directory and there is no new one yet.
pub fn migrate_legacy(new_exists: bool, old_is_dir: bool) -> (r: bool)
    ensures
        r <==> old_is_dir && !new_exists,
{
    if new_exists {
        return false;
    }
    old_is_dir
}

/// What was found while loading the settings.
pub enum SettingsEvent {
    FileMissing,
    FilePresent,
    DirReady,
    DirFailed,
    /// The defaults were written, or could not be.
    DefaultsHandled,
    FileRead,
    FileUnreadable,
    Parsed(Settings),
    Malformed,
}

/// What to do next while loading the settings.
pub enum SettingsAction {
    CreateDir,
    /// Write these settings to the file.
    Write(Settings),
    ReadFile,
    Parse,
    /// Go on with these settings.
    Use(Settings),
}

/// Whether `action` is what follows `event`.
pub open spec fn settings_follow(event: SettingsEvent, action: SettingsAction) -> bool {
    match event {
        SettingsEvent::FileMissing => action is CreateDir,
        SettingsEvent::FilePresent => action is ReadFile,
        SettingsEvent::DirReady => action is Write && action->Write_0.standard(),
        SettingsEvent::FileRead => action is Parse,
        SettingsEvent::Parsed(settings) => action == SettingsAction::Use(settings),
        SettingsEvent::DirFailed
        | SettingsEvent::DefaultsHandled
        | SettingsEvent::FileUnreadable
        | SettingsEvent::Malformed => action is Use && action->Use_0.standard(),
    }
}

/// Whether nothing remains to be tried after `event` but to go on.
pub open spec fn settles(event: SettingsEvent) -> bool {
    ||| event is DirFailed
    ||| event is DefaultsHandled
    ||| event is FileUnreadable
    ||| event is Malformed
    ||| event is Parsed
}

/// The next thing to do while loading the settings. Every failure leads to the
/// defaults.
pub fn read_settings(event: SettingsEvent) -> (r: SettingsAction)
    ensures
        settings_follow(event, r),
{
    match event {
        SettingsEvent::FileMissing => SettingsAction::CreateDir,
        SettingsEvent::FilePresent => SettingsAction::ReadFile,
        SettingsEvent::DirReady => SettingsAction::Write(Settings::default()),
        SettingsEvent::FileRead => SettingsAction::Parse,
        SettingsEvent::Parsed(settings) => SettingsAction::Use(settings),
        SettingsEvent::DirFailed => SettingsAction::Use(Settings::default()),
        SettingsEvent::DefaultsHandled => SettingsAction::Use(Settings::default()),
        SettingsEvent::FileUnreadable => SettingsAction::Use(Settings::default()),
        SettingsEvent::Malformed => SettingsAction::Use(Settings::default()),
    }
}

/// Loading always ends with settings: with those of the file if it could be
/// read, and else with the defaults.
pub proof fn law_settings_always_come(event: SettingsEvent, action: SettingsAction)
    requires
        settings_follow(event, action),
    ensures
        action is Use <==> settles(event),
        action is Use ==> action->Use_0.standard() || event == SettingsEvent::Parsed(
            action->Use_0,
        ),
{
}

/// What the settings file is.
pub enum SettingsOnDisk {
    Missing,
    Unreadable,
    Malformed,
    /// The text of these settings: reading it gives them back.
    Holds(Settings),
}

/// Where the settings are kept.
pub struct SettingsPlace {
    pub file: SettingsOnDisk,
    /// Whether the directory is there or can be created.
    pub dir_usable: bool,
    /// Whether the file can be written.
    pub file_writable: bool,
}

/// What is found first.
pub open spec fn first_finding(place: SettingsPlace) -> SettingsEvent {
    if place.file is Missing {
        SettingsEvent::FileMissing
    } else {
        SettingsEvent::FilePresent
    }
}

/// What an action does to the place, and what is found then.
pub open spec fn carried_out(place: SettingsPlace, action: SettingsAction) -> (
    SettingsPlace,
    SettingsEvent,
) {
    match action {
        SettingsAction::CreateDir => (
            place,
            if place.dir_usable {
                SettingsEvent::DirReady
            } else {
                SettingsEvent::DirFailed
            },
        ),
        SettingsAction::Write(settings) => (
            if place.file_writable {
                SettingsPlace {
                    file: SettingsOnDisk::Holds(settings),
                    dir_usable: place.dir_usable,
                    file_writable: place.file_writable,
                }
            } else {
                place
            },
            SettingsEvent::DefaultsHandled,
        ),
        SettingsAction::ReadFile => (
            place,
            if place.file is Unreadable {
                SettingsEvent::FileUnreadable
            } else {
                SettingsEvent::FileRead
            },
        ),
        SettingsAction::Parse => (
            place,
            match place.file {
                SettingsOnDisk::Holds(settings) => SettingsEvent::Parsed(settings),
                _ => SettingsEvent::Malformed,
            },
        ),
        SettingsAction::Use(settings) => (place, SettingsEvent::Parsed(settings)),
    }
}

/// Whether doing what `read_settings` says, one action for each of `actions`,
/// from `event` on leads to `result`, and leaves the place as `after`.
pub open spec fn ends_with(
    place: SettingsPlace,
    event: SettingsEvent,
    actions: Seq<SettingsAction>,
    result: Settings,
    after: SettingsPlace,
) -> bool
    decreases actions.len(),
{
    &&& actions.len() > 0
    &&& settings_follow(event, actions[0])
    &&& match actions[0] {
        SettingsAction::Use(settings) => actions.len() == 1 && result == settings && after == place,
        action => {
            let (next, found) = carried_out(place, action);
            ends_with(next, found, actions.skip(1), result, after)
        },
    }
}

/// Whether loading the settings by these actions gives `result`, and leaves the
/// place as `after`.
pub open spec fn loads(
    place: SettingsPlace,
    actions: Seq<SettingsAction>,
    result: Settings,
    after: SettingsPlace,
) -> bool {
    ends_with(place, first_finding(place), actions, result, after)
}

/// Loading ends, whatever the place is like.
pub proof fn law_loading_ends(place: SettingsPlace, defaults: Settings) -> (r: (
    Seq<SettingsAction>,
    Settings,
    SettingsPlace,
))
    requires
        defaults.standard(),
    ensures
        loads(place, r.0, r.1, r.2),
{
    reveal_with_fuel(ends_with, 4);
    let create = SettingsAction::CreateDir;
    let read = SettingsAction::ReadFile;
    let give_up = SettingsAction::Use(defaults);
    match place.file {
        SettingsOnDisk::Missing => if place.dir_usable {
            let actions = seq![create, SettingsAction::Write(defaults), give_up];
            assert(actions.skip(1).skip(1) =~= seq![give_up]);
            (actions, defaults, carried_out(place, SettingsAction::Write(defaults)).0)
        } else {
            let actions = seq![create, give_up];
            assert(actions.skip(1) =~= seq![give_up]);
            (actions, defaults, place)
        },
        SettingsOnDisk::Unreadable => {
            let actions = seq![read, give_up];
            assert(actions.skip(1) =~= seq![give_up]);
            (actions, defaults, place)
        },
        SettingsOnDisk::Malformed => {
            let actions = seq![read, SettingsAction::Parse, give_up];
            assert(actions.skip(1).skip(1) =~= seq![give_up]);
            (actions, defaults, place)
        },
        SettingsOnDisk::Holds(settings) => {
            let actions = seq![read, SettingsAction::Parse, SettingsAction::Use(settings)];
            assert(actions.skip(1).skip(1) =~= seq![SettingsAction::Use(settings)]);
            (actions, settings, place)
        },
    }
}

/// The first run creates the file: it uses the defaults, and leaves them in the
/// file where that can be written. Where it cannot, the defaults are used all
/// the same, and nothing is left behind.
pub proof fn law_first_run_writes_the_defaults(
    place: SettingsPlace,
    actions: Seq<SettingsAction>,
    result: Settings,
    after: SettingsPlace,
)
    requires
        place.file is Missing,
        loads(place, actions, result, after),
    ensures
        result.standard(),
        place.dir_usable && place.file_writable ==> after.file is Holds
            && after.file->Holds_0.standard(),
        !(place.dir_usable && place.file_writable) ==> after == place,
{
    reveal_with_fuel(ends_with, 4);
}

/// A run that finds settings in the file uses them, and leaves the file as it
/// is.
pub proof fn law_later_runs_use_the_file(
    place: SettingsPlace,
    actions: Seq<SettingsAction>,
    result: Settings,
    after: SettingsPlace,
)
    requires
        place.file is Holds,
        loads(place, actions, result, after),
    ensures
        result == place.file->Holds_0,
        after == place,
{
    reveal_with_fuel(ends_with, 4);
}

/// Two runs in a row, the first without a file: both use the defaults, the
/// second those that the first wrote, and the second leaves the file as it is.
pub proof fn law_two_runs_agree(
    place: SettingsPlace,
    first: Seq<SettingsAction>,
    one: Settings,
    between: SettingsPlace,
    second: Seq<SettingsAction>,
    two: Settings,
    after: SettingsPlace,
)
    requires
        place.file is Missing,
        loads(place, first, one, between),
        loads(between, second, two, after),
    ensures
        one.standard(),
        two.standard(),
        place.dir_usable && place.file_writable ==> {
            &&& between.file == SettingsOnDisk::Holds(two)
            &&& after == between
        },
{
    law_first_run_writes_the_defaults(place, first, one, between);
    if place.dir_usable && place.file_writable {
        law_later_runs_use_the_file(between, second, two, after);
    } else {
        law_first_run_writes_the_defaults(between, second, two, after);
    }
}

/// A file that cannot be read or holds no settings leads to the defaults, and
/// stays as it is.
pub proof fn law_bad_files_lead_to_the_defaults(
    place: SettingsPlace,
    actions: Seq<SettingsAction>,
    result: Settings,
    after: SettingsPlace,
)
    requires
        place.file is Unreadable || place.file is Malformed,
        loads(place, actions, result, after),
    ensures
        result.standard(),
        after == place,
{
    reveal_with_fuel(ends_with, 4);
}

/// The default settings: logging at level `INFO`, `localhost` at port 4500, at
/// most twenty WebSocket sessions, one push a second, two targets to check and
/// five seconds for each.
pub proof fn law_default_settings(s: Settings)
    requires
        s.standard(),
    ensures
        s.logging_enabled,
        s.log_level@ == "INFO"@,
        s.address@ == "localhost"@,
        s.port_number == 4500,
        s.max_ws_connections == 20,
        s.ws_push_interval == (Real { bits: 0x3ff0_0000_0000_0000 }),
        s.probe_timeout == (Real { bits: 0x4014_0000_0000_0000 }),
        s.probes@.len() == 2,
        s.probes@[0].name@ == "edcs.app"@,
        s.probes@[0].url@ == "https://edcs.app"@,
        s.probes@[1].name@ == "api.edcs.app"@,
        s.probes@[1].url@ == "https://api.edcs.app"@,
{
}

/// What follows each finding while loading: a missing file is created from the
/// defaults, a present one is read and then parsed, what was parsed is used,
/// and every failure leads to the defaults.
pub proof fn law_steps_of_loading(event: SettingsEvent, action: SettingsAction)
    requires
        settings_follow(event, action),
    ensures
        match event {
            SettingsEvent::FileMissing => action is CreateDir,
            SettingsEvent::DirReady => action matches SettingsAction::Write(s) && s.standard(),
            SettingsEvent::DirFailed => action matches SettingsAction::Use(s) && s.standard(),
            SettingsEvent::DefaultsHandled => action matches SettingsAction::Use(s)
                && s.standard(),
            SettingsEvent::FilePresent => action is ReadFile,
            SettingsEvent::FileUnreadable => action matches SettingsAction::Use(s) && s.standard(),
            SettingsEvent::FileRead => action is Parse,
            SettingsEvent::Malformed => action matches SettingsAction::Use(s) && s.standard(),
            SettingsEvent::Parsed(read) => action matches SettingsAction::Use(s) && s == read,
        },
{
}

/// A path below a home directory appends its names; without one it starts at
/// `.` and goes on with them.
pub proof fn law_paths_below_home(path: HomePath)
    ensures
        path.home is Some ==> path.steps() == Seq::new(
            path.parts@.len(),
            |i: int| path.parts@[i]@,
        ),
        path.home is None ==> path.steps().len() == path.parts@.len() + 1 && path.steps()[0]
            == "."@ && forall|i: int|
            0 <= i < path.parts@.len() ==> path.steps()[i + 1] == (#[trigger] path.parts@[i])@,
        forall|home: Option<PathBuf>, names: Seq<Seq<char>>| #[trigger]
            path.leads(home, names) ==> path.home == home && names.len() == path.parts@.len()
                && forall|i: int| 0 <= i < names.len() ==> #[trigger] names[i] == path.parts@[i]@,
{
}

} // verus!
