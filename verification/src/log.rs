//! Where the log goes, and what goes into it.

use crate::config::{home_dir, HomePath};
use crate::text::{same, texts};
use std::path::PathBuf;
use vstd::prelude::*;

verus! {

/// The directory of the log below `home`.
pub fn log_dir_in(home: Option<PathBuf>) -> (r: HomePath)
    ensures
        r.leads(home, seq![".vigil-collector-logs"@]),
{
    HomePath::below(home, ".vigil-collector-logs")
}

/// The log file below `home`.
pub fn log_file_path_in(home: Option<PathBuf>) -> (r: HomePath)
    ensures
        r.leads(home, seq![".vigil-collector-logs"@, "app.log"@]),
{
    let r = log_dir_in(home).join("app.log");
    assert(texts(r.parts@) =~= seq![".vigil-collector-logs"@, "app.log"@]);
    r
}

/// The directory of the log, below the user's home directory.
pub fn log_dir() -> (r: HomePath)
    ensures
        r.leads(r.home, seq![".vigil-collector-logs"@]),
{
    log_dir_in(home_dir())
}

/// The log file, below the user's home directory.
pub fn log_file_path() -> (r: HomePath)
    ensures
        r.leads(r.home, seq![".vigil-collector-logs"@, "app.log"@]),
{
    log_file_path_in(home_dir())
}

/// `s` in upper case, as the standard library has it.
pub uninterp spec fn upper_text(s: Seq<char>) -> Seq<char>;

/// Calls `str::to_uppercase`, which maps each character to upper case as
/// Unicode defines it.
#[verifier::external_body]
fn to_upper(s: &str) -> (r: String)
    ensures
        r@ == upper_text(s@),
{
    s.to_uppercase()
}

/// The directive for a level in upper case: debug, warnings, errors, and else
/// information; everything is off where logging is disabled.
pub open spec fn directive_text(upper: Seq<char>, enabled: bool) -> Seq<char> {
    if !enabled {
        "off"@
    } else if upper == "DEBUG"@ {
        "vigil_collector=debug"@
    } else if upper == "WARNING"@ || upper == "WARN"@ {
        "vigil_collector=warn"@
    } else if upper == "ERROR"@ {
        "vigil_collector=error"@
    } else {
        "vigil_collector=info"@
    }
}

/// The directive for a level in upper case.
pub fn directive_for(upper: &str, enabled: bool) -> (r: &'static str)
    ensures
        r@ == directive_text(upper@, enabled),
{
    if !enabled {
        "off"
    } else if same(upper, "DEBUG") {
        "vigil_collector=debug"
    } else if same(upper, "WARNING") || same(upper, "WARN") {
        "vigil_collector=warn"
    } else if same(upper, "ERROR") {
        "vigil_collector=error"
    } else {
        "vigil_collector=info"
    }
}

/// What decides which lines are logged.
#[derive(Clone, Copy)]
pub enum Filter {
    /// The filter that the environment sets.
    Environment,
    /// This directive.
    Directive(&'static str),
}

/// Whether `filter` is the one for these settings. The environment decides
/// where it sets a filter, but for disabled logging, which mutes everything.
pub open spec fn filters(filter: Filter, upper: Seq<char>, enabled: bool, from_env: bool) -> bool {
    match filter {
        Filter::Environment => enabled && from_env,
        Filter::Directive(d) => !(enabled && from_env) && d@ == directive_text(upper, enabled),
    }
}

/// Chooses the filter for a level in upper case. `from_env` says whether the
/// environment sets a filter.
pub fn filter_for(upper: &str, enabled: bool, from_env: bool) -> (r: Filter)
    ensures
        filters(r, upper@, enabled, from_env),
{
    if enabled && from_env {
        Filter::Environment
    } else {
        Filter::Directive(directive_for(upper, enabled))
    }
}

/// Chooses the filter for a level in any case. `from_env` says whether the
/// environment sets a filter.
pub fn init(level: &str, enabled: bool, from_env: bool) -> (r: Filter)
    ensures
        filters(r, upper_text(level@), enabled, from_env),
{
    filter_for(to_upper(level).as_str(), enabled, from_env)
}

/// Disabled logging is off, whatever the level and the environment say.
pub proof fn law_disabled_is_off(filter: Filter, upper: Seq<char>, from_env: bool)
    requires
        filters(filter, upper, false, from_env),
    ensures
        filter matches Filter::Directive(d) && d@ == "off"@,
{
}

/// Which directive a level stands for: debug, warnings under either name,
/// errors, and information for everything else.
pub proof fn law_levels(upper: Seq<char>)
    ensures
        directive_text(upper, false) == "off"@,
        upper == "DEBUG"@ ==> directive_text(upper, true) == "vigil_collector=debug"@,
        upper == "WARNING"@ ==> directive_text(upper, true) == "vigil_collector=warn"@,
        upper == "WARN"@ ==> directive_text(upper, true) == "vigil_collector=warn"@,
        upper == "ERROR"@ ==> directive_text(upper, true) == "vigil_collector=error"@,
        upper != "DEBUG"@ && upper != "WARNING"@ && upper != "WARN"@ && upper != "ERROR"@
            ==> directive_text(upper, true) == "vigil_collector=info"@,
{
    reveal_strlit("DEBUG");
    reveal_strlit("WARNING");
    reveal_strlit("WARN");
    reveal_strlit("ERROR");
    assert("DEBUG"@[0] == 'D' && "WARNING"@[0] == 'W' && "WARN"@[0] == 'W' && "ERROR"@[0] == 'E');
}

/// The environment decides where it sets a filter, unless logging is disabled;
/// else the level does.
pub proof fn law_who_decides(filter: Filter, upper: Seq<char>, enabled: bool, from_env: bool)
    requires
        filters(filter, upper, enabled, from_env),
    ensures
        enabled && from_env ==> filter is Environment,
        enabled && !from_env ==> (filter matches Filter::Directive(d) && d@ == directive_text(
            upper,
            true,
        )),
        !enabled ==> (filter matches Filter::Directive(d) && d@ == "off"@),
{
}

} // verus!
