//! The operating system: its name, its kernel, and how long it has been up.

use crate::names::{join, joined};
use crate::number::{decimal, decimal_text};
use crate::snapshot::PlatformInfo;
use crate::text::{find_last, last_after, lines, lines_of, slice_text, strip, strip_both, text_of, texts, Class};
use vstd::prelude::*;

verus! {

/// `n` of a unit: nothing for 0, and a plural for all but 1.
pub open spec fn quantity(n: nat, unit: Seq<char>) -> Seq<Seq<char>> {
    if n == 0 {
        Seq::empty()
    } else if n == 1 {
        seq![decimal_text(n) + " "@ + unit]
    } else {
        seq![decimal_text(n) + " "@ + unit + "s"@]
    }
}

/// The parts of an uptime of `total` seconds that are not zero.
pub open spec fn uptime_parts(total: nat) -> Seq<Seq<char>> {
    quantity(total / 86400, "day"@) + quantity(total % 86400 / 3600, "hr"@) + quantity(
        total % 3600 / 60,
        "min"@,
    ) + quantity(total % 60, "sec"@)
}

/// An uptime in words.
pub open spec fn uptime_text(total: nat) -> Seq<char> {
    joined(uptime_parts(total), ", "@)
}

/// The counts in an uptime add up to it, and none could be carried over.
pub proof fn law_uptime_adds_up(total: nat)
    ensures
        total / 86400 * 86400 + total % 86400 / 3600 * 3600 + total % 3600 / 60 * 60 + total % 60
            == total,
        total % 86400 / 3600 < 24,
        total % 3600 / 60 < 60,
        total % 60 < 60,
{
}

fn add_quantity(parts: &mut Vec<String>, n: u64, unit: &str)
    ensures
        texts(final(parts)@) == texts(old(parts)@) + quantity(n as nat, unit@),
{
    let ghost was = texts(parts@);
    if n > 0 {
        let mut part = decimal(n);
        part.append(" ");
        part.append(unit);
        if n != 1 {
            part.append("s");
        }
        let ghost words = part@;
        parts.push(part);
        assert(texts(parts@) =~= was + seq![words]);
    }
    assert(texts(parts@) =~= was + quantity(n as nat, unit@));
}

/// Writes an uptime of `total` seconds in words.
pub fn format_uptime(total: u64) -> (r: String)
    ensures
        r@ == uptime_text(total as nat),
{
    let days: u64 = total / 86_400;
    let mut rem: u64 = total % 86_400;
    let hours: u64 = rem / 3_600;
    rem = rem % 3_600;
    let minutes: u64 = rem / 60;
    let seconds: u64 = rem % 60;
    assert(rem == total % 3600);
    assert(seconds == total % 60);
    let mut parts: Vec<String> = Vec::new();
    add_quantity(&mut parts, days, "day");
    add_quantity(&mut parts, hours, "hr");
    add_quantity(&mut parts, minutes, "min");
    add_quantity(&mut parts, seconds, "sec");
    assert(texts(parts@) =~= uptime_parts(total as nat));
    join(&parts, ", ")
}

/// Calls `sysinfo::System::uptime`, the seconds since the machine was started.
/// They are a matter of the moment, so nothing is promised of them.
#[verifier::external_body]
fn system_uptime() -> (r: u64) {
    sysinfo::System::uptime()
}

/// How long this machine has been up, in words.
pub fn uptime_string() -> (r: String)
    ensures
        exists|secs: u64| r@ == #[trigger] uptime_text(secs as nat),
{
    let secs: u64 = system_uptime();
    let text = format_uptime(secs);
    assert(text@ == uptime_text(secs as nat));
    text
}

/// A value of `os-release` without its quotation marks.
pub open spec fn unquoted(value: Option<Seq<char>>) -> Option<Seq<char>> {
    match value {
        Some(v) => Some(strip_both(v, Class::One('"'))),
        None => None,
    }
}

/// The name that the text of `os-release` gives: its last pretty name, else
/// its last plain name.
pub open spec fn release_name(raw: Seq<char>) -> Option<Seq<char>> {
    match unquoted(last_after(lines_of(raw), "PRETTY_NAME="@)) {
        Some(v) => Some(v),
        None => unquoted(last_after(lines_of(raw), "NAME="@)),
    }
}

/// The name of the system: from `os-release`, else the name that the system
/// gives itself, else `unknown`.
pub open spec fn distro_name(os_release: Option<Seq<char>>, system: Option<Seq<char>>) -> Seq<char> {
    let released = match os_release {
        Some(raw) => release_name(raw),
        None => None,
    };
    match released {
        Some(v) => v,
        None => match system {
            Some(v) => v,
            None => "unknown"@,
        },
    }
}

/// The name of the system, from the text of `os-release` and from the name
/// that the system gives itself.
pub fn distro_from(os_release: Option<&str>, system_name: Option<String>) -> (r: String)
    ensures
        r@ == distro_name(slice_text(os_release), text_of(system_name)),
{
    match os_release {
        Some(raw) => {
            let rows = lines(raw);
            match find_last(&rows, "PRETTY_NAME=") {
                Some(v) => {
                    return strip(v.as_str(), Class::One('"'));
                },
                None => {},
            }
            match find_last(&rows, "NAME=") {
                Some(v) => {
                    return strip(v.as_str(), Class::One('"'));
                },
                None => {},
            }
        },
        None => {},
    }
    match system_name {
        Some(v) => v,
        None => "unknown".to_owned(),
    }
}

/// Calls `sysinfo::System::name`, the name that the system gives itself, where
/// it gives one. It is a matter of the machine, so nothing is promised of it.
#[verifier::external_body]
fn system_name() -> (r: Option<String>) {
    sysinfo::System::name()
}

/// The name of this system, given the text of its `os-release`.
pub fn distro(os_release: Option<&str>) -> (r: String)
    ensures
        exists|system: Option<Seq<char>>|
            r@ == #[trigger] distro_name(slice_text(os_release), system),
        os_release matches Some(raw) ==> release_name(raw@) is Some ==> r@ == release_name(
            raw@,
        )->0,
{
    let system = system_name();
    let ghost given = text_of(system);
    let name = distro_from(os_release, system);
    assert(name@ == distro_name(slice_text(os_release), given));
    name
}

/// The text of a kernel version; empty if it is not known.
pub open spec fn kernel_text(version: Option<Seq<char>>) -> Seq<char> {
    match version {
        Some(v) => v,
        None => Seq::empty(),
    }
}

/// The kernel version; empty if it is not known.
pub fn kernel_from(version: Option<String>) -> (r: String)
    ensures
        r@ == kernel_text(text_of(version)),
{
    match version {
        Some(v) => v,
        None => String::new(),
    }
}

/// Calls `sysinfo::System::kernel_version`, the version of the running kernel,
/// where it is known. It is a matter of the machine, so nothing is promised of
/// it.
#[verifier::external_body]
fn kernel_version() -> (r: Option<String>) {
    sysinfo::System::kernel_version()
}

/// The version of the running kernel; empty if it is not known.
pub fn kernel() -> (r: String)
    ensures
        exists|version: Option<Seq<char>>| r@ == #[trigger] kernel_text(version),
{
    let version = kernel_version();
    let ghost given = text_of(version);
    let text = kernel_from(version);
    assert(text@ == kernel_text(given));
    text
}

/// Calls `whoami::username`, the name of the user that runs the program. It is
/// a matter of the machine, so nothing is promised of it.
#[verifier::external_body]
pub fn user() -> (r: String) {
    whoami::username()
}

/// The description of a system from its name, from the version of its kernel
/// and from the seconds since it was started.
pub fn platform_from(distro: String, version: Option<String>, secs: u64) -> (r: PlatformInfo)
    ensures
        r.distro == distro,
        r.kernel@ == kernel_text(text_of(version)),
        r.uptime@ == uptime_text(secs as nat),
{
    PlatformInfo { distro, kernel: kernel_from(version), uptime: format_uptime(secs) }
}

/// Describes the operating system that runs, given its name: the kernel by its
/// version, the uptime by the seconds since the start.
pub fn collect(distro: String) -> (r: PlatformInfo)
    ensures
        r.distro == distro,
        exists|version: Option<Seq<char>>, secs: u64|
            r.kernel@ == #[trigger] kernel_text(version) && r.uptime@ == #[trigger] uptime_text(
                secs as nat,
            ),
{
    let version = kernel_version();
    let ghost given = text_of(version);
    let secs: u64 = system_uptime();
    let r = platform_from(distro, version, secs);
    assert(r.kernel@ == kernel_text(given) && r.uptime@ == uptime_text(secs as nat));
    r
}

/// An uptime names days, hours, minutes and seconds, largest first, with commas
/// between: the numbers add up to the whole, none that is zero is named, and
/// only a single one stands without a plural.
pub proof fn law_uptime_in_words(d: nat, h: nat, m: nat, s: nat)
    requires
        h < 24,
        m < 60,
        s < 60,
    ensures
        uptime_text(86400 * d + 3600 * h + 60 * m + s) == joined(
            counted(d, "day"@, "days"@) + counted(h, "hr"@, "hrs"@) + counted(m, "min"@, "mins"@)
                + counted(s, "sec"@, "secs"@),
            ", "@,
        ),
{
    let total = 86400 * d + 3600 * h + 60 * m + s;
    assert(total / 86400 == d && total % 86400 / 3600 == h && total % 3600 / 60 == m && total % 60
        == s);
    reveal_strlit("s");
    reveal_strlit(" ");
    reveal_strlit("day");
    reveal_strlit("days");
    reveal_strlit("hr");
    reveal_strlit("hrs");
    reveal_strlit("min");
    reveal_strlit("mins");
    reveal_strlit("sec");
    reveal_strlit("secs");
    assert("day"@ + "s"@ =~= "days"@);
    assert("hr"@ + "s"@ =~= "hrs"@);
    assert("min"@ + "s"@ =~= "mins"@);
    assert("sec"@ + "s"@ =~= "secs"@);
    lemma_counted(d, "day"@, "days"@);
    lemma_counted(h, "hr"@, "hrs"@);
    lemma_counted(m, "min"@, "mins"@);
    lemma_counted(s, "sec"@, "secs"@);
}

/// `n` things: nothing for none, and a name for one and for many.
pub open spec fn counted(n: nat, one: Seq<char>, many: Seq<char>) -> Seq<Seq<char>> {
    if n == 0 {
        Seq::empty()
    } else {
        seq![
            decimal_text(n) + seq![' '] + if n == 1 {
                one
            } else {
                many
            },
        ]
    }
}

proof fn lemma_counted(n: nat, one: Seq<char>, many: Seq<char>)
    requires
        one + "s"@ == many,
    ensures
        quantity(n, one) == counted(n, one, many),
{
    reveal_strlit(" ");
    assert(" "@ =~= seq![' ']);
    assert(decimal_text(n) + " "@ + one + "s"@ =~= decimal_text(n) + " "@ + (one + "s"@));
    assert(quantity(n, one) =~= counted(n, one, many));
}

/// The name of the system is the last pretty name that `os-release` gives,
/// without the quotation marks around it.
pub proof fn law_pretty_name_counts(
    raw: Seq<char>,
    j: int,
    name: Seq<char>,
    system: Option<Seq<char>>,
)
    requires
        0 <= j < lines_of(raw).len(),
        lines_of(raw)[j] == "PRETTY_NAME="@ + name || lines_of(raw)[j] == "PRETTY_NAME=\""@ + name
            + "\""@,
        name.len() > 0 ==> name[0] != '"' && name[name.len() - 1] != '"',
        forall|i: int|
            j < i < lines_of(raw).len() ==> !"PRETTY_NAME="@.is_prefix_of(
                #[trigger] lines_of(raw)[i],
            ),
    ensures
        distro_name(Some(raw), system) == name,
{
    let rows = lines_of(raw);
    lemma_quoted(rows[j], "PRETTY_NAME="@, "PRETTY_NAME=\""@, name);
    crate::text::law_last_line_counts(rows, "PRETTY_NAME="@, j);
}

/// Without a pretty name it is the last plain name, without the quotation marks
/// around it.
pub proof fn law_plain_name_counts(
    raw: Seq<char>,
    j: int,
    name: Seq<char>,
    system: Option<Seq<char>>,
)
    requires
        0 <= j < lines_of(raw).len(),
        lines_of(raw)[j] == "NAME="@ + name || lines_of(raw)[j] == "NAME=\""@ + name + "\""@,
        name.len() > 0 ==> name[0] != '"' && name[name.len() - 1] != '"',
        forall|i: int|
            0 <= i < lines_of(raw).len() ==> !"PRETTY_NAME="@.is_prefix_of(
                #[trigger] lines_of(raw)[i],
            ),
        forall|i: int|
            j < i < lines_of(raw).len() ==> !"NAME="@.is_prefix_of(#[trigger] lines_of(raw)[i]),
    ensures
        distro_name(Some(raw), system) == name,
{
    let rows = lines_of(raw);
    lemma_quoted(rows[j], "NAME="@, "NAME=\""@, name);
    crate::text::law_last_line_counts(rows, "PRETTY_NAME="@, -1);
    crate::text::law_last_line_counts(rows, "NAME="@, j);
}

/// Without either it is what the system calls itself, and else `unknown`.
pub proof fn law_system_name_counts(raw: Option<Seq<char>>, system: Option<Seq<char>>)
    requires
        raw matches Some(text) ==> forall|i: int|
            0 <= i < lines_of(text).len() ==> !"PRETTY_NAME="@.is_prefix_of(
                #[trigger] lines_of(text)[i],
            ) && !"NAME="@.is_prefix_of(lines_of(text)[i]),
    ensures
        system matches Some(name) ==> distro_name(raw, system) == name,
        system is None ==> distro_name(raw, system) == "unknown"@,
{
    match raw {
        Some(text) => {
            crate::text::law_last_line_counts(lines_of(text), "PRETTY_NAME="@, -1);
            crate::text::law_last_line_counts(lines_of(text), "NAME="@, -1);
        },
        None => {},
    }
}

/// A value after its key, in quotation marks or not, is read without them.
pub proof fn lemma_quoted(row: Seq<char>, key: Seq<char>, opened: Seq<char>, name: Seq<char>)
    requires
        (key == "PRETTY_NAME="@ && opened == "PRETTY_NAME=\""@) || (key == "NAME="@ && opened
            == "NAME=\""@),
        row == key + name || row == opened + name + "\""@,
        name.len() > 0 ==> name[0] != '"' && name[name.len() - 1] != '"',
    ensures
        key.is_prefix_of(row),
        forall|rest: Seq<char>| key + rest == row ==> #[trigger] strip_both(rest, Class::One('"'))
            == name,
{
    reveal_strlit("PRETTY_NAME=");
    reveal_strlit("PRETTY_NAME=\"");
    reveal_strlit("NAME=");
    reveal_strlit("NAME=\"");
    reveal_strlit("\"");
    assert(opened =~= key + seq!['"']);
    let quote = seq!['"'];
    let none = Seq::<char>::empty();
    assert(row.subrange(0, key.len() as int) =~= key);
    crate::text::law_strip_both_ends(none, name, none, Class::One('"'));
    crate::text::law_strip_both_ends(quote, name, quote, Class::One('"'));
    assert(none + name + none =~= name);
    assert forall|rest: Seq<char>| key + rest == row implies #[trigger] strip_both(
        rest,
        Class::One('"'),
    ) == name by {
        assert(rest =~= row.skip(key.len() as int));
        if row == key + name {
            assert(rest =~= name);
        } else {
            assert("\""@ =~= quote);
            assert(rest =~= quote + name + quote);
        }
    }
}

/// The kernel is shown by its version as it is, and by nothing where that is not
/// known.
pub proof fn law_kernel_version_as_it_is(version: Option<Seq<char>>)
    ensures
        version matches Some(v) ==> kernel_text(version) == v,
        version is None ==> kernel_text(version) == Seq::<char>::empty(),
{
}

} // verus!
