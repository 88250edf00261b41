//! Derivation of display strings from raw readout values: uptime
//! humanization, battery-state derivation, memory and CPU lines, machine
//! identity, kernel line, and desktop-environment naming.

use vstd::prelude::*;

use crate::error::ReadoutError;
use crate::readouts::{format_kb, kb_display, logical_core_count};
use crate::strnum::{
    dec_str, is_digit_char, lemma_dec_str_digits, parse_seconds, reading_seconds, u64_to_string,
    valid_reading,
};
use crate::strops::{
    after_last_slash, basename, replace_all, replace_spec, str_eq, ucfirst, ucfirst_spec,
};

verus! {

/// Joins two fragments with a single space, dropping the separator when
/// either side is empty.
pub open spec fn space_join(a: Seq<char>, b: Seq<char>) -> Seq<char> {
    if a.len() == 0 {
        b
    } else if b.len() == 0 {
        a
    } else {
        a + " "@ + b
    }
}

/// The suffix for a day count: `"d"` in shorthand, else a singular or
/// plural word.
pub open spec fn day_unit(d: nat, shorthand: bool) -> Seq<char> {
    if shorthand {
        "d"@
    } else if d == 1 {
        " day"@
    } else {
        " days"@
    }
}

/// The suffix for an hour count.
pub open spec fn hour_unit(h: nat, shorthand: bool) -> Seq<char> {
    if shorthand {
        "h"@
    } else if h == 1 {
        " hour"@
    } else {
        " hours"@
    }
}

/// The suffix for a minute count.
pub open spec fn minute_unit(m: nat, shorthand: bool) -> Seq<char> {
    if shorthand {
        "m"@
    } else if m == 1 {
        " minute"@
    } else {
        " minutes"@
    }
}

/// One uptime component: its count followed by its unit, or nothing when
/// the count is zero.
pub open spec fn uptime_component(n: nat, unit: Seq<char>) -> Seq<char> {
    if n == 0 {
        Seq::empty()
    } else {
        dec_str(n) + unit
    }
}

/// The uptime rendering. Above sixty seconds the duration is decomposed
/// into days, hours and minutes, and only non-zero components appear,
/// space-separated, in that order. At sixty seconds or below, the rendering
/// is the seconds count followed by `"s"`, or empty when that count is
/// zero.
pub open spec fn uptime_spec(seconds: nat, shorthand: bool) -> Seq<char> {
    if seconds > 60 {
        let d = seconds / 86400;
        let h = (seconds / 3600) % 24;
        let m = (seconds / 60) % 60;
        space_join(
            space_join(
                uptime_component(d, day_unit(d, shorthand)),
                uptime_component(h, hour_unit(h, shorthand)),
            ),
            uptime_component(m, minute_unit(m, shorthand)),
        )
    } else if seconds % 60 != 0 {
        dec_str((seconds % 60) as nat) + "s"@
    } else {
        Seq::empty()
    }
}

/// Renders an uptime of `seconds` seconds, compactly (`"1d 2h 3m"`) or
/// verbosely (`"1 day 2 hours 3 minutes"`).
pub fn uptime(seconds: u64, shorthand: bool) -> (r: String)
    ensures
        r@ == uptime_spec(seconds as nat, shorthand),
{
    let mut out = String::new();
    if seconds > 60 {
        let d = seconds / 86400;
        let h = (seconds / 3600) % 24;
        let m = (seconds / 60) % 60;
        let ghost cd = uptime_component(d as nat, day_unit(d as nat, shorthand));
        let ghost ch = uptime_component(h as nat, hour_unit(h as nat, shorthand));
        let ghost cm = uptime_component(m as nat, minute_unit(m as nat, shorthand));
        if d != 0 {
            let ds = u64_to_string(d);
            out.append(ds.as_str());
            if shorthand {
                out.append("d");
            } else if d == 1 {
                out.append(" day");
            } else {
                out.append(" days");
            }
        }
        proof {
            assert(out@ =~= cd);
        }
        let ghost pre_h = out@;
        if h != 0 {
            proof {
                lemma_dec_str_digits(h as nat);
            }
            if !out.as_str().is_empty() {
                out.append(" ");
            }
            let hs = u64_to_string(h);
            out.append(hs.as_str());
            if shorthand {
                out.append("h");
            } else if h == 1 {
                out.append(" hour");
            } else {
                out.append(" hours");
            }
        }
        proof {
            assert(out@ =~= space_join(cd, ch));
        }
        let ghost pre_m = out@;
        if m != 0 {
            proof {
                lemma_dec_str_digits(m as nat);
            }
            if !out.as_str().is_empty() {
                out.append(" ");
            }
            let ms = u64_to_string(m);
            out.append(ms.as_str());
            if shorthand {
                out.append("m");
            } else if m == 1 {
                out.append(" minute");
            } else {
                out.append(" minutes");
            }
        }
        proof {
            assert(out@ =~= space_join(space_join(cd, ch), cm));
        }
    } else {
        let s2 = seconds % 60;
        if s2 != 0 {
            let ss = u64_to_string(s2);
            out.append(ss.as_str());
            out.append("s");
            proof {
                assert(out@ =~= dec_str((seconds as nat % 60) as nat) + "s"@);
            }
        }
    }
    out
}

/// Renders the uptime from a raw textual reading of seconds, such as the
/// readout provider hands back. The reading must be a non-negative decimal
/// number whose whole part fits a machine word; otherwise the metric is
/// not available. Any fractional part is discarded.
pub fn uptime_from_reading(reading: &str, shorthand: bool) -> (r: Result<String, ReadoutError>)
    ensures
        valid_reading(reading@) && reading_seconds(reading@) <= u64::MAX ==> (r matches Ok(s) && s@
            == uptime_spec(reading_seconds(reading@), shorthand)),
        !(valid_reading(reading@) && reading_seconds(reading@) <= u64::MAX) ==> (r matches Err(e)
            && e == ReadoutError::MetricNotAvailable),
{
    match parse_seconds(reading) {
        Ok(seconds) => Ok(uptime(seconds, shorthand)),
        Err(e) => Err(e),
    }
}

/// Whether a rendering round-trips through whitespace trimming: it is
/// empty, or neither starts nor ends with a space.
pub open spec fn trimmed(s: Seq<char>) -> bool {
    s.len() == 0 || (s[0] != ' ' && s[s.len() - 1] != ' ')
}

/// A space-join of fragments with non-space edges has non-space edges.
proof fn lemma_space_join_trimmed(a: Seq<char>, b: Seq<char>)
    requires
        trimmed(a),
        trimmed(b),
    ensures
        trimmed(space_join(a, b)),
{
    if a.len() > 0 && b.len() > 0 {
        let j = a + " "@ + b;
        reveal_strlit(" ");
        assert(j[0] == a[0]);
        assert(j[j.len() - 1] == b[b.len() - 1]);
    }
}

/// An uptime component starts with a digit and ends with the last
/// character of its unit.
proof fn lemma_component_trimmed(n: nat, unit: Seq<char>)
    requires
        unit.len() > 0,
        unit[unit.len() - 1] != ' ',
    ensures
        trimmed(uptime_component(n, unit)),
{
    if n > 0 {
        lemma_dec_str_digits(n);
        let c = dec_str(n) + unit;
        assert(c[0] == dec_str(n)[0]);
        assert(is_digit_char(dec_str(n)[0]));
        assert(c[c.len() - 1] == unit[unit.len() - 1]);
    }
}

/// Law: for every duration and either style, the uptime rendering
/// round-trips through whitespace trimming — it is empty or carries no
/// leading or trailing space.
pub proof fn lemma_uptime_trimmed(seconds: nat, shorthand: bool)
    ensures
        trimmed(uptime_spec(seconds, shorthand)),
{
    reveal_strlit("d");
    reveal_strlit(" day");
    reveal_strlit(" days");
    reveal_strlit("h");
    reveal_strlit(" hour");
    reveal_strlit(" hours");
    reveal_strlit("m");
    reveal_strlit(" minute");
    reveal_strlit(" minutes");
    reveal_strlit("s");
    if seconds > 60 {
        let d = seconds / 86400;
        let h = (seconds / 3600) % 24;
        let m = (seconds / 60) % 60;
        let ud = day_unit(d, shorthand);
        let uh = hour_unit(h, shorthand);
        let um = minute_unit(m, shorthand);
        assert(ud.len() > 0 && ud[ud.len() - 1] != ' ');
        assert(uh.len() > 0 && uh[uh.len() - 1] != ' ');
        assert(um.len() > 0 && um[um.len() - 1] != ' ');
        lemma_component_trimmed(d, ud);
        lemma_component_trimmed(h, uh);
        lemma_component_trimmed(m, um);
        lemma_space_join_trimmed(uptime_component(d, ud), uptime_component(h, uh));
        lemma_space_join_trimmed(
            space_join(uptime_component(d, ud), uptime_component(h, uh)),
            uptime_component(m, um),
        );
    } else if seconds % 60 != 0 {
        lemma_dec_str_digits((seconds % 60) as nat);
        let u = dec_str((seconds % 60) as nat) + "s"@;
        assert(u[0] == dec_str((seconds % 60) as nat)[0]);
        assert(is_digit_char(u[0]));
        assert(u[u.len() - 1] == 's');
    }
}

/// Renders `"{username}@{hostname}"`.
pub fn host(username: &str, hostname: &str) -> (r: String)
    ensures
        r@ == username@ + "@"@ + hostname@,
{
    let mut out = String::from_str(username);
    out.append("@");
    out.append(hostname);
    proof {
        assert(out@ =~= username@ + "@"@ + hostname@);
    }
    out
}

/// The battery rendering for non-empty readings: a full battery reads
/// `"Full"` whatever the charging signal says; otherwise the percentage is
/// followed by the charging state, where the signal `"TRUE"` means
/// charging.
pub open spec fn battery_ok_spec(percentage: Seq<char>, status: Seq<char>) -> Seq<char> {
    if percentage == "100"@ {
        "Full"@
    } else if status == "TRUE"@ {
        percentage + "% & Charging"@
    } else {
        percentage + "% & Discharging"@
    }
}

/// Renders the battery state from a percentage reading and a charging
/// signal. Both must be non-empty; otherwise the metric is not available.
pub fn battery(percentage: &str, status: &str) -> (r: Result<String, ReadoutError>)
    ensures
        percentage@.len() > 0 && status@.len() > 0 ==> (r matches Ok(s) && s@ == battery_ok_spec(
            percentage@,
            status@,
        )),
        !(percentage@.len() > 0 && status@.len() > 0) ==> (r matches Err(e) && e
            == ReadoutError::MetricNotAvailable),
{
    if percentage.is_empty() || status.is_empty() {
        return Err(ReadoutError::MetricNotAvailable);
    }
    if str_eq(percentage, "100") {
        Ok(String::from_str("Full"))
    } else if str_eq(status, "TRUE") {
        let mut out = String::from_str(percentage);
        out.append("% & Charging");
        Ok(out)
    } else {
        let mut out = String::from_str(percentage);
        out.append("% & Discharging");
        Ok(out)
    }
}

/// Law: the battery rendering never mixes `"Full"` with a charging
/// suffix. It reads `"Full"` exactly when the percentage reads `"100"`,
/// and `"Full"` holds no `'&'` separator at all; for any other
/// percentage the rendering carries exactly one of the two charging
/// suffixes.
pub proof fn lemma_battery_full_exclusive(percentage: Seq<char>, status: Seq<char>)
    ensures
        percentage == "100"@ ==> battery_ok_spec(percentage, status) == "Full"@,
        percentage != "100"@ ==> battery_ok_spec(percentage, status) != "Full"@,
        percentage != "100"@ ==> (battery_ok_spec(percentage, status) == percentage
            + "% & Charging"@ || battery_ok_spec(percentage, status) == percentage
            + "% & Discharging"@),
        forall|i: int| 0 <= i < "Full"@.len() ==> "Full"@[i] != '&',
{
    reveal_strlit("Full");
    reveal_strlit("% & Charging");
    reveal_strlit("% & Discharging");
    if percentage != "100"@ {
        assert(battery_ok_spec(percentage, status).len() >= 12);
    }
}

/// Renders `"{used}/{total}"` memory quantities, each given in kilobytes
/// and humanized by `bytesize`.
pub fn memory(used_kb: u64, total_kb: u64) -> (r: String)
    requires
        used_kb <= u64::MAX / 1000,
        total_kb <= u64::MAX / 1000,
    ensures
        r@ == kb_display(used_kb) + "/"@ + kb_display(total_kb),
{
    let mut out = format_kb(used_kb);
    out.append("/");
    let total = format_kb(total_kb);
    out.append(total.as_str());
    proof {
        assert(out@ =~= kb_display(used_kb) + "/"@ + kb_display(total_kb));
    }
    out
}

/// The CPU line for a given model string and core count: the model,
/// the count in parentheses, and the literal substrings `"(TM)"` and
/// `"(R)"` replaced anywhere by their symbols.
pub open spec fn cpu_spec(model: Seq<char>, cores: nat) -> Seq<char> {
    replace_spec(
        replace_spec(model + " ("@ + dec_str(cores) + ")"@, "(TM)"@, "\u{2122}"@),
        "(R)"@,
        "\u{ae}"@,
    )
}

/// Renders the CPU line from a model string and a core count.
pub fn cpu_with_cores(model: &str, cores: u64) -> (r: String)
    ensures
        r@ == cpu_spec(model@, cores as nat),
{
    let mut base = String::from_str(model);
    base.append(" (");
    let cs = u64_to_string(cores);
    base.append(cs.as_str());
    base.append(")");
    proof {
        assert(base@ =~= model@ + " ("@ + dec_str(cores as nat) + ")"@);
        reveal_strlit("(TM)");
        reveal_strlit("(R)");
    }
    let pass1 = replace_all(base.as_str(), "(TM)", "\u{2122}");
    let pass2 = replace_all(pass1.as_str(), "(R)", "\u{ae}");
    pass2
}

/// Renders the CPU line for the machine this process runs on: the given
/// model string with the number of logical cores that `num_cpus` reports.
pub fn cpu(model: &str) -> (r: String)
    ensures
        exists|n: nat| 1 <= n && r@ == cpu_spec(model@, n),
{
    let cores = logical_core_count();
    let r = cpu_with_cores(model, cores as u64);
    proof {
        assert(1 <= (cores as u64) as nat && r@ == cpu_spec(model@, (cores as u64) as nat));
    }
    r
}

/// The machine identity: the common value when family, name and version
/// all agree; the version alone when it is a long descriptive string; and
/// `"{vendor} {family} {name}"` otherwise.
pub open spec fn machine_spec(
    vendor: Seq<char>,
    family: Seq<char>,
    name: Seq<char>,
    version: Seq<char>,
) -> Seq<char> {
    if family == name && family == version {
        family
    } else if version.len() <= 15 {
        vendor + " "@ + family + " "@ + name
    } else {
        version
    }
}

/// Law: when family, name and version all agree, the machine identity is
/// that common value, whatever the vendor reads and however the three
/// equal fields are ordered.
pub proof fn lemma_machine_common_value(family: Seq<char>, name: Seq<char>, version: Seq<char>)
    requires
        family == name,
        name == version,
    ensures
        forall|vendor: Seq<char>| #[trigger] machine_spec(vendor, family, name, version) == family,
        forall|vendor: Seq<char>| #[trigger] machine_spec(vendor, name, version, family) == family,
        forall|vendor: Seq<char>| #[trigger] machine_spec(vendor, version, family, name) == family,
{
}

/// Renders the machine identity from its vendor, family, name and version
/// fields, collapsing redundant repetition.
pub fn machine(vendor: &str, family: &str, name: &str, version: &str) -> (r: String)
    ensures
        r@ == machine_spec(vendor@, family@, name@, version@),
{
    if str_eq(family, name) && str_eq(family, version) {
        String::from_str(family)
    } else if version.unicode_len() <= 15 {
        let mut out = String::from_str(vendor);
        out.append(" ");
        out.append(family);
        out.append(" ");
        out.append(name);
        proof {
            assert(out@ =~= vendor@ + " "@ + family@ + " "@ + name@);
        }
        out
    } else {
        String::from_str(version)
    }
}

/// Renders the desktop-environment name: the basename of the session
/// string (the part after its last `'/'`, or the whole string when it
/// holds none), with its first character upper-cased.
pub fn desktop_environment(session_name: String) -> (r: String)
    ensures
        r@ == ucfirst_spec(after_last_slash(session_name@)),
{
    let base = basename(session_name.as_str());
    ucfirst(base)
}

/// Renders `"{os_type} {os_release}"`. Both readings must be non-empty;
/// otherwise the metric is not available.
pub fn kernel(os_type: &str, os_release: &str) -> (r: Result<String, ReadoutError>)
    ensures
        os_type@.len() > 0 && os_release@.len() > 0 ==> (r matches Ok(s) && s@ == os_type@ + " "@
            + os_release@),
        !(os_type@.len() > 0 && os_release@.len() > 0) ==> (r matches Err(e) && e
            == ReadoutError::MetricNotAvailable),
{
    if os_type.is_empty() || os_release.is_empty() {
        return Err(ReadoutError::MetricNotAvailable);
    }
    let mut out = String::from_str(os_type);
    out.append(" ");
    out.append(os_release);
    proof {
        assert(out@ =~= os_type@ + " "@ + os_release@);
    }
    Ok(out)
}

} // verus!
