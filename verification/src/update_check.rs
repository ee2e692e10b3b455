//! Release notification: when to look for a newer release, over which route, and whether a release
//! is newer. Nothing is ever downloaded or installed.

use crate::outside::{
    build_after, pre_after, semver_build_after, semver_parse, semver_pre_after, semver_value,
    SemVer, VersionView,
};
use crate::text::{
    chars_of, lowered_text, opt_str_view, str_eq, text_of, to_lower, trim, trimmed,
};
use vstd::prelude::*;

verus! {

/// Seconds between two checks.
pub const CHECK_INTERVAL_SECS: u64 = 24 * 60 * 60;

/// Seconds before the first check, in which the daemon that carries it starts up.
pub const INITIAL_DELAY_SECS: u64 = 2 * 60;

/// Seconds before a failed check is tried again.
pub const RETRY_INTERVAL_SECS: u64 = 30 * 60;

/// How the operator set the check.
#[derive(Debug, Clone, Copy, PartialEq, Eq, Structural)]
pub enum Mode {
    /// Not set: over Tor only.
    Default,
    /// Switched on: over Tor where it runs, and directly where it does not.
    Enabled,
    /// Switched off, or set to something that is not understood.
    Disabled,
}

/// Whether a setting switches the check on.
pub open spec fn is_yes(v: Seq<char>) -> bool {
    let word = lowered_text(trimmed(v));
    word == "1"@ || word == "true"@ || word == "yes"@ || word == "on"@
}

/// The mode that a setting stands for.
pub open spec fn mode_of(setting: Option<Seq<char>>) -> Mode {
    match setting {
        None => Mode::Default,
        Some(v) => if is_yes(v) {
            Mode::Enabled
        } else {
            Mode::Disabled
        },
    }
}

/// The mode that a setting stands for.
pub fn mode(setting: Option<&str>) -> (r: Mode)
    ensures
        r == mode_of(opt_str_view(setting)),
{
    match setting {
        None => Mode::Default,
        Some(v) => {
            let t: String = trim(v);
            let word: String = to_lower(t.as_str());
            if str_eq(word.as_str(), "1") || str_eq(word.as_str(), "true") || str_eq(
                word.as_str(),
                "yes",
            ) || str_eq(word.as_str(), "on") {
                Mode::Enabled
            } else {
                Mode::Disabled
            }
        },
    }
}

/// What becomes of the check.
#[derive(Debug, Clone, Copy, PartialEq, Eq, Structural)]
pub enum CheckPlan {
    /// No check: it is switched off.
    Off,
    /// No check: it is not set, and there is no Tor to carry it.
    NoTor,
    /// Checks over the Tor port.
    OverTor { socks_port: u16 },
    /// Checks directly, which shows the address of the host.
    Direct,
}

/// The plan for a mode and the port of the relay's own Tor daemon, where it runs.
pub open spec fn plan_of(m: Mode, tor_socks_port: Option<u16>) -> CheckPlan {
    match m {
        Mode::Disabled => CheckPlan::Off,
        Mode::Default => match tor_socks_port {
            Some(socks_port) => CheckPlan::OverTor { socks_port },
            None => CheckPlan::NoTor,
        },
        Mode::Enabled => match tor_socks_port {
            Some(socks_port) => CheckPlan::OverTor { socks_port },
            None => CheckPlan::Direct,
        },
    }
}

/// Decides on the background check from the setting and the port of the relay's own Tor daemon.
pub fn spawn(setting: Option<&str>, tor_socks_port: Option<u16>) -> (r: CheckPlan)
    ensures
        r == plan_of(mode_of(opt_str_view(setting)), tor_socks_port),
{
    match mode(setting) {
        Mode::Disabled => CheckPlan::Off,
        Mode::Default => match tor_socks_port {
            Some(socks_port) => CheckPlan::OverTor { socks_port },
            None => CheckPlan::NoTor,
        },
        Mode::Enabled => match tor_socks_port {
            Some(socks_port) => CheckPlan::OverTor { socks_port },
            None => CheckPlan::Direct,
        },
    }
}

/// The host is contacted directly only where the operator switched the check on and there is no Tor.
pub proof fn law_never_direct_by_default(setting: Option<Seq<char>>, tor_socks_port: Option<u16>)
    ensures
        plan_of(mode_of(setting), tor_socks_port) == CheckPlan::Direct <==> tor_socks_port is None
            && setting is Some && is_yes(setting->Some_0),
{
}

/// The order of versions: by number, then by pre-release part, then by build metadata.
pub open spec fn version_after(a: VersionView, b: VersionView) -> bool {
    if a.major != b.major {
        a.major > b.major
    } else if a.minor != b.minor {
        a.minor > b.minor
    } else if a.patch != b.patch {
        a.patch > b.patch
    } else if a.pre != b.pre {
        semver_pre_after(a.pre, b.pre)
    } else {
        semver_build_after(a.build, b.build)
    }
}

/// Whether one version comes after another.
pub fn is_after(a: &SemVer, b: &SemVer) -> (r: bool)
    ensures
        r == version_after(a@, b@),
{
    if a.major != b.major {
        return a.major > b.major;
    }
    if a.minor != b.minor {
        return a.minor > b.minor;
    }
    if a.patch != b.patch {
        return a.patch > b.patch;
    }
    if !str_eq(a.pre.as_str(), b.pre.as_str()) {
        return pre_after(a.pre.as_str(), b.pre.as_str());
    }
    build_after(a.build.as_str(), b.build.as_str())
}

/// A tag without the letters `v` at its beginning.
pub open spec fn without_v(tag: Seq<char>) -> Seq<char>
    decreases tag.len(),
{
    if tag.len() > 0 && tag[0] == 'v' {
        without_v(tag.drop_first())
    } else {
        tag
    }
}

fn strip_v(tag: &str) -> (r: String)
    ensures
        r@ == without_v(tag@),
{
    let v: Vec<char> = chars_of(tag);
    let mut i: usize = 0;
    proof {
        assert(tag@.skip(0) =~= tag@);
    }
    while i < v.len() && v[i] == 'v'
        invariant
            v@ == tag@,
            i <= v@.len(),
            without_v(tag@.skip(i as int)) == without_v(tag@),
        decreases v@.len() - i,
    {
        proof {
            assert(tag@.skip(i as int).drop_first() =~= tag@.skip(i + 1));
        }
        i += 1;
    }
    proof {
        assert(tag@.subrange(i as int, tag@.len() as int) =~= tag@.skip(i as int));
    }
    text_of(&v, i, v.len())
}

/// Whether the release tagged `tag` is newer than the running version; `None` where the running
/// version is not a version. A tag that is not a version is not newer.
pub open spec fn newer(current: Seq<char>, tag: Seq<char>) -> Option<bool> {
    match semver_value(current) {
        None => None,
        Some(c) => match semver_value(without_v(tag)) {
            Some(l) => Some(version_after(l, c)),
            None => Some(false),
        },
    }
}

/// Whether the release tagged `tag` is newer than the running version.
pub fn check_once(current: &str, tag: &str) -> (r: Option<bool>)
    ensures
        r == newer(current@, tag@),
{
    match semver_parse(current) {
        None => None,
        Some(c) => {
            let bare: String = strip_v(tag);
            match semver_parse(bare.as_str()) {
                Some(l) => Some(is_after(&l, &c)),
                None => Some(false),
            }
        },
    }
}

/// Seconds until the next check.
pub open spec fn wait_secs(failed: bool) -> u64 {
    if failed {
        RETRY_INTERVAL_SECS
    } else {
        CHECK_INTERVAL_SECS
    }
}

/// Seconds until the next check, after one that came to a result or one that failed.
pub fn next_check_secs(failed: bool) -> (r: u64)
    ensures
        r == wait_secs(failed),
{
    if failed {
        RETRY_INTERVAL_SECS
    } else {
        CHECK_INTERVAL_SECS
    }
}

} // verus!
