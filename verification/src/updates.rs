//! Decisions behind the update notice: where the latest version comes
//! from, when the cached answer is stale, which version to offer, and
//! whether the popup shows it.

use vstd::prelude::*;
use crate::update_action::UpdateAction;

verus! {

/// The cached answer of the last update check.
pub struct VersionInfo {
    /// The latest version that the update check found.
    pub latest_version: String,
    /// When the update check ran, in nanoseconds since the Unix epoch (UTC).
    pub last_checked_at: i128,
    /// Where the latest version was read (`npm`, `bun`, `pnpm` or
    /// `github-release`); absent in caches that predate sources.
    pub source: Option<String>,
    /// A version that the user chose not to be reminded of.
    pub dismissed_version: Option<String>,
}

/// Where an installation reads its latest version.
#[derive(Debug, Clone, Copy, PartialEq, Eq, Structural)]
pub enum ReleaseFeed {
    /// The npm registry entry of the package.
    NpmRegistry,
    /// The latest GitHub release of the project.
    GithubRelease,
}

/// How long a cached answer stays fresh: twenty hours, in nanoseconds.
pub const REFRESH_INTERVAL_NANOS: i128 = 72_000_000_000_000;

/// The name of the source an update action reads its latest version from.
pub open spec fn update_source_spec(action: Option<UpdateAction>) -> Seq<char> {
    match action {
        Some(UpdateAction::NpmGlobalLatest) => "npm"@,
        Some(UpdateAction::BunGlobalLatest) => "bun"@,
        Some(UpdateAction::PnpmGlobalLatest) => "pnpm"@,
        Some(UpdateAction::BrewUpgrade) => "npm"@,
        _ => "github-release"@,
    }
}

/// Package-manager installs (Homebrew ones included, which can only have
/// come from the npm package) read the npm registry; standalone and unknown
/// installs read the GitHub release.
pub open spec fn release_feed_spec(action: Option<UpdateAction>) -> ReleaseFeed {
    match action {
        Some(UpdateAction::NpmGlobalLatest) | Some(UpdateAction::BunGlobalLatest) | Some(
            UpdateAction::PnpmGlobalLatest,
        ) | Some(UpdateAction::BrewUpgrade) => ReleaseFeed::NpmRegistry,
        _ => ReleaseFeed::GithubRelease,
    }
}

/// The cached answer was read from `source`.
pub open spec fn source_matches(info: VersionInfo, source: Seq<char>) -> bool {
    info.source matches Some(s) && s@ == source
}

/// The cached answer, kept only when it was read from `source`.
pub open spec fn for_source(info: Option<VersionInfo>, source: Seq<char>) -> Option<VersionInfo> {
    match info {
        Some(i) => if source_matches(i, source) {
            Some(i)
        } else {
            None
        },
        None => None,
    }
}

/// A new check is due: nothing is cached, or the cached answer is older
/// than twenty hours before `now`.
pub open spec fn refresh_due(info: Option<VersionInfo>, now: int) -> bool {
    match info {
        None => true,
        Some(i) => i.last_checked_at < now - REFRESH_INTERVAL_NANOS,
    }
}

/// The version to offer: the cached latest version when it is newer than
/// the running one.
pub open spec fn offered_version(info: Option<VersionInfo>, latest_is_newer: Option<bool>) -> Option<
    String,
> {
    match info {
        Some(i) => if latest_is_newer == Some(true) {
            Some(i.latest_version)
        } else {
            None
        },
        None => None,
    }
}

/// Update checks run when enabled in the configuration and the running
/// version is a release (not a source build).
pub open spec fn checks_enabled(check_for_update_on_startup: bool, is_source_build: bool) -> bool {
    check_for_update_on_startup && !is_source_build
}

/// An answer just stored for an installation channel is the one that
/// channel reads back, and no new check is due for twenty hours after it.
pub proof fn law_fresh_answer_is_reused(
    info: VersionInfo,
    action: Option<UpdateAction>,
    now: int,
    later: int,
)
    requires
        source_matches(info, update_source_spec(action)),
        info.last_checked_at == now,
        later <= now + REFRESH_INTERVAL_NANOS,
    ensures
        for_source(Some(info), update_source_spec(action)) == Some(info),
        !refresh_due(Some(info), later),
{
}

/// An answer stored for one installation channel is never reused by a
/// channel that reads another source.
pub proof fn law_other_channel_ignores_answer(
    info: VersionInfo,
    stored_for: Option<UpdateAction>,
    now_for: Option<UpdateAction>,
)
    requires
        source_matches(info, update_source_spec(stored_for)),
        update_source_spec(stored_for) != update_source_spec(now_for),
    ensures
        for_source(Some(info), update_source_spec(now_for)) is None,
{
}

/// Whether a new check is due depends on the age of the cached answer
/// alone: none cached means due; otherwise due exactly when the answer was
/// checked more than twenty hours (in nanoseconds) before `now`. So an
/// older answer is never less due, and neither is the same answer later.
pub proof fn law_staleness(info: VersionInfo, older: VersionInfo, now: int, later: int)
    ensures
        refresh_due(None, now),
        refresh_due(Some(info), now) <==> info.last_checked_at < now - 20 * 60 * 60
            * 1_000_000_000,
        older.last_checked_at <= info.last_checked_at && refresh_due(Some(info), now)
            ==> refresh_due(Some(older), now),
        now <= later && refresh_due(Some(info), now) ==> refresh_due(Some(info), later),
{
}

/// An installation reads the npm registry exactly when its update source
/// is not the GitHub release.
pub proof fn law_feed_follows_source(action: Option<UpdateAction>)
    ensures
        (release_feed_spec(action) == ReleaseFeed::NpmRegistry) <==> update_source_spec(action)
            != "github-release"@,
{
    reveal_strlit("npm");
    reveal_strlit("bun");
    reveal_strlit("pnpm");
    reveal_strlit("github-release");
    assert("npm"@.len() != "github-release"@.len());
    assert("bun"@.len() != "github-release"@.len());
    assert("pnpm"@.len() != "github-release"@.len());
}

/// A version is offered only when the cached answer's latest version is
/// known to be newer, and then that version is offered.
pub proof fn law_offered_version(info: Option<VersionInfo>, latest_is_newer: Option<bool>)
    ensures
        offered_version(info, latest_is_newer) is Some ==> info is Some && latest_is_newer
            == Some(true),
        info is Some && latest_is_newer == Some(true) ==> offered_version(info, latest_is_newer)
            == Some(info->0.latest_version),
{
}

fn str_equals(a: &str, b: &str) -> (r: bool)
    ensures
        r == (a@ == b@),
{
    let x = String::from_str(a);
    let y = String::from_str(b);
    x == y
}

/// Returns the name of the source that an update action reads its latest
/// version from.
pub fn current_update_source(action: Option<UpdateAction>) -> (r: &'static str)
    ensures
        r@ == update_source_spec(action),
        action == Some(UpdateAction::NpmGlobalLatest) ==> r@ == "npm"@,
        action == Some(UpdateAction::BunGlobalLatest) ==> r@ == "bun"@,
        action == Some(UpdateAction::PnpmGlobalLatest) ==> r@ == "pnpm"@,
        action == Some(UpdateAction::BrewUpgrade) ==> r@ == "npm"@,
        action == Some(UpdateAction::StandaloneUnix) ==> r@ == "github-release"@,
        action == Some(UpdateAction::StandaloneWindows) ==> r@ == "github-release"@,
        action is None ==> r@ == "github-release"@,
{
    match action {
        Some(UpdateAction::NpmGlobalLatest) => "npm",
        Some(UpdateAction::BunGlobalLatest) => "bun",
        Some(UpdateAction::PnpmGlobalLatest) => "pnpm",
        Some(UpdateAction::BrewUpgrade) => "npm",
        Some(UpdateAction::StandaloneUnix) | Some(UpdateAction::StandaloneWindows) | None => {
            "github-release"
        },
    }
}

/// Returns where an update action reads its latest version.
pub fn release_feed(action: Option<UpdateAction>) -> (r: ReleaseFeed)
    ensures
        r == release_feed_spec(action),
        r == ReleaseFeed::NpmRegistry <==> (action == Some(UpdateAction::NpmGlobalLatest) || action
            == Some(UpdateAction::BunGlobalLatest) || action == Some(UpdateAction::PnpmGlobalLatest)
            || action == Some(UpdateAction::BrewUpgrade)),
{
    match action {
        Some(UpdateAction::NpmGlobalLatest) | Some(UpdateAction::BunGlobalLatest) | Some(
            UpdateAction::PnpmGlobalLatest,
        ) | Some(UpdateAction::BrewUpgrade) => ReleaseFeed::NpmRegistry,
        Some(UpdateAction::StandaloneUnix) | Some(UpdateAction::StandaloneWindows) | None => {
            ReleaseFeed::GithubRelease
        },
    }
}

/// The address of a release feed.
pub open spec fn release_feed_url_spec(feed: ReleaseFeed) -> Seq<char> {
    match feed {
        ReleaseFeed::NpmRegistry => "https://registry.npmjs.org/@mmmbuto%2fcodex-cli-termux/latest"@,
        ReleaseFeed::GithubRelease => "https://api.github.com/repos/DioNanos/codex-termux/releases/latest"@,
    }
}

/// Returns the address of a release feed.
pub fn release_feed_url(feed: ReleaseFeed) -> (r: &'static str)
    ensures
        r@ == release_feed_url_spec(feed),
        feed == ReleaseFeed::NpmRegistry ==> r@
            == "https://registry.npmjs.org/@mmmbuto%2fcodex-cli-termux/latest"@,
        feed == ReleaseFeed::GithubRelease ==> r@
            == "https://api.github.com/repos/DioNanos/codex-termux/releases/latest"@,
{
    match feed {
        ReleaseFeed::NpmRegistry => "https://registry.npmjs.org/@mmmbuto%2fcodex-cli-termux/latest",
        ReleaseFeed::GithubRelease => "https://api.github.com/repos/DioNanos/codex-termux/releases/latest",
    }
}

/// Whether update checks run at all.
pub fn update_checks_enabled(check_for_update_on_startup: bool, is_source_build: bool) -> (r: bool)
    ensures
        r == checks_enabled(check_for_update_on_startup, is_source_build),
{
    check_for_update_on_startup && !is_source_build
}

/// Keeps the cached answer only when it was read from the source of
/// `action`, so that a changed installation channel does not reuse an
/// answer from another source.
pub fn cached_version_info(info: Option<VersionInfo>, action: Option<UpdateAction>) -> (r: Option<
    VersionInfo,
>)
    ensures
        r == for_source(info, update_source_spec(action)),
{
    let expected = current_update_source(action);
    match info {
        Some(i) => {
            let keep = match &i.source {
                Some(s) => str_equals(s.as_str(), expected),
                None => false,
            };
            if keep {
                Some(i)
            } else {
                None
            }
        },
        None => None,
    }
}

/// Whether a new check is due at time `now` (nanoseconds since the Unix
/// epoch).
pub fn should_refresh(info: &Option<VersionInfo>, now: i128) -> (r: bool)
    ensures
        r == refresh_due(*info, now as int),
{
    match info {
        None => true,
        Some(i) => match now.checked_sub(REFRESH_INTERVAL_NANOS) {
            Some(threshold) => i.last_checked_at < threshold,
            None => false,
        },
    }
}

/// The version to offer from the cached answer, given whether its latest
/// version is newer than the running one (`None` where the comparison
/// failed, which counts as not newer).
pub fn upgrade_version(info: Option<VersionInfo>, latest_is_newer: Option<bool>) -> (r: Option<
    String,
>)
    ensures
        r == offered_version(info, latest_is_newer),
{
    match info {
        Some(i) => match latest_is_newer {
            Some(true) => Some(i.latest_version),
            _ => None,
        },
        None => None,
    }
}

/// What startup learns from the cached answer: the version to offer, and
/// whether a new check should run in the background.
pub struct UpgradeCheck {
    pub version: Option<String>,
    pub refresh: bool,
}

/// The latest version to offer at startup, read from the stored answer of
/// the last check, and whether a new check is due. Nothing is offered and
/// no check runs when checks are off. Otherwise only an answer read from
/// the source of `action` counts; a check is due when there is none or it
/// is older than twenty hours before `now`; and its latest version is
/// offered when `is_newer` says that it is newer than the running one.
pub fn get_upgrade_version<F: Fn(&str) -> Option<bool>>(
    check_for_update_on_startup: bool,
    is_source_build: bool,
    action: Option<UpdateAction>,
    stored_info: Option<VersionInfo>,
    now: i128,
    is_newer: &F,
) -> (r: UpgradeCheck)
    requires
        forall|s: &str| call_requires(*is_newer, (s,)),
    ensures
        !checks_enabled(check_for_update_on_startup, is_source_build) ==> r.version is None
            && !r.refresh,
        checks_enabled(check_for_update_on_startup, is_source_build) ==> r.refresh == refresh_due(
            for_source(stored_info, update_source_spec(action)),
            now as int,
        ),
        checks_enabled(check_for_update_on_startup, is_source_build) ==> match for_source(
            stored_info,
            update_source_spec(action),
        ) {
            None => r.version is None,
            Some(i) => exists|s: &str, newer: Option<bool>|
                s@ == i.latest_version@ && call_ensures(*is_newer, (s,), newer) && r.version
                    == offered_version(Some(i), newer),
        },
{
    if !update_checks_enabled(check_for_update_on_startup, is_source_build) {
        return UpgradeCheck { version: None, refresh: false };
    }
    let info = cached_version_info(stored_info, action);
    let refresh = should_refresh(&info, now);
    let newer = match &info {
        Some(i) => {
            let s = i.latest_version.as_str();
            let n = is_newer(s);
            assert(s@ == i.latest_version@ && call_ensures(*is_newer, (s,), n));
            n
        },
        None => None,
    };
    let version = upgrade_version(info, newer);
    UpgradeCheck { version, refresh }
}

/// Returns the latest version to show in a popup, if it should be shown:
/// never when checks are off; otherwise the version on offer, unless the
/// stored answer records that the user dismissed exactly that version.
pub fn get_upgrade_version_for_popup(
    check_for_update_on_startup: bool,
    is_source_build: bool,
    upgrade_version: Option<String>,
    stored_info: Option<&VersionInfo>,
) -> (r: Option<String>)
    ensures
        !checks_enabled(check_for_update_on_startup, is_source_build) ==> r is None,
        checks_enabled(check_for_update_on_startup, is_source_build) ==> r == match upgrade_version {
            None => None,
            Some(latest) => if (stored_info matches Some(info) && info.dismissed_version matches Some(
                d,
            ) && d@ == latest@) {
                None
            } else {
                Some(latest)
            },
        },
{
    if !update_checks_enabled(check_for_update_on_startup, is_source_build) {
        return None;
    }
    let latest = match upgrade_version {
        Some(v) => v,
        None => {
            return None;
        },
    };
    if let Some(info) = stored_info {
        if let Some(d) = &info.dismissed_version {
            if str_equals(d.as_str(), latest.as_str()) {
                return None;
            }
        }
    }
    Some(latest)
}

/// The answer a completed check stores: the version found, the time of the
/// check, the source of `action`, and the dismissed version of the
/// previous answer when that answer came from the same source.
pub fn refreshed_version_info(
    latest_version: String,
    now: i128,
    action: Option<UpdateAction>,
    previous: Option<VersionInfo>,
) -> (r: VersionInfo)
    ensures
        r.latest_version == latest_version,
        r.last_checked_at == now,
        source_matches(r, update_source_spec(action)),
        r.dismissed_version == match for_source(previous, update_source_spec(action)) {
            Some(p) => p.dismissed_version,
            None => None,
        },
{
    let source = current_update_source(action);
    let dismissed_version = match cached_version_info(previous, action) {
        Some(p) => p.dismissed_version,
        None => None,
    };
    VersionInfo {
        latest_version,
        last_checked_at: now,
        source: Some(String::from_str(source)),
        dismissed_version,
    }
}

} // verus!
