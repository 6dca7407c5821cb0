use codex_termux::update_action::UpdateAction;
use codex_termux::updates::cached_version_info;
use codex_termux::updates::current_update_source;
use codex_termux::updates::get_upgrade_version;
use codex_termux::updates::get_upgrade_version_for_popup;
use codex_termux::updates::refreshed_version_info;
use codex_termux::updates::release_feed;
use codex_termux::updates::should_refresh;
use codex_termux::updates::upgrade_version;
use codex_termux::updates::ReleaseFeed;
use codex_termux::updates::VersionInfo;
use codex_termux::updates::REFRESH_INTERVAL_NANOS;

fn info(latest: &str, at: i128, source: Option<&str>, dismissed: Option<&str>) -> VersionInfo {
    VersionInfo {
        latest_version: latest.to_string(),
        last_checked_at: at,
        source: source.map(|s| s.to_string()),
        dismissed_version: dismissed.map(|s| s.to_string()),
    }
}

#[test]
fn update_sources_follow_the_install_channel() {
    assert_eq!(current_update_source(Some(UpdateAction::NpmGlobalLatest)), "npm");
    assert_eq!(current_update_source(Some(UpdateAction::BunGlobalLatest)), "bun");
    assert_eq!(current_update_source(Some(UpdateAction::PnpmGlobalLatest)), "pnpm");
    assert_eq!(current_update_source(Some(UpdateAction::BrewUpgrade)), "npm");
    assert_eq!(current_update_source(Some(UpdateAction::StandaloneUnix)), "github-release");
    assert_eq!(current_update_source(Some(UpdateAction::StandaloneWindows)), "github-release");
    assert_eq!(current_update_source(None), "github-release");
    assert_eq!(release_feed(Some(UpdateAction::BrewUpgrade)), ReleaseFeed::NpmRegistry);
    assert_eq!(release_feed(None), ReleaseFeed::GithubRelease);
}

#[test]
fn cached_answers_from_another_source_are_ignored() {
    let cached = info("1.2.3", 0, Some("npm"), None);
    assert!(cached_version_info(Some(cached), Some(UpdateAction::StandaloneUnix)).is_none());
    let cached = info("1.2.3", 0, Some("npm"), None);
    let kept = cached_version_info(Some(cached), Some(UpdateAction::BrewUpgrade)).unwrap();
    assert_eq!(kept.latest_version, "1.2.3");
    let legacy = info("1.2.3", 0, None, None);
    assert!(cached_version_info(Some(legacy), None).is_none());
}

#[test]
fn refresh_is_due_after_twenty_hours() {
    let now: i128 = 1_700_000_000_000_000_000;
    assert!(should_refresh(&None, now));
    let fresh = Some(info("1.0.0", now - REFRESH_INTERVAL_NANOS, Some("npm"), None));
    assert!(!should_refresh(&fresh, now));
    let stale = Some(info("1.0.0", now - REFRESH_INTERVAL_NANOS - 1, Some("npm"), None));
    assert!(should_refresh(&stale, now));
    assert!(!should_refresh(&fresh, i128::MIN));
}

#[test]
fn only_newer_versions_are_offered() {
    assert_eq!(
        upgrade_version(Some(info("2.0.0", 0, Some("npm"), None)), Some(true)),
        Some("2.0.0".to_string())
    );
    assert_eq!(upgrade_version(Some(info("2.0.0", 0, Some("npm"), None)), Some(false)), None);
    assert_eq!(upgrade_version(Some(info("2.0.0", 0, Some("npm"), None)), None), None);
    assert_eq!(upgrade_version(None, Some(true)), None);
}

#[test]
fn popup_respects_dismissal_and_configuration() {
    let stored = info("2.0.0", 0, Some("npm"), Some("2.0.0"));
    assert_eq!(
        get_upgrade_version_for_popup(true, false, Some("2.0.0".to_string()), Some(&stored)),
        None
    );
    let stored = info("2.0.0", 0, Some("npm"), Some("1.9.0"));
    assert_eq!(
        get_upgrade_version_for_popup(true, false, Some("2.0.0".to_string()), Some(&stored)),
        Some("2.0.0".to_string())
    );
    assert_eq!(
        get_upgrade_version_for_popup(true, false, Some("2.0.0".to_string()), None),
        Some("2.0.0".to_string())
    );
    assert_eq!(get_upgrade_version_for_popup(false, false, Some("2.0.0".to_string()), None), None);
    assert_eq!(get_upgrade_version_for_popup(true, true, Some("2.0.0".to_string()), None), None);
    assert_eq!(get_upgrade_version_for_popup(true, false, None, None), None);
}

#[test]
fn refreshed_answers_keep_dismissals_of_the_same_source() {
    let previous = info("1.0.0", 5, Some("npm"), Some("1.0.0"));
    let r = refreshed_version_info("2.0.0".to_string(), 9, Some(UpdateAction::NpmGlobalLatest), Some(previous));
    assert_eq!(r.latest_version, "2.0.0");
    assert_eq!(r.last_checked_at, 9);
    assert_eq!(r.source.as_deref(), Some("npm"));
    assert_eq!(r.dismissed_version.as_deref(), Some("1.0.0"));
    let previous = info("1.0.0", 5, Some("github-release"), Some("1.0.0"));
    let r = refreshed_version_info("2.0.0".to_string(), 9, Some(UpdateAction::NpmGlobalLatest), Some(previous));
    assert_eq!(r.dismissed_version, None);
    let again = cached_version_info(Some(r), Some(UpdateAction::BrewUpgrade));
    assert!(again.is_some());
    assert!(!should_refresh(&again, 9 + REFRESH_INTERVAL_NANOS));
}

#[test]
fn startup_offers_newer_cached_versions_and_refreshes_stale_answers() {
    let now: i128 = 1_700_000_000_000_000_000;
    let newer = |v: &str| Some(v == "2.0.0");
    let fresh = info("2.0.0", now, Some("npm"), None);
    let check = get_upgrade_version(true, false, Some(UpdateAction::NpmGlobalLatest), Some(fresh), now, &newer);
    assert_eq!(check.version, Some("2.0.0".to_string()));
    assert!(!check.refresh);

    let stale = info("2.0.0", now - REFRESH_INTERVAL_NANOS - 1, Some("npm"), None);
    let check = get_upgrade_version(true, false, Some(UpdateAction::BrewUpgrade), Some(stale), now, &newer);
    assert_eq!(check.version, Some("2.0.0".to_string()));
    assert!(check.refresh);

    let older = info("1.0.0", now, Some("npm"), None);
    let check = get_upgrade_version(true, false, Some(UpdateAction::NpmGlobalLatest), Some(older), now, &newer);
    assert_eq!(check.version, None);
    assert!(!check.refresh);
}

#[test]
fn startup_ignores_answers_from_another_source_and_disabled_checks() {
    let now: i128 = 1_700_000_000_000_000_000;
    let newer = |_: &str| Some(true);
    let other = info("2.0.0", now, Some("npm"), None);
    let check = get_upgrade_version(true, false, None, Some(other), now, &newer);
    assert_eq!(check.version, None);
    assert!(check.refresh);

    let cached = info("2.0.0", now, Some("github-release"), None);
    let check = get_upgrade_version(false, false, None, Some(cached), now, &newer);
    assert_eq!(check.version, None);
    assert!(!check.refresh);

    let cached = info("2.0.0", now, Some("github-release"), None);
    let check = get_upgrade_version(true, true, None, Some(cached), now, &newer);
    assert_eq!(check.version, None);
    assert!(!check.refresh);

    let check = get_upgrade_version(true, false, None, None, now, &newer);
    assert_eq!(check.version, None);
    assert!(check.refresh);

    let failed = |_: &str| None;
    let cached = info("2.0.0", now, Some("github-release"), None);
    let check = get_upgrade_version(true, false, None, Some(cached), now, &failed);
    assert_eq!(check.version, None);
}
