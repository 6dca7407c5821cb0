use codex_termux::agents_md::blank;
use codex_termux::agents_md::AgentsMdCache;
use codex_termux::agents_md::AgentsMdManager;
use codex_termux::agents_md::retained_user_instructions;
use codex_termux::agents_md::UserInstructions;

#[test]
fn blank_instructions_are_dropped() {
    let kept = retained_user_instructions(Some(UserInstructions { text: "  be brief\n".to_string() }));
    assert_eq!(kept.map(|i| i.text), Some("  be brief\n".to_string()));
    assert!(retained_user_instructions(Some(UserInstructions { text: " \n\t\u{3000}".to_string() })).is_none());
    assert!(retained_user_instructions(Some(UserInstructions { text: String::new() })).is_none());
    assert!(retained_user_instructions(None).is_none());
}

#[test]
fn blank_agrees_with_trim() {
    for s in ["", " ", "\u{85}\u{a0}\u{1680}\u{2000}\u{200a}\u{2028}\u{2029}\u{202f}\u{205f}\u{3000}", "\u{200b}", "a", " a ", "\u{180e}", "\u{feff}"] {
        assert_eq!(blank(s), s.trim().is_empty(), "{s:?}");
    }
}

#[derive(Debug, Clone, Copy, PartialEq, Eq)]
enum Trust {
    Trusted,
    Untrusted,
}

#[test]
fn a_new_cache_runs_discovery() {
    let mut cache: AgentsMdCache<String, Trust, String> = AgentsMdCache::new();
    assert!(cache.begin_refresh(&vec!["local".to_string()], &Some(Trust::Trusted)));
    assert!(cache.selections.is_none());
    assert!(cache.loaded.is_none());
}

#[test]
fn found_instructions_are_reused_for_the_same_inputs() {
    let mut cache: AgentsMdCache<String, Trust, String> = AgentsMdCache::new();
    let selections = vec!["local".to_string(), "remote".to_string()];
    cache.finish_refresh(selections.clone(), Some(Trust::Trusted), Some("# AGENTS".to_string()));
    assert!(!cache.begin_refresh(&selections, &Some(Trust::Trusted)));
    assert_eq!(cache.selections, Some(selections.clone()));
    assert_eq!(cache.active_project_trust_level, Some(Trust::Trusted));
    assert_eq!(cache.loaded, Some("# AGENTS".to_string()));
}

#[test]
fn changed_inputs_run_discovery_again() {
    let mut cache: AgentsMdCache<String, Trust, String> = AgentsMdCache::new();
    let selections = vec!["local".to_string()];
    cache.finish_refresh(selections.clone(), Some(Trust::Trusted), Some("# AGENTS".to_string()));
    assert!(cache.begin_refresh(&selections, &Some(Trust::Untrusted)));
    assert!(cache.selections.is_none());
    assert!(cache.active_project_trust_level.is_none());
    assert!(cache.loaded.is_none());

    cache.finish_refresh(selections.clone(), None, Some("# AGENTS".to_string()));
    assert!(cache.begin_refresh(&selections, &Some(Trust::Trusted)));

    cache.finish_refresh(selections.clone(), None, Some("# AGENTS".to_string()));
    assert!(!cache.begin_refresh(&selections, &None));
    assert!(cache.begin_refresh(&vec!["remote".to_string()], &None));

    cache.finish_refresh(selections.clone(), None, Some("# AGENTS".to_string()));
    assert!(cache.begin_refresh(&vec!["local".to_string(), "remote".to_string()], &None));
}

#[test]
fn empty_discoveries_run_again() {
    let mut cache: AgentsMdCache<String, Trust, String> = AgentsMdCache::new();
    let selections = vec!["local".to_string()];
    cache.finish_refresh(selections.clone(), Some(Trust::Trusted), None);
    assert!(cache.begin_refresh(&selections, &Some(Trust::Trusted)));
    assert!(cache.selections.is_none());
}

#[test]
fn manager_keeps_non_blank_instructions_and_discovery_results() {
    let manager: AgentsMdManager<String, Trust, String> =
        AgentsMdManager::new(Some(UserInstructions { text: " \t".to_string() }));
    assert!(manager.user_instructions().is_none());
    assert!(manager.get_loaded().is_none());

    let mut manager: AgentsMdManager<String, Trust, String> =
        AgentsMdManager::new(Some(UserInstructions { text: "use tabs".to_string() }));
    assert_eq!(manager.user_instructions().map(|i| i.text), Some("use tabs".to_string()));
    let selections = vec!["local".to_string()];
    assert!(manager.begin_refresh(&selections, &None));
    manager.finish_refresh(selections.clone(), None, Some("# AGENTS".to_string()));
    assert_eq!(manager.get_loaded(), Some(&"# AGENTS".to_string()));
    assert!(!manager.begin_refresh(&selections, &None));
    assert_eq!(manager.get_loaded(), Some(&"# AGENTS".to_string()));
    assert!(manager.begin_refresh(&selections, &Some(Trust::Untrusted)));
    assert!(manager.get_loaded().is_none());
    assert_eq!(manager.user_instructions().map(|i| i.text), Some("use tabs".to_string()));
}
