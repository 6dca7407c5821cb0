use codex_termux::update_action::InstallContext;
use codex_termux::update_action::InstallMethod;
use codex_termux::update_action::StandalonePlatform;
use codex_termux::update_action::UpdateAction;
use codex_termux::update_action::command_line;

#[test]
fn maps_install_context_to_update_action() {
    assert_eq!(
        UpdateAction::from_install_context(&InstallContext {
            method: InstallMethod::Other,
        }),
        None
    );
    assert_eq!(
        UpdateAction::from_install_context(&InstallContext {
            method: InstallMethod::Npm,
        }),
        Some(UpdateAction::NpmGlobalLatest)
    );
    assert_eq!(
        UpdateAction::from_install_context(&InstallContext {
            method: InstallMethod::Bun,
        }),
        Some(UpdateAction::BunGlobalLatest)
    );
    assert_eq!(
        UpdateAction::from_install_context(&InstallContext {
            method: InstallMethod::Pnpm,
        }),
        Some(UpdateAction::PnpmGlobalLatest)
    );
    assert_eq!(
        UpdateAction::from_install_context(&InstallContext {
            method: InstallMethod::Brew,
        }),
        Some(UpdateAction::BrewUpgrade)
    );
    assert_eq!(
        UpdateAction::from_install_context(&InstallContext {
            method: InstallMethod::Standalone {
                platform: StandalonePlatform::Unix,
            },
        }),
        Some(UpdateAction::StandaloneUnix)
    );
    assert_eq!(
        UpdateAction::from_install_context(&InstallContext {
            method: InstallMethod::Standalone {
                platform: StandalonePlatform::Windows,
            },
        }),
        Some(UpdateAction::StandaloneWindows)
    );
}

#[test]
fn standalone_update_commands_use_fork_package() {
    assert_eq!(
        UpdateAction::StandaloneUnix.command_args(),
        (
            "npm",
            &["install", "-g", "@mmmbuto/codex-cli-termux@latest"][..],
        )
    );
    assert_eq!(
        UpdateAction::StandaloneWindows.command_args(),
        (
            "npm",
            &["install", "-g", "@mmmbuto/codex-cli-termux@latest"][..],
        )
    );
    assert_eq!(
        UpdateAction::BrewUpgrade.command_args(),
        (
            "npm",
            &["install", "-g", "@mmmbuto/codex-cli-termux@latest"][..],
        )
    );
}

#[test]
fn package_manager_commands() {
    assert_eq!(
        UpdateAction::NpmGlobalLatest.command_args(),
        ("npm", &["install", "-g", "@mmmbuto/codex-cli-termux@latest"][..])
    );
    assert_eq!(
        UpdateAction::BunGlobalLatest.command_args(),
        ("bun", &["install", "-g", "@mmmbuto/codex-cli-termux@latest"][..])
    );
    assert_eq!(
        UpdateAction::PnpmGlobalLatest.command_args(),
        ("pnpm", &["add", "-g", "@mmmbuto/codex-cli-termux@latest"][..])
    );
}

#[test]
fn command_strings_need_no_quoting() {
    assert_eq!(
        UpdateAction::NpmGlobalLatest.command_str(),
        "npm install -g @mmmbuto/codex-cli-termux@latest"
    );
    assert_eq!(
        UpdateAction::PnpmGlobalLatest.command_str(),
        "pnpm add -g @mmmbuto/codex-cli-termux@latest"
    );
    assert_eq!(
        UpdateAction::BunGlobalLatest.command_str(),
        "bun install -g @mmmbuto/codex-cli-termux@latest"
    );
}

#[test]
fn command_line_falls_back_to_plain_words() {
    assert_eq!(command_line("npm", &["install", "-g", "a b"], None), "npm install -g a b");
    assert_eq!(command_line("npm", &[], None), "npm ");
    assert_eq!(
        command_line("npm", &["x"], Some("'quoted'".to_string())),
        "'quoted'"
    );
}
