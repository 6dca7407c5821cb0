//! The update action the command-line tool performs after the interface
//! exits, chosen from how the tool was installed.

use vstd::prelude::*;

verus! {

/// Update action the CLI should perform after the TUI exits.
#[derive(Debug, Clone, Copy, PartialEq, Eq, Structural)]
pub enum UpdateAction {
    /// Update via `npm install -g @mmmbuto/codex-cli-termux@latest`.
    NpmGlobalLatest,
    /// Update via `bun install -g @mmmbuto/codex-cli-termux@latest`.
    BunGlobalLatest,
    /// Update via `pnpm add -g @mmmbuto/codex-cli-termux@latest`.
    PnpmGlobalLatest,
    /// Redirect a detected Homebrew install to the supported npm package.
    BrewUpgrade,
    /// Update standalone installs via `npm install -g @mmmbuto/codex-cli-termux@latest`.
    StandaloneUnix,
    /// Update standalone installs via `npm install -g @mmmbuto/codex-cli-termux@latest`.
    StandaloneWindows,
}

/// The platform of a standalone install.
#[derive(Debug, Clone, Copy, PartialEq, Eq, Structural)]
pub enum StandalonePlatform {
    Unix,
    Windows,
}

/// How the tool was installed, as far as choosing an update goes.
#[derive(Debug, Clone, Copy, PartialEq, Eq, Structural)]
pub enum InstallMethod {
    Npm,
    Bun,
    Pnpm,
    Brew,
    Standalone { platform: StandalonePlatform },
    Other,
}

/// What is known of the running installation.
#[derive(Debug, Clone, Copy, PartialEq, Eq, Structural)]
pub struct InstallContext {
    pub method: InstallMethod,
}

/// The error of `shlex::try_join`.
#[verifier::external_type_specification]
#[verifier::external_body]
pub struct ExQuoteError(shlex::QuoteError);

/// What `shlex::try_join` gives for words none of which holds a nul
/// character: each word quoted for a POSIX shell where it needs it, the
/// words separated by single spaces.
pub uninterp spec fn shell_quoted_join(words: Seq<Seq<char>>) -> Seq<char>;

/// Some word holds a nul character.
pub open spec fn has_nul(words: Seq<Seq<char>>) -> bool {
    exists|i: int, j: int| 0 <= i < words.len() && 0 <= j < words[i].len() && words[i][j] == '\0'
}

/// A character that `shlex` leaves unquoted: ASCII letters and digits and
/// `+ - . / : @ ] _`.
pub open spec fn needs_no_quoting(c: char) -> bool {
    ||| c == '+' || c == '-' || c == '.' || c == '/' || c == ':' || c == '@' || c == ']' || c == '_'
    ||| '0' <= c <= '9'
    ||| 'A' <= c <= 'Z'
    ||| 'a' <= c <= 'z'
}

/// Every word is non-empty and made only of characters that need no
/// quoting.
pub open spec fn plain_words(words: Seq<Seq<char>>) -> bool {
    forall|i: int|
        0 <= i < words.len() ==> words[i].len() > 0 && forall|j: int|
            0 <= j < words[i].len() ==> needs_no_quoting(#[trigger] words[i][j])
}

/// Calls `shlex::try_join` on `words`. Its contract, from the crate's
/// source: it fails exactly when some word holds a nul character (the only
/// error of the default quoter); otherwise it returns `shell_quoted_join`
/// of the words, which are quoted one by one and put together with single
/// spaces, a word being left as it is when it is non-empty and needs no
/// quoting. How other words are quoted is left to that name.
#[verifier::external_body]
fn shell_join(words: &[&str]) -> (r: Result<String, shlex::QuoteError>)
    ensures
        r is Err <==> has_nul(str_views(words@)),
        r matches Ok(s) ==> s@ == shell_quoted_join(str_views(words@)),
        r matches Ok(s) ==> (plain_words(str_views(words@)) ==> s@ == space_joined(str_views(words@))),
{
    shlex::try_join(words.iter().copied())
}

/// Words put together with a single space between each two.
pub open spec fn space_joined(words: Seq<Seq<char>>) -> Seq<char>
    decreases words.len(),
{
    if words.len() == 0 {
        Seq::empty()
    } else if words.len() == 1 {
        words[0]
    } else {
        space_joined(words.drop_last()) + seq![' '] + words.last()
    }
}

/// The command line shown for `command` and `args` given the shell-quoted
/// form when quoting succeeded: that form, or else the command, a space and
/// the arguments separated by spaces, unquoted.
pub fn command_line(command: &str, args: &[&str], quoted: Option<String>) -> (r: String)
    ensures
        r@ == match quoted {
            Some(q) => q@,
            None => command@ + seq![' '] + space_joined(str_views(args@)),
        },
{
    match quoted {
        Some(q) => q,
        None => {
            let mut r = String::from_str(command);
            let space = " ";
            proof {
                reveal_strlit(" ");
            }
            r.append(space);
            let ghost start = r@;
            let n = args.len();
            let ghost words = str_views(args@);
            assert(words.take(0) =~= Seq::<Seq<char>>::empty());
            assert(start =~= start + space_joined(words.take(0)));
            for i in 0..n
                invariant
                    n == args@.len(),
                    words == str_views(args@),
                    space@ == seq![' '],
                    r@ == start + space_joined(words.take(i as int)),
            {
                let ghost w = words.take(i + 1);
                assert(w.drop_last() =~= words.take(i as int));
                assert(w.last() == args@[i as int]@);
                if i > 0 {
                    r.append(space);
                }
                r.append(args[i]);
                assert(r@ =~= start + space_joined(w));
            }
            assert(words.take(n as int) =~= words);
            r
        },
    }
}

/// The npm package that every update installs.
pub open spec fn package_spec() -> Seq<char> {
    "@mmmbuto/codex-cli-termux@latest"@
}

/// The program an update action runs.
pub open spec fn command_program(action: UpdateAction) -> Seq<char> {
    match action {
        UpdateAction::BunGlobalLatest => "bun"@,
        UpdateAction::PnpmGlobalLatest => "pnpm"@,
        _ => "npm"@,
    }
}

/// The arguments an update action passes: `add -g <package>` for pnpm,
/// `install -g <package>` for every other action.
pub open spec fn command_arguments(action: UpdateAction) -> Seq<Seq<char>> {
    match action {
        UpdateAction::PnpmGlobalLatest => seq!["add"@, "-g"@, package_spec()],
        _ => seq!["install"@, "-g"@, package_spec()],
    }
}

/// The views of a list of string slices.
pub open spec fn str_views(words: Seq<&str>) -> Seq<Seq<char>> {
    words.map_values(|w: &str| w@)
}

/// The update action for an installation method; none for an unknown one.
pub open spec fn action_for_method(method: InstallMethod) -> Option<UpdateAction> {
    match method {
        InstallMethod::Npm => Some(UpdateAction::NpmGlobalLatest),
        InstallMethod::Bun => Some(UpdateAction::BunGlobalLatest),
        InstallMethod::Pnpm => Some(UpdateAction::PnpmGlobalLatest),
        InstallMethod::Brew => Some(UpdateAction::BrewUpgrade),
        InstallMethod::Standalone { platform } => Some(
            match platform {
                StandalonePlatform::Unix => UpdateAction::StandaloneUnix,
                StandalonePlatform::Windows => UpdateAction::StandaloneWindows,
            },
        ),
        InstallMethod::Other => None,
    }
}

/// Every word of an update command is non-empty and needs no quoting.
pub proof fn lemma_command_words_are_plain(action: UpdateAction)
    ensures
        plain_words(seq![command_program(action)] + command_arguments(action)),
{
    reveal_strlit("npm");
    reveal_strlit("bun");
    reveal_strlit("pnpm");
    reveal_strlit("install");
    reveal_strlit("add");
    reveal_strlit("-g");
    reveal_strlit("@mmmbuto/codex-cli-termux@latest");
    let words = seq![command_program(action)] + command_arguments(action);
    assert forall|i: int| 0 <= i < words.len() implies words[i].len() > 0 && forall|j: int|
        0 <= j < words[i].len() ==> needs_no_quoting(#[trigger] words[i][j]) by {
        if i == 3 {
            assert(words[i] == package_spec());
        }
    }
}

impl UpdateAction {
    /// Chooses the update action for an installation.
    pub fn from_install_context(context: &InstallContext) -> (r: Option<UpdateAction>)
        ensures
            r == action_for_method(context.method),
    {
        match &context.method {
            InstallMethod::Npm => Some(UpdateAction::NpmGlobalLatest),
            InstallMethod::Bun => Some(UpdateAction::BunGlobalLatest),
            InstallMethod::Pnpm => Some(UpdateAction::PnpmGlobalLatest),
            InstallMethod::Brew => Some(UpdateAction::BrewUpgrade),
            InstallMethod::Standalone { platform } => Some(
                match platform {
                    StandalonePlatform::Unix => UpdateAction::StandaloneUnix,
                    StandalonePlatform::Windows => UpdateAction::StandaloneWindows,
                },
            ),
            InstallMethod::Other => None,
        }
    }

    /// Returns the program and the command-line arguments for invoking the
    /// update.
    pub fn command_args(self) -> (r: (&'static str, &'static [&'static str]))
        ensures
            r.0@ == command_program(self),
            str_views(r.1@) == command_arguments(self),
    {
        let r: (&'static str, &'static [&'static str]) = match self {
            UpdateAction::NpmGlobalLatest => (
                "npm",
                &["install", "-g", "@mmmbuto/codex-cli-termux@latest"],
            ),
            UpdateAction::BunGlobalLatest => (
                "bun",
                &["install", "-g", "@mmmbuto/codex-cli-termux@latest"],
            ),
            UpdateAction::PnpmGlobalLatest => (
                "pnpm",
                &["add", "-g", "@mmmbuto/codex-cli-termux@latest"],
            ),
            // No Homebrew cask is shipped for this package, so a Homebrew
            // install is pointed at the supported npm package instead.
            UpdateAction::BrewUpgrade => (
                "npm",
                &["install", "-g", "@mmmbuto/codex-cli-termux@latest"],
            ),
            UpdateAction::StandaloneUnix | UpdateAction::StandaloneWindows => (
                "npm",
                &["install", "-g", "@mmmbuto/codex-cli-termux@latest"],
            ),
        };
        assert(str_views(r.1@) =~= command_arguments(self));
        r
    }

    /// Returns the command line for invoking the update, quoted for a
    /// shell; its words need no quoting, so it is the program and its
    /// arguments separated by single spaces.
    pub fn command_str(self) -> (r: String)
        ensures
            r@ == space_joined(seq![command_program(self)] + command_arguments(self)),
    {
        let (command, args) = self.command_args();
        let mut words: Vec<&str> = Vec::new();
        words.push(command);
        let n = args.len();
        for i in 0..n
            invariant
                n == args@.len(),
                str_views(words@) == seq![command@] + str_views(args@).take(i as int),
        {
            let ghost before = words@;
            words.push(args[i]);
            assert(str_views(words@) =~= str_views(before).push(args@[i as int]@));
            assert(str_views(args@).take(i + 1) =~= str_views(args@).take(i as int).push(
                args@[i as int]@,
            ));
        }
        assert(str_views(args@).take(n as int) =~= str_views(args@));
        proof {
            lemma_command_words_are_plain(self);
        }
        let quoted = match shell_join(words.as_slice()) {
            Ok(s) => Some(s),
            Err(_) => None,
        };
        command_line(command, args, quoted)
    }
}

} // verus!
