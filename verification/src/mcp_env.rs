//! The environment that an MCP server process starts with: which variables
//! are read from this process, which are forwarded to a remote side, and
//! how configured overrides and certificate settings combine.

use vstd::prelude::*;
use vstd::utf8::encode_utf8;
use crate::paths::copy_bytes;
use crate::byte_map::{
    answers_yes, consistent, entries_map, entry_views, eq_ignore_ascii_case, restrict_keys,
    bytes_eq_ignore_ascii_case, text_eq_ignore_ascii_case, ByteMap,
};

verus! {

/// An environment variable that an MCP server's configuration names.
pub struct McpServerEnvVar {
    /// The variable's name.
    pub name: String,
    /// Its value is to be read on the remote side, not in this process.
    pub remote_source: bool,
}

/// Why the environment of a local MCP server cannot be built.
pub enum McpEnvError {
    /// A variable is to be read on the remote side, which only a remote
    /// MCP server over stdio can do.
    RemoteSourceRequiresRemoteStdio { name: String },
}

/// The bytes of a variable's name.
pub open spec fn name_bytes(v: McpServerEnvVar) -> Seq<u8> {
    encode_utf8(v.name@)
}

/// The names of the variables read on the remote side that may be
/// inherited, in order.
pub open spec fn remote_names<F: Fn(&[u8]) -> bool>(vars: Seq<McpServerEnvVar>, f: F) -> Seq<
    Seq<char>,
>
    decreases vars.len(),
{
    if vars.len() == 0 {
        Seq::empty()
    } else {
        let prev = remote_names(vars.drop_last(), f);
        let v = vars.last();
        if v.remote_source && !answers_yes(f, name_bytes(v)) {
            prev.push(v.name@)
        } else {
            prev
        }
    }
}

/// The names of the variables read in this process that may be
/// inherited, in order.
pub open spec fn local_names<F: Fn(&[u8]) -> bool>(vars: Seq<McpServerEnvVar>, f: F) -> Seq<
    Seq<char>,
>
    decreases vars.len(),
{
    if vars.len() == 0 {
        Seq::empty()
    } else {
        let prev = local_names(vars.drop_last(), f);
        let v = vars.last();
        if !v.remote_source && !answers_yes(f, name_bytes(v)) {
            prev.push(v.name@)
        } else {
            prev
        }
    }
}

/// The names of all variables read in this process, in order.
pub open spec fn overlay_names(vars: Seq<McpServerEnvVar>) -> Seq<Seq<char>>
    decreases vars.len(),
{
    if vars.len() == 0 {
        Seq::empty()
    } else {
        let prev = overlay_names(vars.drop_last());
        if !vars.last().remote_source {
            prev.push(vars.last().name@)
        } else {
            prev
        }
    }
}

/// `i` is the first variable read on the remote side.
pub open spec fn is_first_remote(vars: Seq<McpServerEnvVar>, i: int) -> bool {
    &&& 0 <= i < vars.len()
    &&& vars[i].remote_source
    &&& forall|j: int| 0 <= j < i ==> !vars[j].remote_source
}

/// No variable is read on the remote side.
pub open spec fn all_local(vars: Seq<McpServerEnvVar>) -> bool {
    forall|i: int| 0 <= i < vars.len() ==> !vars[i].remote_source
}

/// The variables that every local MCP server may inherit.
pub open spec fn default_names() -> Seq<Seq<char>> {
    seq![
        "HOME"@, "LOGNAME"@, "PATH"@, "SHELL"@, "USER"@, "__CF_USER_TEXT_ENCODING"@, "LANG"@,
        "LC_ALL"@, "TERM"@, "TMPDIR"@, "TZ"@,
    ]
}

/// The variables that tools under Termux need besides: interpreters and
/// caches (`PREFIX`, `NPM_CONFIG_PREFIX`), the dynamic linker shim
/// (`LD_PRELOAD`), the right system libraries (`LD_LIBRARY_PATH`), and the
/// Android and XDG locations.
pub open spec fn termux_names() -> Seq<Seq<char>> {
    seq![
        "PREFIX"@, "TERMUX_VERSION"@, "TERMUX_APP_PID"@, "TERMUX_MAIN_PACKAGE_FORMAT"@,
        "LD_PRELOAD"@, "LD_LIBRARY_PATH"@, "NPM_CONFIG_PREFIX"@, "ANDROID_DATA"@, "ANDROID_ROOT"@,
        "ANDROID_RUNTIME_ROOT"@, "BOOTCLASSPATH"@, "XDG_RUNTIME_DIR"@, "XDG_DATA_HOME"@,
        "XDG_CACHE_HOME"@, "XDG_CONFIG_HOME"@,
    ]
}

/// The text of an error.
pub open spec fn error_message(e: McpEnvError) -> Seq<char> {
    match e {
        McpEnvError::RemoteSourceRequiresRemoteStdio { name } => "env_vars entry `"@ + name@
            + "` uses source `remote`, which requires remote MCP stdio"@,
    }
}

impl McpEnvError {
    /// The text of the error.
    pub fn message(&self) -> (r: String)
        ensures
            r@ == error_message(*self),
    {
        match self {
            McpEnvError::RemoteSourceRequiresRemoteStdio { name } => {
                let mut r = String::from_str("env_vars entry `");
                r.append(name.as_str());
                r.append("` uses source `remote`, which requires remote MCP stdio");
                r
            },
        }
    }
}

/// Returns the variables that every local MCP server may inherit.
pub fn default_env_var_names() -> (r: &'static [&'static str])
    ensures
        crate::update_action::str_views(r@) == default_names(),
{
    let r: &'static [&'static str] = &[
        "HOME",
        "LOGNAME",
        "PATH",
        "SHELL",
        "USER",
        "__CF_USER_TEXT_ENCODING",
        "LANG",
        "LC_ALL",
        "TERM",
        "TMPDIR",
        "TZ",
    ];
    assert(crate::update_action::str_views(r@) =~= default_names());
    r
}

/// Returns the variables that tools under Termux need besides.
pub fn termux_env_var_names() -> (r: &'static [&'static str])
    ensures
        crate::update_action::str_views(r@) == termux_names(),
{
    let r: &'static [&'static str] = &[
        "PREFIX",
        "TERMUX_VERSION",
        "TERMUX_APP_PID",
        "TERMUX_MAIN_PACKAGE_FORMAT",
        "LD_PRELOAD",
        "LD_LIBRARY_PATH",
        "NPM_CONFIG_PREFIX",
        "ANDROID_DATA",
        "ANDROID_ROOT",
        "ANDROID_RUNTIME_ROOT",
        "BOOTCLASSPATH",
        "XDG_RUNTIME_DIR",
        "XDG_DATA_HOME",
        "XDG_CACHE_HOME",
        "XDG_CONFIG_HOME",
    ];
    assert(crate::update_action::str_views(r@) =~= termux_names());
    r
}

/// The views of a list of strings.
pub open spec fn string_views(v: Seq<String>) -> Seq<Seq<char>> {
    v.map_values(|s: String| s@)
}

fn name_is_denied<F: Fn(&[u8]) -> bool>(f: &F, v: &McpServerEnvVar) -> (r: bool)
    requires
        consistent(*f),
    ensures
        r == answers_yes(*f, name_bytes(*v)),
{
    let bytes = v.name.as_str().as_bytes();
    f(bytes)
}

/// Returns the names of the variables that a remote MCP server reads on its
/// own side, leaving out those that must never be inherited.
pub fn remote_mcp_env_var_names<F: Fn(&[u8]) -> bool>(
    env_vars: &[McpServerEnvVar],
    is_non_inheritable: &F,
) -> (r: Vec<String>)
    requires
        consistent(*is_non_inheritable),
    ensures
        string_views(r@) == remote_names(env_vars@, *is_non_inheritable),
{
    let mut r: Vec<String> = Vec::new();
    let n = env_vars.len();
    assert(env_vars@.take(0) =~= Seq::<McpServerEnvVar>::empty());
    for i in 0..n
        invariant
            n == env_vars@.len(),
            consistent(*is_non_inheritable),
            string_views(r@) == remote_names(env_vars@.take(i as int), *is_non_inheritable),
    {
        let ghost t = env_vars@.take(i + 1);
        assert(t.drop_last() =~= env_vars@.take(i as int));
        assert(t.last() == env_vars@[i as int]);
        let v = &env_vars[i];
        if v.remote_source && !name_is_denied(is_non_inheritable, v) {
            let ghost before = string_views(r@);
            r.push(v.name.clone());
            assert(string_views(r@) =~= before.push(v.name@));
        }
    }
    assert(env_vars@.take(n as int) =~= env_vars@);
    r
}

/// Returns the names of the configured variables that a local MCP server
/// reads in this process, leaving out those that must never be inherited;
/// fails on the first variable that is to be read on the remote side.
pub fn local_stdio_env_var_names<F: Fn(&[u8]) -> bool>(
    env_vars: &[McpServerEnvVar],
    is_non_inheritable: &F,
) -> (r: Result<Vec<String>, McpEnvError>)
    requires
        consistent(*is_non_inheritable),
    ensures
        match r {
            Ok(names) => all_local(env_vars@) && string_views(names@) == local_names(
                env_vars@,
                *is_non_inheritable,
            ),
            Err(McpEnvError::RemoteSourceRequiresRemoteStdio { name }) => exists|i: int|
                is_first_remote(env_vars@, i) && name@ == env_vars@[i].name@,
        },
{
    let n = env_vars.len();
    for i in 0..n
        invariant
            n == env_vars@.len(),
            forall|j: int| 0 <= j < i ==> !env_vars@[j].remote_source,
    {
        if env_vars[i].remote_source {
            assert(is_first_remote(env_vars@, i as int));
            return Err(
                McpEnvError::RemoteSourceRequiresRemoteStdio { name: env_vars[i].name.clone() },
            );
        }
    }
    let mut r: Vec<String> = Vec::new();
    assert(env_vars@.take(0) =~= Seq::<McpServerEnvVar>::empty());
    for i in 0..n
        invariant
            n == env_vars@.len(),
            consistent(*is_non_inheritable),
            string_views(r@) == local_names(env_vars@.take(i as int), *is_non_inheritable),
    {
        let ghost t = env_vars@.take(i + 1);
        assert(t.drop_last() =~= env_vars@.take(i as int));
        assert(t.last() == env_vars@[i as int]);
        let v = &env_vars[i];
        if !v.remote_source && !name_is_denied(is_non_inheritable, v) {
            let ghost before = string_views(r@);
            r.push(v.name.clone());
            assert(string_views(r@) =~= before.push(v.name@));
        }
    }
    assert(env_vars@.take(n as int) =~= env_vars@);
    Ok(r)
}

fn push_strs(r: &mut Vec<String>, words: &[&str])
    ensures
        string_views(final(r)@) == string_views(old(r)@) + crate::update_action::str_views(words@),
{
    let n = words.len();
    let ghost start = string_views(r@);
    let ghost w = crate::update_action::str_views(words@);
    assert(w.take(0) =~= Seq::<Seq<char>>::empty());
    assert(start + w.take(0) =~= start);
    for i in 0..n
        invariant
            n == words@.len(),
            w == crate::update_action::str_views(words@),
            string_views(r@) == start + w.take(i as int),
    {
        let ghost before = string_views(r@);
        r.push(String::from_str(words[i]));
        assert(string_views(r@) =~= before.push(w[i as int]));
        assert(w.take(i + 1) =~= w.take(i as int).push(w[i as int]));
    }
    assert(w.take(n as int) =~= w);
}

/// The views of an optional list of names.
pub open spec fn opt_str_views(o: Option<&[&str]>) -> Option<Seq<Seq<char>>> {
    match o {
        Some(l) => Some(crate::update_action::str_views(l@)),
        None => None,
    }
}

/// The variables that every local MCP server may inherit: on Unix the
/// defaults above; on Windows (`windows` holds the core variables of that
/// platform) those.
pub open spec fn inherited_defaults(windows: Option<Seq<Seq<char>>>) -> Seq<Seq<char>> {
    match windows {
        Some(w) => w,
        None => default_names(),
    }
}

/// The names a local MCP server inherits from this process: the defaults,
/// then under Termux (never on Windows) its own variables, then the
/// configured ones that may be inherited.
pub open spec fn local_read_names<F: Fn(&[u8]) -> bool>(
    vars: Seq<McpServerEnvVar>,
    windows: Option<Seq<Seq<char>>>,
    running_on_termux: bool,
    f: F,
) -> Seq<Seq<char>> {
    inherited_defaults(windows) + (if running_on_termux && windows is None {
        termux_names()
    } else {
        Seq::empty()
    }) + local_names(vars, f)
}

/// Returns the names of the variables a local MCP server inherits from
/// this process: the defaults (on Windows, `windows_core_env_vars`), then
/// under Termux its own variables, then the configured ones that may be
/// inherited; fails as `local_stdio_env_var_names` does.
pub fn env_var_names_to_read<F: Fn(&[u8]) -> bool>(
    env_vars: &[McpServerEnvVar],
    running_on_termux: bool,
    windows_core_env_vars: Option<&[&str]>,
    is_non_inheritable: &F,
) -> (r: Result<Vec<String>, McpEnvError>)
    requires
        consistent(*is_non_inheritable),
    ensures
        match r {
            Ok(names) => all_local(env_vars@) && string_views(names@) == local_read_names(
                env_vars@,
                opt_str_views(windows_core_env_vars),
                running_on_termux,
                *is_non_inheritable,
            ),
            Err(McpEnvError::RemoteSourceRequiresRemoteStdio { name }) => exists|i: int|
                is_first_remote(env_vars@, i) && name@ == env_vars@[i].name@,
        },
{
    let additional = match local_stdio_env_var_names(env_vars, is_non_inheritable) {
        Ok(names) => names,
        Err(e) => {
            return Err(e);
        },
    };
    let mut r: Vec<String> = Vec::new();
    assert(string_views(r@) =~= Seq::<Seq<char>>::empty());
    match windows_core_env_vars {
        Some(core) => {
            push_strs(&mut r, core);
        },
        None => {
            push_strs(&mut r, default_env_var_names());
            if running_on_termux {
                push_strs(&mut r, termux_env_var_names());
            }
        },
    }
    let ghost before = string_views(r@);
    assert(before =~= inherited_defaults(opt_str_views(windows_core_env_vars)) + (
    if running_on_termux && windows_core_env_vars is None {
        termux_names()
    } else {
        Seq::empty()
    }));
    let n = additional.len();
    for i in 0..n
        invariant
            n == additional@.len(),
            string_views(r@) == before + string_views(additional@).take(i as int),
    {
        let ghost b = string_views(r@);
        r.push(additional[i].clone());
        assert(string_views(r@) =~= b.push(additional@[i as int]@));
        assert(string_views(additional@).take(i + 1) =~= string_views(additional@).take(
            i as int,
        ).push(additional@[i as int]@));
    }
    assert(string_views(additional@).take(n as int) =~= string_views(additional@));
    Ok(r)
}

/// Returns the names of the configured variables that a remote MCP server
/// gets from this process: those not read on the remote side.
pub fn remote_overlay_env_var_names(env_vars: &[McpServerEnvVar]) -> (r: Vec<String>)
    ensures
        string_views(r@) == overlay_names(env_vars@),
{
    let mut r: Vec<String> = Vec::new();
    let n = env_vars.len();
    assert(env_vars@.take(0) =~= Seq::<McpServerEnvVar>::empty());
    for i in 0..n
        invariant
            n == env_vars@.len(),
            string_views(r@) == overlay_names(env_vars@.take(i as int)),
    {
        let ghost t = env_vars@.take(i + 1);
        assert(t.drop_last() =~= env_vars@.take(i as int));
        assert(t.last() == env_vars@[i as int]);
        if !env_vars[i].remote_source {
            let ghost before = string_views(r@);
            r.push(env_vars[i].name.clone());
            assert(string_views(r@) =~= before.push(env_vars@[i as int].name@));
        }
    }
    assert(env_vars@.take(n as int) =~= env_vars@);
    r
}

/// `k` names a certificate-authority variable, without regard to the case
/// of ASCII letters.
pub open spec fn names_ca_key(k: Seq<u8>, ca_keys: Seq<&str>) -> bool {
    exists|i: int| 0 <= i < ca_keys.len() && eq_ignore_ascii_case(k, encode_utf8(ca_keys[i]@))
}

/// The environment after entries are set in order. Before an entry is set,
/// when `clear_all` holds or its name is one of `ca_keys` without regard to
/// case, every variable whose name has the same text without regard to the
/// case of ASCII letters is removed.
pub open spec fn apply_entries(
    m: Map<Seq<u8>, Seq<u8>>,
    entries: Seq<(Seq<u8>, Seq<u8>)>,
    clear_all: bool,
    ca_keys: Seq<&str>,
) -> Map<Seq<u8>, Seq<u8>>
    decreases entries.len(),
{
    if entries.len() == 0 {
        m
    } else {
        let m0 = apply_entries(m, entries.drop_last(), clear_all, ca_keys);
        let (k, v) = entries.last();
        let cleared = if clear_all || names_ca_key(k, ca_keys) {
            restrict_keys(m0, |x: Seq<u8>| !text_eq_ignore_ascii_case(x, k))
        } else {
            m0
        };
        cleared.insert(k, v)
    }
}

/// The environment without the variables that must never be inherited.
pub open spec fn inheritable<F: Fn(&[u8]) -> bool>(m: Map<Seq<u8>, Seq<u8>>, f: F) -> Map<
    Seq<u8>,
    Seq<u8>,
> {
    restrict_keys(m, |k: Seq<u8>| !answers_yes(f, k))
}

/// The entries of an optional list, none when absent.
pub open spec fn optional_entries(extra: Option<Vec<(Vec<u8>, Vec<u8>)>>) -> Seq<
    (Seq<u8>, Seq<u8>),
> {
    match extra {
        Some(e) => entry_views(e@),
        None => Seq::empty(),
    }
}


/// The entries that the environment `penv` holds for `names`, in the order
/// of the names: each name that is set, with its value.
pub open spec fn found_entries(names: Seq<Seq<char>>, penv: Map<Seq<u8>, Seq<u8>>) -> Seq<
    (Seq<u8>, Seq<u8>),
>
    decreases names.len(),
{
    if names.len() == 0 {
        Seq::empty()
    } else {
        let prev = found_entries(names.drop_last(), penv);
        let k = encode_utf8(names.last());
        if penv.contains_key(k) {
            prev.push((k, penv[k]))
        } else {
            prev
        }
    }
}


/// The environment of a local MCP server: the inherited variables that
/// `penv` sets; then the certificate-authority entries, each on Windows
/// first removing the variables whose names match it without regard to
/// case; then the overrides, each on Windows, or when it names a
/// certificate-authority variable, first removing the variables whose
/// names match it without regard to case; without the variables that must
/// never be inherited.
pub open spec fn local_environment<F: Fn(&[u8]) -> bool>(
    vars: Seq<McpServerEnvVar>,
    windows: Option<Seq<Seq<char>>>,
    running_on_termux: bool,
    penv: Map<Seq<u8>, Seq<u8>>,
    ca_entries: Seq<(Seq<u8>, Seq<u8>)>,
    extra: Seq<(Seq<u8>, Seq<u8>)>,
    ca_keys: Seq<&str>,
    f: F,
) -> Map<Seq<u8>, Seq<u8>> {
    let base = entries_map(found_entries(local_read_names(vars, windows, running_on_termux, f), penv));
    let with_ca = apply_entries(base, ca_entries, windows is Some, Seq::empty());
    inheritable(apply_entries(with_ca, extra, windows is Some, ca_keys), f)
}

/// What a remote MCP server gets from this process: the configured
/// variables not read on the remote side that `penv` sets, then the
/// overrides, without the variables that must never be inherited.
pub open spec fn overlay_environment<F: Fn(&[u8]) -> bool>(
    vars: Seq<McpServerEnvVar>,
    penv: Map<Seq<u8>, Seq<u8>>,
    extra: Seq<(Seq<u8>, Seq<u8>)>,
    f: F,
) -> Map<Seq<u8>, Seq<u8>> {
    inheritable(entries_map(found_entries(overlay_names(vars), penv) + extra), f)
}

/// Some entry sets `k`.
pub open spec fn sets(entries: Seq<(Seq<u8>, Seq<u8>)>, k: Seq<u8>) -> bool {
    exists|i: int| 0 <= i < entries.len() && entries[i].0 == k
}

proof fn lemma_apply_kept(
    m: Map<Seq<u8>, Seq<u8>>,
    extra: Seq<(Seq<u8>, Seq<u8>)>,
    clear_all: bool,
    ca_keys: Seq<&str>,
    i: int,
    n: int,
)
    requires
        0 <= i < n <= extra.len(),
        forall|j: int| i < j < extra.len() ==> extra[j].0 != extra[i].0,
        forall|j: int|
            i < j < extra.len() && (clear_all || names_ca_key(extra[j].0, ca_keys))
                ==> !text_eq_ignore_ascii_case(extra[i].0, extra[j].0),
    ensures
        apply_entries(m, extra.take(n), clear_all, ca_keys).contains_key(extra[i].0),
        apply_entries(m, extra.take(n), clear_all, ca_keys)[extra[i].0] == extra[i].1,
    decreases n,
{
    let t = extra.take(n);
    assert(t.drop_last() =~= extra.take(n - 1));
    assert(t.last() == extra[n - 1]);
    if n - 1 > i {
        lemma_apply_kept(m, extra, clear_all, ca_keys, i, n - 1);
    }
}

/// A configured override reaches a server unchanged unless a later entry
/// sets the same variable or, clearing, matches it without regard to case,
/// or the variable must never be inherited.
pub proof fn law_override_reaches_server<F: Fn(&[u8]) -> bool>(
    m: Map<Seq<u8>, Seq<u8>>,
    extra: Seq<(Seq<u8>, Seq<u8>)>,
    clear_all: bool,
    ca_keys: Seq<&str>,
    f: F,
    i: int,
)
    requires
        0 <= i < extra.len(),
        forall|j: int| i < j < extra.len() ==> extra[j].0 != extra[i].0,
        forall|j: int|
            i < j < extra.len() && (clear_all || names_ca_key(extra[j].0, ca_keys))
                ==> !text_eq_ignore_ascii_case(extra[i].0, extra[j].0),
        !answers_yes(f, extra[i].0),
    ensures
        inheritable(apply_entries(m, extra, clear_all, ca_keys), f).contains_key(extra[i].0),
        inheritable(apply_entries(m, extra, clear_all, ca_keys), f)[extra[i].0] == extra[i].1,
{
    lemma_apply_kept(m, extra, clear_all, ca_keys, i, extra.len() as int);
    assert(extra.take(extra.len() as int) =~= extra);
}

/// Entries leave a variable alone when none of them sets it and none that
/// clears matches it without regard to case.
proof fn lemma_apply_keep(
    m: Map<Seq<u8>, Seq<u8>>,
    entries: Seq<(Seq<u8>, Seq<u8>)>,
    clear_all: bool,
    ca_keys: Seq<&str>,
    k: Seq<u8>,
)
    requires
        m.contains_key(k),
        forall|i: int| 0 <= i < entries.len() ==> entries[i].0 != k,
        forall|i: int|
            0 <= i < entries.len() && (clear_all || names_ca_key(entries[i].0, ca_keys))
                ==> !text_eq_ignore_ascii_case(k, entries[i].0),
    ensures
        apply_entries(m, entries, clear_all, ca_keys).contains_key(k),
        apply_entries(m, entries, clear_all, ca_keys)[k] == m[k],
    decreases entries.len(),
{
    if entries.len() > 0 {
        lemma_apply_keep(m, entries.drop_last(), clear_all, ca_keys, k);
        assert(entries.last() == entries[entries.len() - 1]);
    }
}

/// A variable left after entries are applied has the value of the last
/// entry that sets it, or, when none does, the value it had before.
proof fn lemma_apply_value(
    m: Map<Seq<u8>, Seq<u8>>,
    entries: Seq<(Seq<u8>, Seq<u8>)>,
    clear_all: bool,
    ca_keys: Seq<&str>,
    k: Seq<u8>,
)
    requires
        apply_entries(m, entries, clear_all, ca_keys).contains_key(k),
    ensures
        sets(entries, k) ==> entries_map(entries).contains_key(k) && apply_entries(
            m,
            entries,
            clear_all,
            ca_keys,
        )[k] == entries_map(entries)[k],
        !sets(entries, k) ==> m.contains_key(k) && apply_entries(m, entries, clear_all, ca_keys)[k]
            == m[k],
    decreases entries.len(),
{
    if entries.len() > 0 {
        let dl = entries.drop_last();
        if entries.last().0 != k {
            lemma_apply_value(m, dl, clear_all, ca_keys, k);
            if sets(entries, k) {
                let i = choose|i: int| 0 <= i < entries.len() && entries[i].0 == k;
                assert(dl[i].0 == k);
            }
            if sets(dl, k) {
                let i = choose|i: int| 0 <= i < dl.len() && dl[i].0 == k;
                assert(entries[i].0 == k);
            }
        } else {
            assert(entries[entries.len() - 1].0 == k);
        }
    }
}

/// Every entry found for a list of names is set in the environment, with
/// the environment's value, under the bytes of one of the names.
proof fn lemma_found_entries(names: Seq<Seq<char>>, penv: Map<Seq<u8>, Seq<u8>>)
    ensures
        forall|i: int|
            0 <= i < found_entries(names, penv).len() ==> {
                let e = #[trigger] found_entries(names, penv)[i];
                &&& penv.contains_key(e.0)
                &&& e.1 == penv[e.0]
                &&& exists|j: int| 0 <= j < names.len() && encode_utf8(names[j]) == e.0
            },
    decreases names.len(),
{
    if names.len() > 0 {
        lemma_found_entries(names.drop_last(), penv);
        let prev = found_entries(names.drop_last(), penv);
        let fe = found_entries(names, penv);
        assert forall|i: int| 0 <= i < fe.len() implies {
            let e = #[trigger] fe[i];
            &&& penv.contains_key(e.0)
            &&& e.1 == penv[e.0]
            &&& exists|j: int| 0 <= j < names.len() && encode_utf8(names[j]) == e.0
        } by {
            if i < prev.len() {
                assert(fe[i] == prev[i]);
                let j = choose|j: int|
                    0 <= j < names.drop_last().len() && encode_utf8(names.drop_last()[j])
                        == prev[i].0;
                assert(names[j] == names.drop_last()[j]);
            } else {
                assert(encode_utf8(names[names.len() - 1]) == fe[i].0);
            }
        }
    }
}


/// A name is in the map of a list of entries whose entries for that name
/// all carry one value; the map holds that value.
proof fn lemma_entries_map_single_value(s: Seq<(Seq<u8>, Seq<u8>)>, k: Seq<u8>, v: Seq<u8>)
    requires
        entries_map(s).contains_key(k),
        forall|i: int| 0 <= i < s.len() && s[i].0 == k ==> s[i].1 == v,
    ensures
        entries_map(s)[k] == v,
    decreases s.len(),
{
    if s.len() > 0 && s.last().0 != k {
        lemma_entries_map_single_value(s.drop_last(), k, v);
    }
}


/// Every name of `overlay_names` is that of a configured variable not read
/// on the remote side.
proof fn lemma_overlay_names(vars: Seq<McpServerEnvVar>)
    ensures
        forall|j: int|
            0 <= j < overlay_names(vars).len() ==> exists|m: int|
                0 <= m < vars.len() && !vars[m].remote_source && vars[m].name@
                    == #[trigger] overlay_names(vars)[j],
    decreases vars.len(),
{
    if vars.len() > 0 {
        lemma_overlay_names(vars.drop_last());
        let prev = overlay_names(vars.drop_last());
        assert forall|j: int| 0 <= j < overlay_names(vars).len() implies exists|m: int|
            0 <= m < vars.len() && !vars[m].remote_source && vars[m].name@
                == #[trigger] overlay_names(vars)[j] by {
            if j < prev.len() {
                let m = choose|m: int|
                    0 <= m < vars.drop_last().len() && !vars.drop_last()[m].remote_source
                        && vars.drop_last()[m].name@ == prev[j];
                assert(vars[m] == vars.drop_last()[m]);
            } else {
                assert(vars[vars.len() - 1].name@ == overlay_names(vars)[j]);
            }
        }
    }
}


/// Every configured variable not read on the remote side has its name
/// among `overlay_names`.
proof fn lemma_overlay_names_complete(vars: Seq<McpServerEnvVar>, m: int)
    requires
        0 <= m < vars.len(),
        !vars[m].remote_source,
    ensures
        exists|j: int| 0 <= j < overlay_names(vars).len() && overlay_names(vars)[j] == vars[m].name@,
    decreases vars.len(),
{
    let prev = overlay_names(vars.drop_last());
    if m == vars.len() - 1 {
        assert(overlay_names(vars)[prev.len() as int] == vars[m].name@);
    } else {
        lemma_overlay_names_complete(vars.drop_last(), m);
        let j = choose|j: int| 0 <= j < prev.len() && prev[j] == vars.drop_last()[m].name@;
        assert(overlay_names(vars)[j] == prev[j]);
    }
}

/// A name of the list that the environment sets has an entry among those
/// found.
proof fn lemma_found_entries_complete(names: Seq<Seq<char>>, penv: Map<Seq<u8>, Seq<u8>>, j: int)
    requires
        0 <= j < names.len(),
        penv.contains_key(encode_utf8(names[j])),
    ensures
        exists|i: int|
            0 <= i < found_entries(names, penv).len() && found_entries(names, penv)[i].0
                == encode_utf8(names[j]),
    decreases names.len(),
{
    let prev = found_entries(names.drop_last(), penv);
    let fe = found_entries(names, penv);
    if j == names.len() - 1 {
        assert(fe[fe.len() - 1].0 == encode_utf8(names[j]));
    } else {
        lemma_found_entries_complete(names.drop_last(), penv, j);
        let i = choose|i: int| 0 <= i < prev.len() && prev[i].0 == encode_utf8(names.drop_last()[j]);
        assert(fe[i] == prev[i]);
    }
}


/// The variables that `entries_map(found_entries(names, penv))` holds: the
/// names that `penv` sets, with its values.
proof fn lemma_found_map(names: Seq<Seq<char>>, penv: Map<Seq<u8>, Seq<u8>>, k: Seq<u8>)
    ensures
        entries_map(found_entries(names, penv)).contains_key(k) ==> penv.contains_key(k)
            && entries_map(found_entries(names, penv))[k] == penv[k] && exists|j: int|
            0 <= j < names.len() && encode_utf8(names[j]) == k,
        (exists|j: int| 0 <= j < names.len() && encode_utf8(names[j]) == k) && penv.contains_key(k)
            ==> entries_map(found_entries(names, penv)).contains_key(k),
{
    let found = found_entries(names, penv);
    crate::byte_map::lemma_entries_map_domain(found, k);
    lemma_found_entries(names, penv);
    if entries_map(found).contains_key(k) {
        let i = choose|i: int| 0 <= i < found.len() && found[i].0 == k;
        assert(penv.contains_key(found[i].0));
        lemma_entries_map_single_value(found, k, penv[k]);
    }
    if (exists|j: int| 0 <= j < names.len() && encode_utf8(names[j]) == k) && penv.contains_key(k) {
        let j = choose|j: int| 0 <= j < names.len() && encode_utf8(names[j]) == k;
        lemma_found_entries_complete(names, penv, j);
    }
}

/// The environment of a local MCP server, whole. It holds no variable that
/// must never be inherited, and each of its variables is set by an
/// override (with the value of the last override that sets it), or else by
/// a certificate-authority entry (with that entry's value), or else is an
/// inherited variable (the defaults, under Termux its own variables, the
/// configured ones) that this process sets, with this process's value.
/// Conversely, an inherited variable that this process sets and that may be
/// inherited reaches the server with this process's value unless a
/// certificate-authority entry or an override sets it, or one that clears
/// matches it without regard to case.
pub proof fn law_local_environment<F: Fn(&[u8]) -> bool>(
    vars: Seq<McpServerEnvVar>,
    windows: Option<Seq<Seq<char>>>,
    running_on_termux: bool,
    penv: Map<Seq<u8>, Seq<u8>>,
    ca_entries: Seq<(Seq<u8>, Seq<u8>)>,
    extra: Seq<(Seq<u8>, Seq<u8>)>,
    ca_keys: Seq<&str>,
    f: F,
    k: Seq<u8>,
)
    ensures
        ({
            let env = local_environment(
                vars,
                windows,
                running_on_termux,
                penv,
                ca_entries,
                extra,
                ca_keys,
                f,
            );
            let names = local_read_names(vars, windows, running_on_termux, f);
            env.contains_key(k) ==> {
                &&& !answers_yes(f, k)
                &&& {
                    ||| sets(extra, k) && env[k] == entries_map(extra)[k]
                    ||| !sets(extra, k) && sets(ca_entries, k) && env[k] == entries_map(
                        ca_entries,
                    )[k]
                    ||| !sets(extra, k) && !sets(ca_entries, k) && (exists|j: int|
                        0 <= j < names.len() && encode_utf8(names[j]) == k) && penv.contains_key(k)
                        && env[k] == penv[k]
                }
            }
        }),
        ({
            let env = local_environment(
                vars,
                windows,
                running_on_termux,
                penv,
                ca_entries,
                extra,
                ca_keys,
                f,
            );
            let names = local_read_names(vars, windows, running_on_termux, f);
            ((exists|j: int| 0 <= j < names.len() && encode_utf8(names[j]) == k)
                && penv.contains_key(k) && !answers_yes(f, k) && (forall|i: int|
                0 <= i < ca_entries.len() ==> ca_entries[i].0 != k && (windows is Some
                    ==> !text_eq_ignore_ascii_case(k, ca_entries[i].0))) && (forall|i: int|
                0 <= i < extra.len() ==> extra[i].0 != k && (windows is Some || names_ca_key(
                    extra[i].0,
                    ca_keys,
                ) ==> !text_eq_ignore_ascii_case(k, extra[i].0)))) ==> env.contains_key(k)
                && env[k] == penv[k]
        }),
{
    let names = local_read_names(vars, windows, running_on_termux, f);
    let w = windows is Some;
    let none: Seq<&str> = Seq::empty();
    let base = entries_map(found_entries(names, penv));
    let with_ca = apply_entries(base, ca_entries, w, none);
    let all = apply_entries(with_ca, extra, w, ca_keys);
    lemma_found_map(names, penv, k);
    if all.contains_key(k) {
        lemma_apply_value(with_ca, extra, w, ca_keys, k);
        if !sets(extra, k) {
            lemma_apply_value(base, ca_entries, w, none, k);
        }
    }
    if (exists|j: int| 0 <= j < names.len() && encode_utf8(names[j]) == k) && penv.contains_key(k)
        && (forall|i: int|
        0 <= i < ca_entries.len() ==> ca_entries[i].0 != k && (w ==> !text_eq_ignore_ascii_case(
            k,
            ca_entries[i].0,
        ))) && (forall|i: int|
        0 <= i < extra.len() ==> extra[i].0 != k && (w || names_ca_key(extra[i].0, ca_keys)
            ==> !text_eq_ignore_ascii_case(k, extra[i].0))) {
        assert forall|i: int|
            0 <= i < ca_entries.len() && (w || names_ca_key(ca_entries[i].0, none))
                implies !text_eq_ignore_ascii_case(k, ca_entries[i].0) by {
            if !w {
                assert(!names_ca_key(ca_entries[i].0, none));
            }
        }
        lemma_apply_keep(base, ca_entries, w, none, k);
        lemma_apply_keep(with_ca, extra, w, ca_keys, k);
    }
}

/// What a remote MCP server gets from this process, whole. It holds no
/// variable that must never be inherited, and each of its variables is set
/// by an override (with the value of the last override that sets it), or
/// else is a configured variable not read on the remote side that this
/// process sets, with this process's value; in particular no default
/// variable is forwarded unless configured. Conversely, every override and
/// every such configured variable that this process sets reaches it, when
/// it may be inherited.
pub proof fn law_remote_overlay<F: Fn(&[u8]) -> bool>(
    vars: Seq<McpServerEnvVar>,
    penv: Map<Seq<u8>, Seq<u8>>,
    extra: Seq<(Seq<u8>, Seq<u8>)>,
    f: F,
    k: Seq<u8>,
)
    ensures
        overlay_environment(vars, penv, extra, f).contains_key(k) ==> {
            &&& !answers_yes(f, k)
            &&& {
                ||| sets(extra, k) && overlay_environment(vars, penv, extra, f)[k] == entries_map(
                    extra,
                )[k]
                ||| !sets(extra, k) && (exists|m: int|
                    0 <= m < vars.len() && !vars[m].remote_source && name_bytes(vars[m]) == k)
                    && penv.contains_key(k) && overlay_environment(vars, penv, extra, f)[k]
                    == penv[k]
            }
        },
        sets(extra, k) && !answers_yes(f, k) ==> overlay_environment(
            vars,
            penv,
            extra,
            f,
        ).contains_key(k) && overlay_environment(vars, penv, extra, f)[k] == entries_map(extra)[k],
        (exists|m: int| 0 <= m < vars.len() && !vars[m].remote_source && name_bytes(vars[m]) == k)
            && penv.contains_key(k) && !answers_yes(f, k) ==> overlay_environment(
            vars,
            penv,
            extra,
            f,
        ).contains_key(k),
{
    let names = overlay_names(vars);
    let found = found_entries(names, penv);
    crate::byte_map::lemma_entries_map_concat(found, extra);
    crate::byte_map::lemma_entries_map_domain(extra, k);
    lemma_found_map(names, penv, k);
    if entries_map(found).contains_key(k) {
        let j = choose|j: int| 0 <= j < names.len() && encode_utf8(names[j]) == k;
        lemma_overlay_names(vars);
        let m = choose|m: int| 0 <= m < vars.len() && !vars[m].remote_source && vars[m].name@ == names[j];
        assert(name_bytes(vars[m]) == k);
    }
    if exists|m: int| 0 <= m < vars.len() && !vars[m].remote_source && name_bytes(vars[m]) == k {
        let m = choose|m: int| 0 <= m < vars.len() && !vars[m].remote_source && name_bytes(vars[m]) == k;
        lemma_overlay_names_complete(vars, m);
    }
}

fn insert_all(env: &mut ByteMap, entries: &Vec<(Vec<u8>, Vec<u8>)>)
    ensures
        final(env)@ == old(env)@.union_prefer_right(entries_map(entry_views(entries@))),
{
    let ghost start = env@;
    let ghost s = entry_views(entries@);
    let n = entries.len();
    assert(s.take(0) =~= Seq::<(Seq<u8>, Seq<u8>)>::empty());
    assert(start.union_prefer_right(entries_map(s.take(0))) =~= start);
    for i in 0..n
        invariant
            n == entries@.len(),
            s == entry_views(entries@),
            env@ == start.union_prefer_right(entries_map(s.take(i as int))),
    {
        let ghost t = s.take(i + 1);
        assert(t.drop_last() =~= s.take(i as int));
        assert(t.last() == s[i as int]);
        env.insert(copy_bytes(entries[i].0.as_slice()), copy_bytes(entries[i].1.as_slice()));
        assert(env@ =~= start.union_prefer_right(entries_map(t)));
    }
    assert(s.take(n as int) =~= s);
}


/// Applies `entries` in order, as `apply_entries` says.
fn apply_all(
    env: &mut ByteMap,
    entries: &Vec<(Vec<u8>, Vec<u8>)>,
    clear_all: bool,
    ca_keys: &[&str],
)
    ensures
        final(env)@ == apply_entries(old(env)@, entry_views(entries@), clear_all, ca_keys@),
{
    let ghost base = env@;
    let ghost s = entry_views(entries@);
    let n = entries.len();
    assert(s.take(0) =~= Seq::<(Seq<u8>, Seq<u8>)>::empty());
    for i in 0..n
        invariant
            n == entries@.len(),
            s == entry_views(entries@),
            env@ == apply_entries(base, s.take(i as int), clear_all, ca_keys@),
    {
        let ghost t = s.take(i + 1);
        assert(t.drop_last() =~= s.take(i as int));
        assert(t.last() == s[i as int]);
        let name = entries[i].0.as_slice();
        if clear_all || is_ca_key(name, ca_keys) {
            env.remove_ignore_ascii_case(name);
        }
        env.insert(copy_bytes(name), copy_bytes(entries[i].1.as_slice()));
    }
    assert(s.take(n as int) =~= s);
}

fn is_ca_key(k: &[u8], ca_keys: &[&str]) -> (r: bool)
    ensures
        r == names_ca_key(k@, ca_keys@),
{
    let n = ca_keys.len();
    for i in 0..n
        invariant
            n == ca_keys@.len(),
            forall|j: int| 0 <= j < i ==> !eq_ignore_ascii_case(k@, encode_utf8(ca_keys@[j]@)),
    {
        if bytes_eq_ignore_ascii_case(k, ca_keys[i].as_bytes()) {
            return true;
        }
    }
    false
}


/// What a remote MCP server gets, built from the variables already found
/// and the overrides.
fn overlay_from<F: Fn(&[u8]) -> bool>(
    found: Vec<(Vec<u8>, Vec<u8>)>,
    extra_env: Option<Vec<(Vec<u8>, Vec<u8>)>>,
    is_non_inheritable: &F,
) -> (r: ByteMap)
    requires
        consistent(*is_non_inheritable),
    ensures
        r@ == inheritable(
            entries_map(entry_views(found@) + optional_entries(extra_env)),
            *is_non_inheritable,
        ),
{
    let extra = match extra_env {
        Some(e) => e,
        None => Vec::new(),
    };
    assert(entry_views(extra@) =~= optional_entries(extra_env));
    let mut env = ByteMap::new();
    insert_all(&mut env, &found);
    insert_all(&mut env, &extra);
    proof {
        crate::byte_map::lemma_entries_map_concat(entry_views(found@), entry_views(extra@));
    }
    assert(env@ =~= entries_map(entry_views(found@) + optional_entries(extra_env)));
    env.remove_where(is_non_inheritable);
    env
}


/// The certificate-authority variables that `penv` sets to a value that is
/// not empty, in the order of `ca_keys`.
pub open spec fn ca_candidates(ca_keys: Seq<&str>, penv: Map<Seq<u8>, Seq<u8>>) -> Seq<
    (Seq<u8>, Seq<u8>),
>
    decreases ca_keys.len(),
{
    if ca_keys.len() == 0 {
        Seq::empty()
    } else {
        let prev = ca_candidates(ca_keys.drop_last(), penv);
        let k = encode_utf8(ca_keys.last()@);
        if penv.contains_key(k) && penv[k].len() > 0 {
            prev.push((k, penv[k]))
        } else {
            prev
        }
    }
}

fn read_found(names: &Vec<String>, process_env: &ByteMap) -> (r: Vec<(Vec<u8>, Vec<u8>)>)
    ensures
        entry_views(r@) == found_entries(string_views(names@), process_env@),
{
    let mut r: Vec<(Vec<u8>, Vec<u8>)> = Vec::new();
    let n = names.len();
    let ghost w = string_views(names@);
    assert(w.take(0) =~= Seq::<Seq<char>>::empty());
    assert(entry_views(r@) =~= Seq::<(Seq<u8>, Seq<u8>)>::empty());
    for i in 0..n
        invariant
            n == names@.len(),
            w == string_views(names@),
            entry_views(r@) == found_entries(w.take(i as int), process_env@),
    {
        let ghost t = w.take(i + 1);
        assert(t.drop_last() =~= w.take(i as int));
        assert(t.last() == names@[i as int]@);
        let key = names[i].as_str().as_bytes();
        match process_env.get(key) {
            Some(v) => {
                let ghost before = entry_views(r@);
                r.push((copy_bytes(key), copy_bytes(v.as_slice())));
                assert(entry_views(r@) =~= before.push((key@, v@)));
            },
            None => {},
        }
    }
    assert(w.take(n as int) =~= w);
    r
}

/// Returns the certificate-authority variables that `process_env` sets to
/// a value that is not empty, with their values, in the order of
/// `ca_keys`: the paths that are to be made absolute for a local MCP
/// server.
pub fn certificate_variables(ca_keys: &[&str], process_env: &ByteMap) -> (r: Vec<(Vec<u8>, Vec<u8>)>)
    ensures
        entry_views(r@) == ca_candidates(ca_keys@, process_env@),
{
    let mut r: Vec<(Vec<u8>, Vec<u8>)> = Vec::new();
    let n = ca_keys.len();
    assert(ca_keys@.take(0) =~= Seq::<&str>::empty());
    assert(entry_views(r@) =~= Seq::<(Seq<u8>, Seq<u8>)>::empty());
    for i in 0..n
        invariant
            n == ca_keys@.len(),
            entry_views(r@) == ca_candidates(ca_keys@.take(i as int), process_env@),
    {
        let ghost t = ca_keys@.take(i + 1);
        assert(t.drop_last() =~= ca_keys@.take(i as int));
        assert(t.last() == ca_keys@[i as int]);
        let key = ca_keys[i].as_bytes();
        match process_env.get(key) {
            Some(v) => {
                if v.len() > 0 {
                    let ghost before = entry_views(r@);
                    r.push((copy_bytes(key), copy_bytes(v.as_slice())));
                    assert(entry_views(r@) =~= before.push((key@, v@)));
                }
            },
            None => {},
        }
    }
    assert(ca_keys@.take(n as int) =~= ca_keys@);
    r
}


/// Returns the environment of a local MCP server, reading from
/// `process_env`, the environment of this process, as `local_environment`
/// says: the defaults (on Windows, `windows_core_env_vars`), then under
/// Termux its own variables, then the configured variables that may be
/// inherited, each that is set; then the certificate-authority variables
/// (`ca_entries`: those of `certificate_variables`, their values made
/// absolute); then the configured overrides; without the variables that
/// must never be inherited. Fails on the first configured variable that is
/// to be read on the remote side.
pub fn create_env_for_mcp_server<F: Fn(&[u8]) -> bool>(
    extra_env: Option<Vec<(Vec<u8>, Vec<u8>)>>,
    env_vars: &[McpServerEnvVar],
    running_on_termux: bool,
    windows_core_env_vars: Option<&[&str]>,
    process_env: &ByteMap,
    ca_entries: Vec<(Vec<u8>, Vec<u8>)>,
    ca_keys: &[&str],
    is_non_inheritable: &F,
) -> (r: Result<ByteMap, McpEnvError>)
    requires
        consistent(*is_non_inheritable),
    ensures
        match r {
            Ok(env) => all_local(env_vars@) && env@ == local_environment(
                env_vars@,
                opt_str_views(windows_core_env_vars),
                running_on_termux,
                process_env@,
                entry_views(ca_entries@),
                optional_entries(extra_env),
                ca_keys@,
                *is_non_inheritable,
            ),
            Err(McpEnvError::RemoteSourceRequiresRemoteStdio { name }) => exists|i: int|
                is_first_remote(env_vars@, i) && name@ == env_vars@[i].name@,
        },
{
    let names = match env_var_names_to_read(
        env_vars,
        running_on_termux,
        windows_core_env_vars,
        is_non_inheritable,
    ) {
        Ok(names) => names,
        Err(e) => {
            return Err(e);
        },
    };
    let found = read_found(&names, process_env);
    let windows = windows_core_env_vars.is_some();
    let mut env = ByteMap::new();
    insert_all(&mut env, &found);
    assert(env@ =~= entries_map(
        found_entries(
            local_read_names(
                env_vars@,
                opt_str_views(windows_core_env_vars),
                running_on_termux,
                *is_non_inheritable,
            ),
            process_env@,
        ),
    ));
    let no_keys: &[&str] = &[];
    assert(no_keys@ =~= Seq::<&str>::empty());
    apply_all(&mut env, &ca_entries, windows, no_keys);
    let extra = match extra_env {
        Some(e) => e,
        None => Vec::new(),
    };
    assert(entry_views(extra@) =~= optional_entries(extra_env));
    apply_all(&mut env, &extra, windows, ca_keys);
    env.remove_where(is_non_inheritable);
    Ok(env)
}

/// Returns what a remote MCP server gets from this process on top of the
/// remote side's own environment, reading from `process_env`, the
/// environment of this process, as `overlay_environment` says: the
/// configured variables not read on the remote side that are set, then the
/// configured overrides, without the variables that must never be
/// inherited.
pub fn create_env_overlay_for_remote_mcp_server<F: Fn(&[u8]) -> bool>(
    extra_env: Option<Vec<(Vec<u8>, Vec<u8>)>>,
    env_vars: &[McpServerEnvVar],
    process_env: &ByteMap,
    is_non_inheritable: &F,
) -> (r: ByteMap)
    requires
        consistent(*is_non_inheritable),
    ensures
        r@ == overlay_environment(
            env_vars@,
            process_env@,
            optional_entries(extra_env),
            *is_non_inheritable,
        ),
{
    let names = remote_overlay_env_var_names(env_vars);
    let found = read_found(&names, process_env);
    overlay_from(found, extra_env, is_non_inheritable)
}

/// Filtering keeps exactly the elements that satisfy the predicate.
proof fn lemma_filter_members<A>(s: Seq<A>, p: spec_fn(A) -> bool)
    ensures
        forall|m: int| 0 <= m < s.len() && p(s[m]) ==> s.filter(p).contains(#[trigger] s[m]),
        forall|j: int|
            0 <= j < s.filter(p).len() ==> p(#[trigger] s.filter(p)[j]) && s.contains(
                s.filter(p)[j],
            ),
    decreases s.len(),
{
    reveal(Seq::filter);
    if s.len() > 0 {
        let d = s.drop_last();
        lemma_filter_members(d, p);
        let fd = d.filter(p);
        let fs = s.filter(p);
        assert forall|m: int| 0 <= m < s.len() && p(s[m]) implies fs.contains(#[trigger] s[m]) by {
            if m == s.len() - 1 {
                assert(fs[fs.len() - 1] == s[m]);
            } else {
                assert(d[m] == s[m]);
                assert(fd.contains(d[m]));
                let j = choose|j: int| 0 <= j < fd.len() && fd[j] == d[m];
                assert(fs[j] == fd[j]);
            }
        }
        assert forall|j: int| 0 <= j < fs.len() implies p(#[trigger] fs[j]) && s.contains(fs[j]) by {
            if j < fd.len() {
                assert(fs[j] == fd[j]);
                assert(p(fd[j]) && d.contains(fd[j]));
                let i = choose|i: int| 0 <= i < d.len() && d[i] == fd[j];
                assert(s[i] == d[i]);
            } else {
                assert(fs[j] == s.last());
                assert(s[s.len() - 1] == s.last());
            }
        }
    }
}

/// Mapping keeps an element's image, and every image comes from an
/// element.
proof fn lemma_map_members<A, B>(s: Seq<A>, g: spec_fn(A) -> B)
    ensures
        forall|x: A| s.contains(x) ==> s.map_values(g).contains(#[trigger] g(x)),
        forall|j: int|
            0 <= j < s.map_values(g).len() ==> s.contains(s[j]) && #[trigger] s.map_values(g)[j]
                == g(s[j]),
{
    assert forall|x: A| s.contains(x) implies s.map_values(g).contains(#[trigger] g(x)) by {
        let i = choose|i: int| 0 <= i < s.len() && s[i] == x;
        assert(s.map_values(g)[i] == g(x));
    }
    assert forall|j: int| 0 <= j < s.map_values(g).len() implies s.contains(s[j]) && #[trigger] s.map_values(g)[j]
        == g(s[j]) by {
        assert(s[j] == s[j]);
    }
}

/// A configured variable read on the remote side that may be inherited.
pub open spec fn remote_and_inheritable<F: Fn(&[u8]) -> bool>(f: F) -> spec_fn(McpServerEnvVar) -> bool {
    |v: McpServerEnvVar| v.remote_source && !answers_yes(f, name_bytes(v))
}

/// A configured variable read in this process that may be inherited.
pub open spec fn local_and_inheritable<F: Fn(&[u8]) -> bool>(f: F) -> spec_fn(McpServerEnvVar) -> bool {
    |v: McpServerEnvVar| !v.remote_source && !answers_yes(f, name_bytes(v))
}

/// A configured variable read in this process.
pub open spec fn read_locally() -> spec_fn(McpServerEnvVar) -> bool {
    |v: McpServerEnvVar| !v.remote_source
}

/// The name of a configured variable.
pub open spec fn var_name() -> spec_fn(McpServerEnvVar) -> Seq<char> {
    |v: McpServerEnvVar| v.name@
}

proof fn lemma_remote_names_filter<F: Fn(&[u8]) -> bool>(vars: Seq<McpServerEnvVar>, f: F)
    ensures
        remote_names(vars, f) == vars.filter(remote_and_inheritable(f)).map_values(var_name()),
    decreases vars.len(),
{
    reveal(Seq::filter);
    if vars.len() > 0 {
        lemma_remote_names_filter(vars.drop_last(), f);
        let fd = vars.drop_last().filter(remote_and_inheritable(f));
        if remote_and_inheritable(f)(vars.last()) {
            assert(fd.push(vars.last()).map_values(var_name()) =~= fd.map_values(var_name()).push(
                vars.last().name@,
            ));
        }
    } else {
        assert(vars.filter(remote_and_inheritable(f)).map_values(var_name()) =~= Seq::<
            Seq<char>,
        >::empty());
    }
}

proof fn lemma_local_names_filter<F: Fn(&[u8]) -> bool>(vars: Seq<McpServerEnvVar>, f: F)
    ensures
        local_names(vars, f) == vars.filter(local_and_inheritable(f)).map_values(var_name()),
    decreases vars.len(),
{
    reveal(Seq::filter);
    if vars.len() > 0 {
        lemma_local_names_filter(vars.drop_last(), f);
        let fd = vars.drop_last().filter(local_and_inheritable(f));
        if local_and_inheritable(f)(vars.last()) {
            assert(fd.push(vars.last()).map_values(var_name()) =~= fd.map_values(var_name()).push(
                vars.last().name@,
            ));
        }
    } else {
        assert(vars.filter(local_and_inheritable(f)).map_values(var_name()) =~= Seq::<
            Seq<char>,
        >::empty());
    }
}

proof fn lemma_overlay_names_filter(vars: Seq<McpServerEnvVar>)
    ensures
        overlay_names(vars) == vars.filter(read_locally()).map_values(var_name()),
    decreases vars.len(),
{
    reveal(Seq::filter);
    if vars.len() > 0 {
        lemma_overlay_names_filter(vars.drop_last());
        let fd = vars.drop_last().filter(read_locally());
        if read_locally()(vars.last()) {
            assert(fd.push(vars.last()).map_values(var_name()) =~= fd.map_values(var_name()).push(
                vars.last().name@,
            ));
        }
    } else {
        assert(vars.filter(read_locally()).map_values(var_name()) =~= Seq::<Seq<char>>::empty());
    }
}

/// Every name of `o` is that of a configured variable that satisfies `p`.
pub open spec fn only_names_of(
    o: Seq<Seq<char>>,
    vars: Seq<McpServerEnvVar>,
    p: spec_fn(McpServerEnvVar) -> bool,
) -> bool {
    forall|x: Seq<char>|
        #[trigger] o.contains(x) ==> exists|m: int|
            0 <= m < vars.len() && #[trigger] p(vars[m]) && vars[m].name@ == x
}

/// Every configured variable that satisfies `p` has its name in `o`.
pub open spec fn all_names_of(
    o: Seq<Seq<char>>,
    vars: Seq<McpServerEnvVar>,
    p: spec_fn(McpServerEnvVar) -> bool,
) -> bool {
    forall|m: int| 0 <= m < vars.len() && p(vars[m]) ==> o.contains(#[trigger] vars[m].name@)
}

/// The names of the variables that satisfy `p`, in order, hold the name of
/// every such variable and only names of such variables.
proof fn lemma_selected_names(vars: Seq<McpServerEnvVar>, p: spec_fn(McpServerEnvVar) -> bool)
    ensures
        all_names_of(vars.filter(p).map_values(var_name()), vars, p),
        only_names_of(vars.filter(p).map_values(var_name()), vars, p),
{
    lemma_filter_members(vars, p);
    lemma_map_members(vars.filter(p), var_name());
    assert forall|m: int| 0 <= m < vars.len() && p(vars[m]) implies vars.filter(p).map_values(var_name()).contains(
        #[trigger] vars[m].name@,
    ) by {
        assert(vars.filter(p).contains(vars[m]));
        assert(var_name()(vars[m]) == vars[m].name@);
    }
    assert forall|x: Seq<char>| #[trigger] vars.filter(p).map_values(var_name()).contains(x) implies exists|m: int|
        0 <= m < vars.len() && #[trigger] p(vars[m]) && vars[m].name@ == x by {
        let o = vars.filter(p).map_values(var_name());
        let j = choose|j: int| 0 <= j < o.len() && o[j] == x;
        let y = vars.filter(p)[j];
        assert(p(y) && vars.contains(y));
        let m = choose|m: int| 0 <= m < vars.len() && vars[m] == y;
        assert(o[j] == y.name@);
        assert(0 <= m < vars.len() && p(vars[m]) && vars[m].name@ == x);
    }
}

/// The names that a remote MCP server reads on its own side are the
/// configured variables with a remote source that may be inherited, each
/// of them, only those, in the configured order.
pub proof fn law_remote_names<F: Fn(&[u8]) -> bool>(vars: Seq<McpServerEnvVar>, f: F)
    ensures
        remote_names(vars, f) == vars.filter(remote_and_inheritable(f)).map_values(var_name()),
        all_names_of(remote_names(vars, f), vars, remote_and_inheritable(f)),
        only_names_of(remote_names(vars, f), vars, remote_and_inheritable(f)),
{
    lemma_remote_names_filter(vars, f);
    lemma_selected_names(vars, remote_and_inheritable(f));
}

/// The configured names that a local MCP server reads are the variables
/// read in this process that may be inherited, each of them, only those,
/// in the configured order.
pub proof fn law_local_names<F: Fn(&[u8]) -> bool>(vars: Seq<McpServerEnvVar>, f: F)
    ensures
        local_names(vars, f) == vars.filter(local_and_inheritable(f)).map_values(var_name()),
        all_names_of(local_names(vars, f), vars, local_and_inheritable(f)),
        only_names_of(local_names(vars, f), vars, local_and_inheritable(f)),
{
    lemma_local_names_filter(vars, f);
    lemma_selected_names(vars, local_and_inheritable(f));
}

/// The configured names read for a remote MCP server's overlay are the
/// variables not read on the remote side, each of them, only those, in the
/// configured order.
pub proof fn law_overlay_names(vars: Seq<McpServerEnvVar>)
    ensures
        overlay_names(vars) == vars.filter(read_locally()).map_values(var_name()),
        all_names_of(overlay_names(vars), vars, read_locally()),
        only_names_of(overlay_names(vars), vars, read_locally()),
{
    lemma_overlay_names_filter(vars);
    lemma_selected_names(vars, read_locally());
}

/// A certificate-authority key that `penv` sets to a non-empty value.
pub open spec fn set_to_a_value<'a>(penv: Map<Seq<u8>, Seq<u8>>) -> spec_fn(&'a str) -> bool {
    |k: &'a str| penv.contains_key(encode_utf8(k@)) && penv[encode_utf8(k@)].len() > 0
}

/// A certificate-authority key with its value in `penv`.
pub open spec fn with_value<'a>(penv: Map<Seq<u8>, Seq<u8>>) -> spec_fn(&'a str) -> (Seq<u8>, Seq<u8>) {
    |k: &'a str| (encode_utf8(k@), penv[encode_utf8(k@)])
}

proof fn lemma_ca_candidates_filter(ca_keys: Seq<&str>, penv: Map<Seq<u8>, Seq<u8>>)
    ensures
        ca_candidates(ca_keys, penv) == ca_keys.filter(set_to_a_value(penv)).map_values(
            with_value(penv),
        ),
    decreases ca_keys.len(),
{
    reveal(Seq::filter);
    if ca_keys.len() > 0 {
        lemma_ca_candidates_filter(ca_keys.drop_last(), penv);
        let fd = ca_keys.drop_last().filter(set_to_a_value(penv));
        if set_to_a_value(penv)(ca_keys.last()) {
            assert(fd.push(ca_keys.last()).map_values(with_value(penv)) =~= fd.map_values(
                with_value(penv),
            ).push(with_value(penv)(ca_keys.last())));
        }
    } else {
        assert(ca_keys.filter(set_to_a_value(penv)).map_values(with_value(penv)) =~= Seq::<
            (Seq<u8>, Seq<u8>),
        >::empty());
    }
}

/// The certificate-authority variables to be made absolute are, in the
/// order of the keys, every key that the environment sets to a non-empty
/// value, with that value, and nothing else; whether one key is taken does
/// not depend on the others.
pub proof fn law_certificate_variables(ca_keys: Seq<&str>, penv: Map<Seq<u8>, Seq<u8>>)
    ensures
        ca_candidates(ca_keys, penv) == ca_keys.filter(set_to_a_value(penv)).map_values(
            with_value(penv),
        ),
        forall|i: int|
            0 <= i < ca_keys.len() && penv.contains_key(encode_utf8(ca_keys[i]@)) && penv[encode_utf8(
                ca_keys[i]@,
            )].len() > 0 ==> ca_candidates(ca_keys, penv).contains(
                (encode_utf8(#[trigger] ca_keys[i]@), penv[encode_utf8(ca_keys[i]@)]),
            ),
        forall|e: (Seq<u8>, Seq<u8>)|
            #[trigger] ca_candidates(ca_keys, penv).contains(e) ==> exists|i: int|
                0 <= i < ca_keys.len() && penv.contains_key(encode_utf8(#[trigger] ca_keys[i]@))
                    && penv[encode_utf8(ca_keys[i]@)].len() > 0 && e == (
                    encode_utf8(ca_keys[i]@),
                    penv[encode_utf8(ca_keys[i]@)],
                ),
{
    lemma_ca_candidates_filter(ca_keys, penv);
    let p = set_to_a_value(penv);
    let g = with_value(penv);
    lemma_filter_members(ca_keys, p);
    lemma_map_members(ca_keys.filter(p), g);
    assert forall|i: int|
        0 <= i < ca_keys.len() && penv.contains_key(encode_utf8(ca_keys[i]@)) && penv[encode_utf8(
            ca_keys[i]@,
        )].len() > 0 implies ca_candidates(ca_keys, penv).contains(
        (encode_utf8(#[trigger] ca_keys[i]@), penv[encode_utf8(ca_keys[i]@)]),
    ) by {
        assert(p(ca_keys[i]));
        assert(ca_keys.filter(p).contains(ca_keys[i]));
        assert(g(ca_keys[i]) == (encode_utf8(ca_keys[i]@), penv[encode_utf8(ca_keys[i]@)]));
    }
    assert forall|e: (Seq<u8>, Seq<u8>)| #[trigger] ca_candidates(ca_keys, penv).contains(e) implies exists|i: int|
        0 <= i < ca_keys.len() && penv.contains_key(encode_utf8(#[trigger] ca_keys[i]@))
            && penv[encode_utf8(ca_keys[i]@)].len() > 0 && e == (
            encode_utf8(ca_keys[i]@),
            penv[encode_utf8(ca_keys[i]@)],
        ) by {
        let j = choose|j: int| 0 <= j < ca_candidates(ca_keys, penv).len() && ca_candidates(ca_keys, penv)[j] == e;
        let x = ca_keys.filter(p)[j];
        assert(p(x) && ca_keys.contains(x));
        let i = choose|i: int| 0 <= i < ca_keys.len() && ca_keys[i] == x;
        assert(ca_candidates(ca_keys, penv)[j] == g(x));
        assert(0 <= i < ca_keys.len() && penv.contains_key(encode_utf8(ca_keys[i]@))
            && penv[encode_utf8(ca_keys[i]@)].len() > 0 && e == (
            encode_utf8(ca_keys[i]@),
            penv[encode_utf8(ca_keys[i]@)],
        ));
    }
}

/// A name that the environment sets.
pub open spec fn is_set(penv: Map<Seq<u8>, Seq<u8>>) -> spec_fn(Seq<char>) -> bool {
    |n: Seq<char>| penv.contains_key(encode_utf8(n))
}

/// A name with its value in the environment.
pub open spec fn name_with_value(penv: Map<Seq<u8>, Seq<u8>>) -> spec_fn(Seq<char>) -> (
    Seq<u8>,
    Seq<u8>,
) {
    |n: Seq<char>| (encode_utf8(n), penv[encode_utf8(n)])
}

proof fn lemma_found_entries_filter(names: Seq<Seq<char>>, penv: Map<Seq<u8>, Seq<u8>>)
    ensures
        found_entries(names, penv) == names.filter(is_set(penv)).map_values(name_with_value(penv)),
    decreases names.len(),
{
    reveal(Seq::filter);
    if names.len() > 0 {
        lemma_found_entries_filter(names.drop_last(), penv);
        let fd = names.drop_last().filter(is_set(penv));
        if is_set(penv)(names.last()) {
            assert(fd.push(names.last()).map_values(name_with_value(penv)) =~= fd.map_values(
                name_with_value(penv),
            ).push(name_with_value(penv)(names.last())));
        }
    } else {
        assert(names.filter(is_set(penv)).map_values(name_with_value(penv)) =~= Seq::<
            (Seq<u8>, Seq<u8>),
        >::empty());
    }
}

/// What is read from the environment for a list of names is, in the order
/// of the names, every name that the environment sets, with its value, and
/// nothing else.
pub proof fn law_found_entries(names: Seq<Seq<char>>, penv: Map<Seq<u8>, Seq<u8>>)
    ensures
        found_entries(names, penv) == names.filter(is_set(penv)).map_values(name_with_value(penv)),
        forall|i: int|
            0 <= i < names.len() && penv.contains_key(encode_utf8(names[i]))
                ==> found_entries(names, penv).contains(
                (encode_utf8(#[trigger] names[i]), penv[encode_utf8(names[i])]),
            ),
        forall|e: (Seq<u8>, Seq<u8>)|
            #[trigger] found_entries(names, penv).contains(e) ==> exists|i: int|
                0 <= i < names.len() && penv.contains_key(encode_utf8(#[trigger] names[i])) && e == (
                    encode_utf8(names[i]),
                    penv[encode_utf8(names[i])],
                ),
{
    lemma_found_entries_filter(names, penv);
    let p = is_set(penv);
    let g = name_with_value(penv);
    lemma_filter_members(names, p);
    lemma_map_members(names.filter(p), g);
    assert forall|i: int| 0 <= i < names.len() && penv.contains_key(encode_utf8(names[i])) implies found_entries(
        names,
        penv,
    ).contains((encode_utf8(#[trigger] names[i]), penv[encode_utf8(names[i])])) by {
        assert(p(names[i]));
        assert(names.filter(p).contains(names[i]));
        assert(g(names[i]) == (encode_utf8(names[i]), penv[encode_utf8(names[i])]));
    }
    assert forall|e: (Seq<u8>, Seq<u8>)| #[trigger] found_entries(names, penv).contains(e) implies exists|i: int|
        0 <= i < names.len() && penv.contains_key(encode_utf8(#[trigger] names[i])) && e == (
            encode_utf8(names[i]),
            penv[encode_utf8(names[i])],
        ) by {
        let j = choose|j: int| 0 <= j < found_entries(names, penv).len() && found_entries(names, penv)[j] == e;
        let x = names.filter(p)[j];
        assert(p(x) && names.contains(x));
        let i = choose|i: int| 0 <= i < names.len() && names[i] == x;
        assert(found_entries(names, penv)[j] == g(x));
        assert(0 <= i < names.len() && penv.contains_key(encode_utf8(names[i])) && e == (
            encode_utf8(names[i]),
            penv[encode_utf8(names[i])],
        ));
    }
}

} // verus!
