use codex_termux::byte_map::ByteMap;
use codex_termux::mcp_env::create_env_for_mcp_server;
use codex_termux::mcp_env::create_env_overlay_for_remote_mcp_server;
use codex_termux::mcp_env::default_env_var_names;
use codex_termux::mcp_env::env_var_names_to_read;
use codex_termux::mcp_env::local_stdio_env_var_names;
use codex_termux::mcp_env::remote_mcp_env_var_names;
use codex_termux::mcp_env::certificate_variables;
use codex_termux::mcp_env::remote_overlay_env_var_names;
use codex_termux::mcp_env::McpEnvError;
use codex_termux::mcp_env::McpServerEnvVar;
use std::collections::HashMap;

/// Stands in for the variables that must never reach a server.
fn non_inheritable(name: &[u8]) -> bool {
    name.eq_ignore_ascii_case(b"openai_identity_token_file")
        || name.eq_ignore_ascii_case(b"OpenAI_Federation_Rule_Id")
}

const CA_KEYS: &[&str] = &["SSL_CERT_FILE", "CODEX_CA_CERTIFICATE"];

fn var(name: &str) -> McpServerEnvVar {
    McpServerEnvVar { name: name.to_string(), remote_source: false }
}

fn config_var(name: &str, source: Option<&str>) -> McpServerEnvVar {
    McpServerEnvVar { name: name.to_string(), remote_source: source == Some("remote") }
}

/// A process environment holding the given variables.
fn process_env(vars: &[(&str, &[u8])]) -> ByteMap {
    let mut m = ByteMap::new();
    for (k, v) in vars {
        m.insert(k.as_bytes().to_vec(), v.to_vec());
    }
    m
}

fn pairs(items: &[(&str, &str)]) -> Vec<(Vec<u8>, Vec<u8>)> {
    items.iter().map(|(k, v)| (k.as_bytes().to_vec(), v.as_bytes().to_vec())).collect()
}

fn local_env(
    vars: &[(&str, &[u8])],
    extra: Option<Vec<(Vec<u8>, Vec<u8>)>>,
    env_vars: &[McpServerEnvVar],
    termux: bool,
) -> Result<ByteMap, McpEnvError> {
    create_env_for_mcp_server(
        extra,
        env_vars,
        termux,
        None,
        &process_env(vars),
        Vec::new(),
        CA_KEYS,
        &non_inheritable,
    )
}

fn as_hash_map(env: ByteMap) -> HashMap<Vec<u8>, Vec<u8>> {
    env.into_entries().into_iter().collect()
}

#[test]
fn create_env_honors_overrides() {
    let env = local_env(
        &[("TZ", b"UTC")],
        Some(pairs(&[("TZ", "custom"), ("openai_identity_token_file", "/run/identity-token")])),
        &[],
        false,
    )
    .ok()
    .expect("local MCP env should build");
    assert_eq!(env.get(b"TZ"), Some(&b"custom".to_vec()));
    assert_eq!(env.get(b"openai_identity_token_file"), None);
}

#[test]
fn create_env_includes_additional_whitelisted_variables() {
    let env = local_env(&[("EXTRA_RMCP_ENV", b"from-env")], None, &[var("EXTRA_RMCP_ENV")], false)
        .ok()
        .expect("local MCP env should build");
    assert_eq!(env.get(b"EXTRA_RMCP_ENV"), Some(&b"from-env".to_vec()));
}

#[test]
fn create_remote_env_overlay_only_forwards_explicit_variables() {
    let default_var = default_env_var_names()[0];
    let penv = process_env(&[(default_var, b"from-default"), ("EXTRA_REMOTE_RMCP_ENV", b"from-env")]);
    let env_vars = [var("EXTRA_REMOTE_RMCP_ENV")];
    let env = create_env_overlay_for_remote_mcp_server(
        Some(pairs(&[("OpenAI_Federation_Rule_Id", "rule")])),
        &env_vars,
        &penv,
        &non_inheritable,
    );
    assert_eq!(
        as_hash_map(env),
        HashMap::from([(b"EXTRA_REMOTE_RMCP_ENV".to_vec(), b"from-env".to_vec())])
    );
}

#[test]
fn create_remote_env_overlay_does_not_copy_remote_source_variables() {
    let penv = process_env(&[
        ("REMOTE_ONLY_RMCP_ENV", b"should-not-be-copied"),
        ("LOCAL_RMCP_ENV", b"from-local-env"),
    ]);
    let env_vars = [
        config_var("REMOTE_ONLY_RMCP_ENV", Some("remote")),
        config_var("LOCAL_RMCP_ENV", Some("local")),
    ];
    let env = create_env_overlay_for_remote_mcp_server(None, &env_vars, &penv, &non_inheritable);
    assert_eq!(
        as_hash_map(env),
        HashMap::from([(b"LOCAL_RMCP_ENV".to_vec(), b"from-local-env".to_vec())])
    );
}

#[test]
fn remote_mcp_env_var_names_returns_remote_source_names() {
    let names = remote_mcp_env_var_names(
        &[
            var("LEGACY"),
            config_var("LOCAL", Some("local")),
            config_var("REMOTE", Some("remote")),
            config_var("openai_identity_token_file", Some("remote")),
        ],
        &non_inheritable,
    );

    assert_eq!(names, vec!["REMOTE".to_string()]);
}

#[test]
fn create_local_env_rejects_remote_source_variables() {
    let err = local_env(&[], None, &[config_var("REMOTE", Some("remote"))], false)
        .err()
        .expect("remote source should require remote stdio");

    assert!(
        err.message().contains("requires remote MCP stdio"),
        "unexpected error: {}",
        err.message()
    );
    assert_eq!(
        err.message(),
        "env_vars entry `REMOTE` uses source `remote`, which requires remote MCP stdio"
    );
}

#[test]
fn create_env_propagates_termux_vars_when_termux_version_is_set() {
    let process_env: &[(&str, &[u8])] = &[
        ("TERMUX_VERSION", b"0.118.3"),
        ("PREFIX", b"/data/data/com.termux/files/usr"),
    ];
    let env = local_env(process_env, None, &[], true).ok().expect("local MCP env should build");

    assert_eq!(env.get(b"PREFIX"), Some(&b"/data/data/com.termux/files/usr".to_vec()));
    assert_eq!(env.get(b"TERMUX_VERSION"), Some(&b"0.118.3".to_vec()));
}

#[test]
fn create_env_does_not_leak_termux_vars_off_termux() {
    let process_env: &[(&str, &[u8])] = &[("PREFIX", b"/opt/leaked")];
    let env = local_env(process_env, None, &[], false).ok().expect("local MCP env should build");

    assert_eq!(env.get(b"PREFIX"), None);
}

#[test]
fn create_env_preserves_path_when_it_is_not_utf8() {
    let raw_path: &[u8] = b"/tmp/codex-\xFF/bin";
    let env = local_env(&[("PATH", raw_path)], None, &[], false)
        .ok()
        .expect("local MCP env should build");

    assert_eq!(env.get(b"PATH"), Some(&raw_path.to_vec()));
}

#[test]
fn names_to_read_come_in_order() {
    let names = env_var_names_to_read(
        &[var("A"), var("openai_identity_token_file"), var("B")],
        true,
        None,
        &non_inheritable,
    )
    .ok()
    .unwrap();
    assert_eq!(names.len(), 11 + 15 + 2);
    assert_eq!(names[0], "HOME");
    assert_eq!(names[11], "PREFIX");
    assert_eq!(names[26], "A");
    assert_eq!(names[27], "B");
    let names = local_stdio_env_var_names(&[var("A"), var("B")], &non_inheritable).ok().unwrap();
    assert_eq!(names, vec!["A".to_string(), "B".to_string()]);
    match local_stdio_env_var_names(
        &[var("A"), config_var("R1", Some("remote")), config_var("R2", Some("remote"))],
        &non_inheritable,
    ) {
        Err(McpEnvError::RemoteSourceRequiresRemoteStdio { name }) => assert_eq!(name, "R1"),
        Ok(_) => panic!("expected an error"),
    }
}

#[test]
fn certificate_overrides_replace_every_spelling() {
    let penv = process_env(&[("HOME", b"/home/u"), ("SSL_CERT_FILE", b"etc/ca.pem")]);
    let ca = pairs(&[("SSL_CERT_FILE", "/etc/ca.pem")]);
    let extra = pairs(&[("ssl_cert_file", "/x/ca.pem"), ("OTHER", "1")]);
    let env = create_env_for_mcp_server(Some(extra), &[], false, None, &penv, ca, CA_KEYS, &non_inheritable)
        .ok()
        .unwrap();
    let map = as_hash_map(env);
    assert_eq!(
        map,
        HashMap::from([
            (b"HOME".to_vec(), b"/home/u".to_vec()),
            (b"ssl_cert_file".to_vec(), b"/x/ca.pem".to_vec()),
            (b"OTHER".to_vec(), b"1".to_vec()),
        ])
    );
}

#[test]
fn other_overrides_keep_differently_cased_variables() {
    let penv = process_env(&[("Foo", b"a")]);
    let extra = pairs(&[("FOO", "b")]);
    let env = create_env_for_mcp_server(Some(extra), &[var("Foo")], false, None, &penv, Vec::new(), CA_KEYS, &non_inheritable)
        .ok()
        .unwrap();
    assert_eq!(
        as_hash_map(env),
        HashMap::from([(b"Foo".to_vec(), b"a".to_vec()), (b"FOO".to_vec(), b"b".to_vec())])
    );
}

#[test]
fn byte_map_keeps_the_last_value() {
    let mut m = ByteMap::new();
    m.insert(b"K".to_vec(), b"1".to_vec());
    m.insert(b"K".to_vec(), b"2".to_vec());
    m.insert(b"k".to_vec(), b"3".to_vec());
    assert_eq!(m.get(b"K"), Some(&b"2".to_vec()));
    m.remove_ignore_ascii_case(b"k");
    assert_eq!(m.get(b"K"), None);
    assert_eq!(m.get(b"k"), None);
}

#[test]
fn certificate_variables_are_those_set_to_a_value() {
    let penv = process_env(&[("SSL_CERT_FILE", b"ca.pem"), ("CODEX_CA_CERTIFICATE", b"")]);
    assert_eq!(
        certificate_variables(CA_KEYS, &penv),
        pairs(&[("SSL_CERT_FILE", "ca.pem")])
    );
    assert!(certificate_variables(CA_KEYS, &process_env(&[])).is_empty());
}

#[test]
fn remote_overlay_names_skip_remote_sources() {
    let names = remote_overlay_env_var_names(&[
        var("A"),
        config_var("R", Some("remote")),
        config_var("openai_identity_token_file", Some("local")),
    ]);
    assert_eq!(names, vec!["A".to_string(), "openai_identity_token_file".to_string()]);
}

#[test]
fn local_env_reads_only_inherited_names_that_are_set() {
    let env = local_env(
        &[("HOME", b"/home/u"), ("UNRELATED", b"x"), ("A", b"1"), ("openai_identity_token_file", b"t")],
        None,
        &[var("A"), var("B"), var("openai_identity_token_file")],
        false,
    )
    .ok()
    .unwrap();
    assert_eq!(
        as_hash_map(env),
        HashMap::from([(b"HOME".to_vec(), b"/home/u".to_vec()), (b"A".to_vec(), b"1".to_vec())])
    );
}

const WINDOWS_CORE: &[&str] = &["PATH", "SYSTEMROOT"];

#[test]
fn windows_reads_its_core_variables_and_no_termux_ones() {
    let names = env_var_names_to_read(&[var("A")], true, Some(WINDOWS_CORE), &non_inheritable)
        .ok()
        .unwrap();
    assert_eq!(names, vec!["PATH".to_string(), "SYSTEMROOT".to_string(), "A".to_string()]);
    let penv = process_env(&[("SYSTEMROOT", b"C:\\Windows"), ("HOME", b"/home/u"), ("PREFIX", b"/p")]);
    let env = create_env_for_mcp_server(
        None,
        &[],
        true,
        Some(WINDOWS_CORE),
        &penv,
        Vec::new(),
        CA_KEYS,
        &non_inheritable,
    )
    .ok()
    .unwrap();
    assert_eq!(
        as_hash_map(env),
        HashMap::from([(b"SYSTEMROOT".to_vec(), b"C:\\Windows".to_vec())])
    );
}

#[test]
fn windows_overrides_replace_every_spelling() {
    let penv = process_env(&[("Path", b"a"), ("SSL_CERT_FILE", b"x")]);
    let env = create_env_for_mcp_server(
        Some(pairs(&[("PATH", "b")])),
        &[var("Path")],
        false,
        Some(WINDOWS_CORE),
        &penv,
        pairs(&[("ssl_cert_file", "C:\\ca.pem")]),
        CA_KEYS,
        &non_inheritable,
    )
    .ok()
    .unwrap();
    assert_eq!(
        as_hash_map(env),
        HashMap::from([
            (b"PATH".to_vec(), b"b".to_vec()),
            (b"ssl_cert_file".to_vec(), b"C:\\ca.pem".to_vec()),
        ])
    );
}

#[test]
fn windows_names_are_compared_as_text() {
    let extra = vec![
        (b"\xff".to_vec(), b"1".to_vec()),
        ("\u{fffd}".as_bytes().to_vec(), b"2".to_vec()),
    ];
    let env = create_env_for_mcp_server(
        Some(extra.clone()),
        &[],
        false,
        Some(WINDOWS_CORE),
        &process_env(&[]),
        Vec::new(),
        CA_KEYS,
        &non_inheritable,
    )
    .ok()
    .unwrap();
    assert_eq!(as_hash_map(env), HashMap::from([("\u{fffd}".as_bytes().to_vec(), b"2".to_vec())]));
    let env = local_env(&[], Some(extra), &[], false).ok().unwrap();
    assert_eq!(as_hash_map(env).len(), 2);
}
