//! Maps attachment paths between the client's namespace
//! (`/tmp/codex-remote-attachments/...`) and the host's temporary
//! directory, which on Termux is not `/tmp`.

use vstd::prelude::*;
use crate::paths::{
    join_path, join_path_spec, lemma_join_named_directory, strip_prefix, strip_prefix_spec,
    components, copy_bytes, lemma_strip_joined, lemma_strip_rest, SEPARATOR,
};

verus! {

/// Where clients place attachments: `/tmp/codex-remote-attachments`.
pub open spec fn client_attachments_root() -> Seq<u8> {
    "/tmp/codex-remote-attachments"@.map_values(|c: char| c as u8)
}

/// The directory under the host's temporary directory that holds
/// attachments: `codex-remote-attachments`.
pub open spec fn attachments_directory() -> Seq<u8> {
    "codex-remote-attachments"@.map_values(|c: char| c as u8)
}

fn client_attachments_root_bytes() -> (r: &'static [u8])
    ensures
        r@ == client_attachments_root(),
{
    let s = "/tmp/codex-remote-attachments";
    proof {
        reveal_strlit("/tmp/codex-remote-attachments");
        broadcast use vstd::string::is_ascii_spec_bytes;
        assert(vstd::string::is_ascii(s));
    }
    let r = s.as_bytes();
    assert(r@ =~= client_attachments_root());
    r
}

fn attachments_directory_bytes() -> (r: &'static [u8])
    ensures
        r@ == attachments_directory(),
{
    let s = "codex-remote-attachments";
    proof {
        reveal_strlit("codex-remote-attachments");
        broadcast use vstd::string::is_ascii_spec_bytes;
        assert(vstd::string::is_ascii(s));
    }
    let r = s.as_bytes();
    assert(r@ =~= attachments_directory());
    r
}

/// The view of an optional byte string.
pub open spec fn opt_bytes(o: Option<&[u8]>) -> Option<Seq<u8>> {
    match o {
        Some(t) => Some(t@),
        None => None,
    }
}

/// The host's attachments directory under temporary directory `temp_dir`.
pub open spec fn host_attachments_root(temp_dir: Seq<u8>) -> Seq<u8> {
    join_path_spec(temp_dir, attachments_directory())
}

/// Where a client path stands on the host: with no Termux temporary
/// directory, or outside the client's attachments root, the path itself;
/// otherwise its part below that root, placed below the host's attachments
/// directory.
pub open spec fn map_client_path_spec(path: Seq<u8>, temp_dir: Option<Seq<u8>>) -> Seq<u8> {
    match temp_dir {
        None => path,
        Some(t) => match strip_prefix_spec(path, client_attachments_root()) {
            None => path,
            Some(rel) => join_path_spec(host_attachments_root(t), rel),
        },
    }
}

/// Where a host path stands for the client: with no Termux temporary
/// directory, or outside the host's attachments directory, the path itself;
/// otherwise its part below that directory, placed below the client's
/// attachments root.
pub open spec fn map_host_path_spec(path: Seq<u8>, temp_dir: Option<Seq<u8>>) -> Seq<u8> {
    match temp_dir {
        None => path,
        Some(t) => match strip_prefix_spec(path, host_attachments_root(t)) {
            None => path,
            Some(rel) => join_path_spec(client_attachments_root(), rel),
        },
    }
}

pub proof fn lemma_client_root_shape()
    ensures
        client_attachments_root().len() > 0,
        client_attachments_root()[0] == SEPARATOR,
        client_attachments_root().last() != SEPARATOR,
        components(client_attachments_root()).len() > 0,
{
    reveal_strlit("/tmp/codex-remote-attachments");
}

pub proof fn lemma_attachments_directory_shape()
    ensures
        attachments_directory().len() > 1,
        forall|i: int|
            0 <= i < attachments_directory().len() ==> attachments_directory()[i] != SEPARATOR,
{
    reveal_strlit("codex-remote-attachments");
}

pub proof fn lemma_host_root_shape(t: Seq<u8>)
    ensures
        components(host_attachments_root(t)).len() > 0,
        host_attachments_root(t).len() > 0,
        host_attachments_root(t).last() != SEPARATOR,
{
    lemma_attachments_directory_shape();
    lemma_join_named_directory(t, attachments_directory());
}

/// A client path under the attachments root maps to a host path under the
/// host's attachments directory that keeps the components below the root,
/// and mapping it back gives a path equal to the starting path as a path (the
/// same components).
pub proof fn law_client_path_round_trip(path: Seq<u8>, temp_dir: Seq<u8>)
    requires
        strip_prefix_spec(path, client_attachments_root()) is Some,
    ensures
        strip_prefix_spec(map_client_path_spec(path, Some(temp_dir)), host_attachments_root(temp_dir))
            is Some,
        components(map_client_path_spec(path, Some(temp_dir))) == components(
            host_attachments_root(temp_dir),
        ) + components(path).skip(components(client_attachments_root()).len() as int),
        components(map_host_path_spec(map_client_path_spec(path, Some(temp_dir)), Some(temp_dir)))
            == components(path),
{
    lemma_client_root_shape();
    lemma_host_root_shape(temp_dir);
    let root = client_attachments_root();
    let host = host_attachments_root(temp_dir);
    let l = lemma_strip_rest(path, root);
    lemma_strip_joined(host, l);
    lemma_strip_joined(root, l);
    assert(components(path).skip(components(root).len() as int) =~= crate::paths::named(l));
}

/// A host path under the host's attachments directory maps to a client path
/// under the client's attachments root, and mapping it back gives a path
/// equal to the starting path as a path (the same components).
pub proof fn law_host_path_round_trip(path: Seq<u8>, temp_dir: Seq<u8>)
    requires
        strip_prefix_spec(path, host_attachments_root(temp_dir)) is Some,
    ensures
        strip_prefix_spec(map_host_path_spec(path, Some(temp_dir)), client_attachments_root())
            is Some,
        components(map_host_path_spec(path, Some(temp_dir))) == components(
            client_attachments_root(),
        ) + components(path).skip(components(host_attachments_root(temp_dir)).len() as int),
        components(map_client_path_spec(map_host_path_spec(path, Some(temp_dir)), Some(temp_dir)))
            == components(path),
{
    lemma_client_root_shape();
    lemma_host_root_shape(temp_dir);
    let root = client_attachments_root();
    let host = host_attachments_root(temp_dir);
    let l = lemma_strip_rest(path, host);
    lemma_strip_joined(root, l);
    lemma_strip_joined(host, l);
    assert(components(path).skip(components(host).len() as int) =~= crate::paths::named(l));
}

/// `path` lies under `root`, component by component: the components of
/// `root` begin those of `path`.
pub open spec fn lies_under(path: Seq<u8>, root: Seq<u8>) -> bool {
    let cp = components(path);
    let cr = components(root);
    cr.len() <= cp.len() && cp.subrange(0, cr.len() as int) == cr
}

/// Mapping leaves a path as it is when no Termux temporary directory is
/// given, and when the path does not lie under the attachments directory it
/// would be mapped from: a client path outside `/tmp/codex-remote-attachments`,
/// a host path outside the host's attachments directory.
pub proof fn law_paths_outside_attachments_are_unchanged(path: Seq<u8>, temp_dir: Seq<u8>)
    ensures
        map_client_path_spec(path, None) == path,
        map_host_path_spec(path, None) == path,
        !lies_under(path, client_attachments_root()) ==> map_client_path_spec(path, Some(temp_dir))
            == path,
        !lies_under(path, host_attachments_root(temp_dir)) ==> map_host_path_spec(
            path,
            Some(temp_dir),
        ) == path,
{
    lemma_client_root_shape();
    lemma_host_root_shape(temp_dir);
}

/// A path that lies under the attachments directory it is mapped from is
/// mapped to a path that lies under the other one.
pub proof fn law_attachment_paths_change_sides(path: Seq<u8>, temp_dir: Seq<u8>)
    ensures
        lies_under(path, client_attachments_root()) ==> lies_under(
            map_client_path_spec(path, Some(temp_dir)),
            host_attachments_root(temp_dir),
        ),
        lies_under(path, host_attachments_root(temp_dir)) ==> lies_under(
            map_host_path_spec(path, Some(temp_dir)),
            client_attachments_root(),
        ),
{
    lemma_client_root_shape();
    lemma_host_root_shape(temp_dir);
    if lies_under(path, client_attachments_root()) {
        law_client_path_round_trip(path, temp_dir);
        let r = map_client_path_spec(path, Some(temp_dir));
        let ch = components(host_attachments_root(temp_dir));
        assert(components(r).subrange(0, ch.len() as int) =~= ch);
    }
    if lies_under(path, host_attachments_root(temp_dir)) {
        law_host_path_round_trip(path, temp_dir);
        let r = map_host_path_spec(path, Some(temp_dir));
        let cc = components(client_attachments_root());
        assert(components(r).subrange(0, cc.len() as int) =~= cc);
    }
}

/// Maps a path that a client sent to the path where the attachment lives
/// on this host, given the host's temporary directory when running on
/// Termux.
pub fn map_client_path(path: &[u8], temp_dir: Option<&[u8]>) -> (r: Vec<u8>)
    ensures
        r@ == map_client_path_spec(path@, opt_bytes(temp_dir)),
{
    let temp_dir = match temp_dir {
        None => {
            return copy_bytes(path);
        },
        Some(t) => t,
    };
    proof {
        lemma_client_root_shape();
    }
    match strip_prefix(path, client_attachments_root_bytes()) {
        None => copy_bytes(path),
        Some(rel) => {
            let base = join_path(temp_dir, attachments_directory_bytes());
            join_path(base.as_slice(), rel.as_slice())
        },
    }
}

/// Maps a path on this host to the path under which a client knows the
/// attachment, given the host's temporary directory when running on Termux.
pub fn map_host_path(path: &[u8], temp_dir: Option<&[u8]>) -> (r: Vec<u8>)
    ensures
        r@ == map_host_path_spec(path@, opt_bytes(temp_dir)),
{
    let temp_dir = match temp_dir {
        None => {
            return copy_bytes(path);
        },
        Some(t) => t,
    };
    let host_root = join_path(temp_dir, attachments_directory_bytes());
    proof {
        lemma_host_root_shape(temp_dir@);
    }
    match strip_prefix(path, host_root.as_slice()) {
        None => copy_bytes(path),
        Some(rel) => join_path(client_attachments_root_bytes(), rel.as_slice()),
    }
}

/// Maps a client path to the host, as on Termux with temporary directory
/// `temp_dir`.
pub fn to_host_path_for_termux(path: &[u8], temp_dir: &[u8]) -> (r: Vec<u8>)
    ensures
        r@ == map_client_path_spec(path@, Some(temp_dir@)),
{
    map_client_path(path, Some(temp_dir))
}

} // verus!
