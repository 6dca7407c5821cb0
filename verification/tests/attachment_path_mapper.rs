use codex_termux::attachment_paths::map_client_path;
use codex_termux::attachment_paths::map_host_path;
use codex_termux::attachment_paths::to_host_path_for_termux;
use codex_termux::paths::join_path;
use codex_termux::paths::strip_prefix;
use std::path::Path;
use std::path::PathBuf;

fn as_path(bytes: Vec<u8>) -> PathBuf {
    PathBuf::from(String::from_utf8(bytes).expect("utf-8 path"))
}

#[test]
fn termux_maps_only_the_attachments_directory_by_path_component() {
    let temp_dir = "/data/data/com.termux/files/usr/tmp";
    let path = "/tmp/codex-remote-attachments/image.png";

    assert_eq!(
        as_path(map_client_path(path.as_bytes(), Some(temp_dir.as_bytes()))),
        PathBuf::from("/data/data/com.termux/files/usr/tmp")
            .join("codex-remote-attachments")
            .join("image.png")
    );
    assert_eq!(
        as_path(map_client_path(
            "/tmp/codex-remote-attachments-other/image.png".as_bytes(),
            Some(temp_dir.as_bytes()),
        )),
        PathBuf::from("/tmp/codex-remote-attachments-other/image.png")
    );
}

#[test]
fn termux_watch_notifications_return_the_client_namespace() {
    let temp_dir = "/data/data/com.termux/files/usr/tmp";

    assert_eq!(
        as_path(map_host_path(
            "/data/data/com.termux/files/usr/tmp/codex-remote-attachments/image.png".as_bytes(),
            Some(temp_dir.as_bytes()),
        )),
        PathBuf::from("/tmp/codex-remote-attachments/image.png")
    );
}

#[test]
fn non_termux_paths_are_unchanged() {
    let path = "/tmp/codex-remote-attachments/image.png";

    assert_eq!(as_path(map_client_path(path.as_bytes(), None)), Path::new(path));
    assert_eq!(as_path(map_host_path(path.as_bytes(), None)), Path::new(path));
}

#[test]
fn mapped_bytes_are_exact() {
    let temp_dir = b"/data/data/com.termux/files/usr/tmp";
    assert_eq!(
        map_client_path(b"/tmp/codex-remote-attachments/image.png", Some(temp_dir)),
        b"/data/data/com.termux/files/usr/tmp/codex-remote-attachments/image.png".to_vec()
    );
    assert_eq!(
        to_host_path_for_termux(b"/tmp/codex-remote-attachments/a/b.png", temp_dir),
        b"/data/data/com.termux/files/usr/tmp/codex-remote-attachments/a/b.png".to_vec()
    );
    // A temporary directory given with a trailing separator gets no second one.
    assert_eq!(
        map_client_path(b"/tmp/codex-remote-attachments/x", Some(b"/tmp2/")),
        b"/tmp2/codex-remote-attachments/x".to_vec()
    );
}

#[test]
fn the_attachments_root_itself_maps_to_the_host_directory() {
    assert_eq!(
        map_client_path(b"/tmp/codex-remote-attachments", Some(b"/t")),
        b"/t/codex-remote-attachments/".to_vec()
    );
    assert_eq!(
        map_host_path(b"/t/codex-remote-attachments", Some(b"/t")),
        b"/tmp/codex-remote-attachments/".to_vec()
    );
}

#[test]
fn separators_and_dots_are_read_as_components() {
    assert_eq!(
        map_client_path(b"//tmp/./codex-remote-attachments//a/./b/", Some(b"/t")),
        b"/t/codex-remote-attachments/a/./b".to_vec()
    );
    assert_eq!(
        map_client_path(b"tmp/codex-remote-attachments/a", Some(b"/t")),
        b"tmp/codex-remote-attachments/a".to_vec()
    );
    assert_eq!(
        map_client_path(b"/tmp/codex-remote/attachments/a", Some(b"/t")),
        b"/tmp/codex-remote/attachments/a".to_vec()
    );
}

#[test]
fn client_paths_round_trip_as_paths() {
    let temp_dir = b"/data/data/com.termux/files/usr/tmp";
    for p in [
        "/tmp/codex-remote-attachments/image.png",
        "/tmp/codex-remote-attachments//dir/./image.png/",
        "/tmp/codex-remote-attachments",
        "/tmp/codex-remote-attachments/../x",
    ] {
        let host = map_client_path(p.as_bytes(), Some(temp_dir));
        let back = map_host_path(&host, Some(temp_dir));
        assert_eq!(as_path(back), PathBuf::from(p));
    }
}

#[test]
fn host_paths_round_trip_as_paths() {
    let temp_dir = b"/data/local/tmp/";
    for p in [
        "/data/local/tmp/codex-remote-attachments/image.png",
        "/data/local/tmp//codex-remote-attachments/a//b/",
        "/data/local/tmp/codex-remote-attachments",
    ] {
        let client = map_host_path(p.as_bytes(), Some(temp_dir));
        let back = map_client_path(&client, Some(temp_dir));
        assert_eq!(as_path(back), PathBuf::from(p));
    }
}

#[test]
fn strip_prefix_and_join_agree_with_std_paths() {
    let paths = [
        "/tmp/codex-remote-attachments/image.png",
        "/tmp//codex-remote-attachments/./a//b/.",
        "/tmp/codex-remote-attachments",
        "/tmp/codex-remote-attachments/",
        "/tmp/codex-remote-attachments-other/x",
        "./a/b",
        ".",
        "./",
        "a/../b/",
        "a",
        "/",
        "//x//y",
        "x/./.",
        "/a/b/c",
        "",
        "/.",
        "./.",
        "//.",
        "/./",
        "/a/./",
        "./a/.",
        "/./a",
        ".a/",
    ];
    let bases = [
        "",
        "/tmp/codex-remote-attachments",
        "/tmp",
        "/tmp/",
        "/",
        "a",
        "./a",
        ".",
        "a/..",
        "/a/./b",
        "//x",
    ];
    for p in paths {
        for b in bases {
            let expected = Path::new(p)
                .strip_prefix(b)
                .ok()
                .map(|r| r.to_str().unwrap().as_bytes().to_vec());
            assert_eq!(strip_prefix(p.as_bytes(), b.as_bytes()), expected, "strip {p} by {b}");
        }
    }
    let parts = ["", "a", "/a", "a/", "./b", "..", "a//b"];
    for p in paths {
        for q in parts {
            let expected = Path::new(p).join(q).to_str().unwrap().as_bytes().to_vec();
            assert_eq!(join_path(p.as_bytes(), q.as_bytes()), expected, "join {p} and {q}");
        }
    }
    for q in parts {
        let expected = Path::new("").join(q).to_str().unwrap().as_bytes().to_vec();
        assert_eq!(join_path(b"", q.as_bytes()), expected);
    }
}
