use smallweb_adapter::fsview::{FileId, FsEntry, FsView};
use smallweb_adapter::sandbox::{deno_sandbox_to_bubblewrap_args, sandbox_probe_paths};

fn to_string_vec(args: &[&str]) -> Vec<String> {
    args.iter().map(|s| s.to_string()).collect()
}

fn dir(path: &str, ino: u64) -> FsEntry {
    FsEntry { path: path.to_string(), id: FileId { dev: 1, ino }, is_dir: true, contents: None }
}

fn file(path: &str, ino: u64) -> FsEntry {
    FsEntry { path: path.to_string(), id: FileId { dev: 1, ino }, is_dir: false, contents: None }
}

/// A host with the usual system directories and network files.
fn host(extra: Vec<FsEntry>) -> FsView {
    let mut entries = vec![
        dir("/bin", 10),
        dir("/usr", 11),
        dir("/lib", 12),
        file("/etc/resolv.conf", 13),
        dir("/etc/ssl", 14),
        dir("/tmp", 15),
    ];
    entries.extend(extra);
    FsView { entries }
}

fn has_triple(v: &[String], a: &str, b: &str, c: &str) -> bool {
    v.windows(3).any(|w| w == [a, b, c])
}

#[test]
fn test_basic_args() {
    let args = vec![];
    let bwrap_args = deno_sandbox_to_bubblewrap_args(&args, &"/fake/deno".to_string(), &host(vec![]));
    assert!(bwrap_args.contains(&"--die-with-parent".to_string()));
    assert!(has_triple(&bwrap_args, "--ro-bind", "/bin", "/bin"));
    assert!(!bwrap_args.contains(&"--share-net".to_string()));
}

#[test]
fn test_with_allow_net() {
    let args = to_string_vec(&["--allow-net"]);
    let bwrap_args = deno_sandbox_to_bubblewrap_args(&args, &"/fake/deno".to_string(), &host(vec![]));
    assert!(bwrap_args.contains(&"--share-net".to_string()));
    assert!(has_triple(&bwrap_args, "--ro-bind", "/etc/resolv.conf", "/etc/resolv.conf"));
}

#[test]
fn test_with_allow_read() {
    let home_user = "/tmp/work/user";
    let args = to_string_vec(&[&format!("--allow-read={0},/tmp", home_user)]);
    let fs = host(vec![dir(home_user, 20)]);
    let bwrap_args = deno_sandbox_to_bubblewrap_args(&args, &"/fake/deno".to_string(), &fs);
    assert!(has_triple(&bwrap_args, "--ro-bind", home_user, home_user));
    assert!(has_triple(&bwrap_args, "--ro-bind", "/tmp", "/tmp"));
}

#[test]
fn test_with_allow_read_non_existent() {
    let non_existent = "/tmp/work/non_existent";
    let args = to_string_vec(&[&format!("--allow-read={}", non_existent)]);
    let bwrap_args = deno_sandbox_to_bubblewrap_args(&args, &"/fake/deno".to_string(), &host(vec![]));
    assert!(!has_triple(&bwrap_args, "--ro-bind", non_existent, non_existent));
}

#[test]
fn test_with_allow_write() {
    let data_dir = "/tmp/work/data";
    let args = to_string_vec(&[&format!("--allow-write={}", data_dir)]);
    let fs = host(vec![dir(data_dir, 21)]);
    let bwrap_args = deno_sandbox_to_bubblewrap_args(&args, &"/fake/deno".to_string(), &fs);
    assert!(has_triple(&bwrap_args, "--bind", data_dir, data_dir));
}

#[test]
fn test_with_mixed_args() {
    let home_user = "/tmp/work/user";
    let data_dir = "/tmp/work/data";
    let args = to_string_vec(&[
        "--allow-net",
        &format!("--allow-read={}", home_user),
        &format!("--allow-write={}", data_dir),
    ]);
    let fs = host(vec![dir(home_user, 20), dir(data_dir, 21)]);
    let bwrap_args = deno_sandbox_to_bubblewrap_args(&args, &"/fake/deno".to_string(), &fs);
    assert!(bwrap_args.contains(&"--share-net".to_string()));
    assert!(has_triple(&bwrap_args, "--ro-bind", home_user, home_user));
    assert!(has_triple(&bwrap_args, "--bind", data_dir, data_dir));
}

#[test]
fn test_filter_own_path() {
    let own_path = "/tmp/work/deno";
    let data_dir = "/tmp/work/data";
    let args = to_string_vec(&[
        &format!("--allow-read={}", own_path),
        &format!("--allow-write={}", data_dir),
    ]);
    let fs = host(vec![file(own_path, 30), dir(data_dir, 21)]);
    let bwrap_args = deno_sandbox_to_bubblewrap_args(&args, &own_path.to_string(), &fs);
    assert!(!has_triple(&bwrap_args, "--ro-bind", own_path, own_path));
    assert!(has_triple(&bwrap_args, "--bind", data_dir, data_dir));
}

#[test]
fn own_binary_is_not_bound_under_another_name() {
    // A hard link (same device and inode) to the shim, under a different name.
    let own_path = "/opt/shim/deno";
    let alias = "/tmp/alias";
    let args = to_string_vec(&[&format!("--allow-read={}", alias)]);
    let fs = host(vec![file(own_path, 30), file(alias, 30)]);
    let bwrap_args = deno_sandbox_to_bubblewrap_args(&args, &own_path.to_string(), &fs);
    assert!(!bwrap_args.contains(&alias.to_string()));
}

#[test]
fn exact_argument_order() {
    let args = to_string_vec(&[
        "run",
        "--allow-write=/w",
        "--allow-net",
        "--allow-read=/r1,,/missing,/r2",
        "--allow-read=/r3",
    ]);
    let fs = FsView {
        entries: vec![
            dir("/bin", 1),
            dir("/lib", 2),
            dir("/etc/ssl", 3),
            dir("/r1", 4),
            dir("/r2", 5),
            dir("/r3", 6),
            dir("/w", 7),
        ],
    };
    let bwrap_args = deno_sandbox_to_bubblewrap_args(&args, &"/fake/deno".to_string(), &fs);
    let expected = to_string_vec(&[
        "--die-with-parent", "--unshare-pid", "--new-session",
        "--proc", "/proc", "--dev", "/dev",
        "--symlink", "usr/lib64", "/lib64",
        "--ro-bind", "/bin", "/bin",
        "--ro-bind", "/lib", "/lib",
        "--share-net",
        "--ro-bind", "/etc/ssl", "/etc/ssl",
        "--ro-bind", "/r1", "/r1",
        "--ro-bind", "/r2", "/r2",
        "--ro-bind", "/r3", "/r3",
        "--bind", "/w", "/w",
    ]);
    assert_eq!(bwrap_args, expected);
}

#[test]
fn probes_cover_grants() {
    let args = to_string_vec(&["--allow-read=/a,/b", "--allow-write=/c"]);
    let probes = sandbox_probe_paths(&args, &"/opt/shim/deno".to_string());
    assert_eq!(
        probes,
        to_string_vec(&[
            "/opt/shim/deno", "/bin", "/usr", "/lib", "/etc/resolv.conf", "/etc/ssl", "/a", "/b",
            "/c",
        ])
    );
}
