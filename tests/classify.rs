use smallweb_adapter::classifier::{
    decide_action, decision_probe_paths, is_shadowing, parse_config, parse_deno_args,
    sanitize_path, Action, DenoArgs, SmallwebConfig,
};
use smallweb_adapter::fsview::{FileId, FsEntry, FsView};

fn dir(path: &str, ino: u64) -> FsEntry {
    FsEntry { path: path.to_string(), id: FileId { dev: 1, ino }, is_dir: true, contents: None }
}

fn file(path: &str, ino: u64, text: &str) -> FsEntry {
    FsEntry {
        path: path.to_string(),
        id: FileId { dev: 1, ino },
        is_dir: false,
        contents: Some(text.to_string()),
    }
}

fn command_json(entrypoint: &str, port: u32) -> String {
    format!(r#"{{"command":"fetch","entrypoint":"{}","port":{}}}"#, entrypoint, port)
}

#[test]
fn main_test_invoke_adapter() {
    let entrypoint = "file:///src/test/invoke_adapter/main.tsx".to_string();
    let json_arg = command_json(&entrypoint, 38025);
    let args = vec![
        "/tmp/t1/deno".to_string(),
        "run".to_string(),
        "--allow-net".to_string(),
        json_arg,
    ];
    let fs = FsView {
        entries: vec![
            dir("/tmp/t1", 1),
            file("/tmp/t1/deno", 2, ""),
            dir("/src/test/invoke_adapter", 3),
            file("/src/test/invoke_adapter/main.tsx", 4, "Deno.serve(() => new Response());"),
            file(
                "/src/test/invoke_adapter/smallweb.json",
                5,
                r#"{"exec": "deno run --allow-net main.tsx --port $PORT"}"#,
            ),
        ],
    };
    let action = decide_action(&args, "/usr/bin:/bin", "/tmp/t1/deno", &fs);
    let expected_deno_args = DenoArgs { command: "fetch".to_string(), entrypoint, port: 38025 };
    match action {
        Action::Exec(config, deno_args) => {
            assert!(config.exec_command.contains("$PORT"));
            assert_eq!(deno_args, expected_deno_args);
        }
        _ => panic!("Expected Action::Exec, but got {:?}", action),
    }
}

#[test]
fn main_test_normal_deno() {
    let json_arg = command_json("file:///src/test/normal_deno/main.tsx", 38025);
    let args = vec![
        "/tmp/adapter/deno".to_string(),
        "run".to_string(),
        "--allow-net".to_string(),
        json_arg,
    ];
    let fs = FsView {
        entries: vec![
            dir("/tmp/adapter", 10),
            file("/tmp/adapter/deno", 11, ""),
            dir("/tmp/denodir", 12),
            file("/tmp/denodir/deno", 13, ""),
            dir("/usr/bin", 14),
            dir("/bin", 15),
            dir("/src/test/normal_deno", 16),
            file("/src/test/normal_deno/main.tsx", 17, "console.log('hi');"),
        ],
    };
    let original_path = "/tmp/adapter:/tmp/denodir:/usr/bin:/bin";
    let action = decide_action(&args, original_path, "/tmp/adapter/deno", &fs);
    assert_eq!(
        action,
        Action::ExecDeno { new_path: Some("/tmp/denodir:/usr/bin:/bin".to_string()) }
    );
}

#[test]
fn test_jsr_entrypoint() {
    let json_arg = command_json("jsr:@smallweb/file-server@0.8.2", 42541);
    let args = vec![
        "/tmp/adapter/deno".to_string(),
        "run".to_string(),
        "-".to_string(),
        json_arg,
    ];
    let fs = FsView {
        entries: vec![
            dir("/tmp/adapter", 10),
            dir("/tmp/denodir", 12),
            dir("/usr/bin", 14),
            dir("/bin", 15),
        ],
    };
    let original_path = "/tmp/adapter:/tmp/denodir:/usr/bin:/bin";
    let action = decide_action(&args, original_path, "/tmp/adapter/deno", &fs);
    assert_eq!(
        action,
        Action::ExecDeno { new_path: Some("/tmp/denodir:/usr/bin:/bin".to_string()) }
    );
}

#[test]
fn test_path_canonicalization_with_symlink() {
    // symlink_dir points at adapter; both spellings of it share its identity.
    let fs = FsView {
        entries: vec![
            dir("/tmp/t/real_deno", 20),
            dir("/tmp/t/adapter", 21),
            dir("/tmp/t/symlink_dir", 21),
            dir("/tmp/t/symlink_dir/", 21),
            dir("/usr/bin", 22),
        ],
    };
    let original_path = "/tmp/t/symlink_dir:/tmp/t/symlink_dir/:/tmp/t/real_deno:/usr/bin";
    let args = vec!["/tmp/t/adapter/deno".to_string(), "run".to_string(), "foo.ts".to_string()];
    let action = decide_action(&args, original_path, "/tmp/t/adapter/deno", &fs);
    assert_eq!(
        action,
        Action::ExecDeno { new_path: Some("/tmp/t/real_deno:/usr/bin".to_string()) }
    );
}

#[test]
fn core_test_test_normal_deno() {
    let json_arg = command_json("file:///tmp/app1/main.tsx", 38025);
    let args = vec![
        "/path/to/adapter/deno".to_string(),
        "run".to_string(),
        "--allow-net".to_string(),
        json_arg,
    ];
    let fs = FsView {
        entries: vec![
            dir("/path/to/adapter", 30),
            dir("/usr/bin", 31),
            dir("/bin", 32),
            dir("/tmp/app1", 33),
            file("/tmp/app1/main.tsx", 34, "console.log('Hello, world!');\n"),
        ],
    };
    let original_path = "/path/to/adapter:/usr/bin:/bin";
    let action = decide_action(&args, original_path, "/path/to/adapter/deno", &fs);
    assert_eq!(action, Action::ExecDeno { new_path: Some("/usr/bin:/bin".to_string()) });
}

fn app_host(with_config: bool) -> FsView {
    let mut entries = vec![dir("/usr/local/bin", 40), dir("/usr/bin", 41), dir("/app", 42)];
    if with_config {
        entries.push(file("/app/smallweb.json", 43, r#"{"exec":"echo $PORT"}"#));
    }
    FsView { entries }
}

fn scenario_args() -> Vec<String> {
    vec![
        "deno".to_string(),
        "run".to_string(),
        "--allow-net".to_string(),
        r#"{"command":"fetch","entrypoint":"file:///app/main.tsx","port":38025}"#.to_string(),
    ]
}

#[test]
fn configured_app_is_run() {
    let action =
        decide_action(&scenario_args(), "/usr/local/bin:/usr/bin", "/usr/local/bin/deno", &app_host(true));
    match action {
        Action::Exec(config, deno_args) => {
            assert_eq!(config.exec_command, "echo $PORT");
            assert_eq!(deno_args.port, 38025);
            assert_eq!(deno_args.command, "fetch");
            assert_eq!(deno_args.entrypoint, "file:///app/main.tsx");
        }
        other => panic!("expected Exec, got {:?}", other),
    }
}

#[test]
fn missing_config_delegates_without_own_dir() {
    let action =
        decide_action(&scenario_args(), "/usr/local/bin:/usr/bin", "/usr/local/bin/deno", &app_host(false));
    assert_eq!(action, Action::ExecDeno { new_path: Some("/usr/bin".to_string()) });
}

#[test]
fn directory_entrypoint_uses_its_own_config() {
    let mut args = scenario_args();
    args[3] = command_json("file:///app", 8000);
    let action = decide_action(&args, "/usr/bin", "/usr/local/bin/deno", &app_host(true));
    assert_eq!(
        action,
        Action::Exec(
            SmallwebConfig { exec_command: "echo $PORT".to_string() },
            DenoArgs {
                command: "fetch".to_string(),
                entrypoint: "file:///app".to_string(),
                port: 8000
            }
        )
    );
}

#[test]
fn unparsable_last_argument_delegates() {
    let args = vec!["deno".to_string(), "run".to_string(), "main.ts".to_string()];
    let action = decide_action(&args, "/usr/local/bin:/usr/bin", "/usr/local/bin/deno", &app_host(true));
    assert_eq!(action, Action::ExecDeno { new_path: Some("/usr/bin".to_string()) });
    let args = vec!["deno".to_string(), r#"{"command":"fetch","port":1}"#.to_string()];
    let action = decide_action(&args, "/usr/bin", "/usr/local/bin/deno", &app_host(true));
    assert_eq!(action, Action::ExecDeno { new_path: Some("/usr/bin".to_string()) });
}

#[test]
fn no_arguments_delegate_unchanged() {
    let action = decide_action(&vec![], "/usr/local/bin", "/usr/local/bin/deno", &app_host(true));
    assert_eq!(action, Action::ExecDeno { new_path: None });
}

#[test]
fn foreign_entrypoint_delegates_whatever_the_path() {
    let mut args = scenario_args();
    args[3] = command_json("https://example.com/main.ts", 80);
    for path_var in ["", "/usr/local/bin", "/usr/bin:/usr/local/bin:/x"] {
        let action = decide_action(&args, path_var, "/usr/local/bin/deno", &app_host(true));
        assert!(matches!(action, Action::ExecDeno { .. }));
    }
}

#[test]
fn other_name_keeps_path() {
    let mut args = scenario_args();
    args[0] = "/usr/local/bin/smallweb-adapter".to_string();
    let action = decide_action(&args, "/usr/local/bin:/usr/bin", "/usr/local/bin/smallweb-adapter", &app_host(false));
    assert_eq!(action, Action::ExecDeno { new_path: None });
}

#[test]
fn shadowing_by_base_name() {
    let one = |s: &str| vec![s.to_string()];
    assert!(is_shadowing(&one("deno")));
    assert!(is_shadowing(&one("./deno")));
    assert!(is_shadowing(&one("/usr/local/bin/deno/")));
    assert!(!is_shadowing(&one("/usr/local/bin/deno2")));
    assert!(!is_shadowing(&one("/deno/..")));
    assert!(!is_shadowing(&vec![]));
}

#[test]
fn sanitize_twice_is_sanitize_once() {
    let fs = FsView { entries: vec![dir("/a", 1), dir("/b", 2), dir("/c", 1)] };
    let own = Some(FileId { dev: 1, ino: 1 });
    let once = sanitize_path("/a:/b::/c:/missing", own, &fs);
    assert_eq!(once, "/b::/missing");
    assert_eq!(sanitize_path(&once, own, &fs), once);
    let all_gone = sanitize_path("/a:/c", own, &fs);
    assert_eq!(all_gone, "");
    assert_eq!(sanitize_path(&all_gone, own, &fs), "");
}

#[test]
fn sanitize_without_own_identity_keeps_everything() {
    let fs = FsView { entries: vec![dir("/a", 1)] };
    assert_eq!(sanitize_path("/a:/b", None, &fs), "/a:/b");
}

#[test]
fn command_parsing() {
    let d = parse_deno_args(r#"{"command":"fetch","entrypoint":"file:///x","port":65535,"extra":1}"#);
    assert_eq!(
        d,
        Some(DenoArgs {
            command: "fetch".to_string(),
            entrypoint: "file:///x".to_string(),
            port: 65535
        })
    );
    assert_eq!(parse_deno_args(r#"{"command":"fetch","entrypoint":"file:///x","port":65536}"#), None);
    assert_eq!(parse_deno_args(r#"{"command":"fetch","entrypoint":"file:///x","port":"80"}"#), None);
    assert_eq!(parse_deno_args(r#"{"command":"fetch","entrypoint":7,"port":80}"#), None);
    assert_eq!(parse_deno_args("not json"), None);
    assert_eq!(parse_deno_args(""), None);
}

#[test]
fn config_parsing() {
    let c = parse_config("{\"watchpattern\": \"src/**/*.rs\", \"exec\": \"cargo run\"}\n");
    assert_eq!(c, Some(SmallwebConfig { exec_command: "cargo run".to_string() }));
    assert_eq!(parse_config(r#"{"exec": 1}"#), None);
    assert_eq!(parse_config("console.log('Hello, world!');"), None);
}

#[test]
fn probes_for_a_file_entrypoint() {
    let probes = decision_probe_paths(&scenario_args(), "/usr/local/bin:/usr/bin", "/usr/local/bin/deno");
    assert_eq!(
        probes,
        vec![
            "/usr/local/bin".to_string(),
            "/usr/local/bin".to_string(),
            "/usr/bin".to_string(),
            "/app/main.tsx".to_string(),
            "/app/main.tsx/smallweb.json".to_string(),
            "/app/smallweb.json".to_string(),
        ]
    );
}
