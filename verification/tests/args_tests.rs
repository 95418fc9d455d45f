use cargo_cgp_driver::args::{flag_key_of, has_flag, is_info_query, is_wrapper_mode, rustc_args};
use cargo_cgp_driver::callbacks::{CgpCallbacks, Compilation};
use cargo_cgp_driver::config::{NEXT_SOLVER_FLAG, SYSROOT_FLAG};
use cargo_cgp_driver::expand::{take_expand_request, ExpandRequest};
use cargo_cgp_driver::help::{help_text, wants_help, HELP_HEAD, HELP_MIDDLE, HELP_TAIL};

fn strings(items: &[&str]) -> Vec<String> {
    items.iter().map(|s| s.to_string()).collect()
}

#[test]
fn wrapper_mode_drops_rustc_path_and_injects_flags() {
    let raw = strings(&["cargo-cgp-driver", "/toolchain/bin/rustc", "--crate-name", "demo"]);
    let out = rustc_args(raw, Some("/sysroot".to_string()), SYSROOT_FLAG, &[NEXT_SOLVER_FLAG]);
    assert_eq!(
        out,
        strings(&[
            "cargo-cgp-driver",
            "--crate-name",
            "demo",
            "--sysroot",
            "/sysroot",
            "-Znext-solver=globally",
        ])
    );
}

#[test]
fn direct_mode_keeps_every_argument() {
    let raw = strings(&["cargo-cgp-driver", "src/lib.rs"]);
    let out = rustc_args(raw, None, SYSROOT_FLAG, &[NEXT_SOLVER_FLAG]);
    assert_eq!(out, strings(&["cargo-cgp-driver", "src/lib.rs", "-Znext-solver=globally"]));
}

#[test]
fn explicit_flags_win() {
    let raw = strings(&[
        "cargo-cgp-driver",
        "rustc",
        "--sysroot=/mine",
        "-Znext-solver=coherence",
    ]);
    let out = rustc_args(raw, Some("/sysroot".to_string()), SYSROOT_FLAG, &[NEXT_SOLVER_FLAG]);
    assert_eq!(out, strings(&["cargo-cgp-driver", "--sysroot=/mine", "-Znext-solver=coherence"]));
}

#[test]
fn info_queries_get_no_injected_flags() {
    let raw = strings(&["cargo-cgp-driver", "/bin/rustc", "-vV"]);
    let out = rustc_args(raw, Some("/s".to_string()), SYSROOT_FLAG, &[NEXT_SOLVER_FLAG]);
    assert_eq!(out, strings(&["cargo-cgp-driver", "-vV", "--sysroot", "/s"]));
    assert!(is_info_query(&strings(&["x", "--print=cfg"])));
    assert!(is_info_query(&strings(&["x", "--print", "cfg"])));
    assert!(!is_info_query(&strings(&["x", "--printer"])));
}

#[test]
fn wrapper_mode_is_read_from_the_file_stem() {
    assert!(is_wrapper_mode(&strings(&["driver", "/a/b/rustc"])));
    assert!(is_wrapper_mode(&strings(&["driver", "rustc.exe"])));
    assert!(!is_wrapper_mode(&strings(&["driver", "/a/b/rustdoc"])));
    assert!(!is_wrapper_mode(&strings(&["driver"])));
}

#[test]
fn flag_keys_and_presence() {
    assert_eq!(flag_key_of("-Znext-solver=globally"), "-Znext-solver");
    assert_eq!(flag_key_of("--verbose"), "--verbose");
    assert!(has_flag(&strings(&["a", "--sysroot=/x"]), "--sysroot"));
    assert!(has_flag(&strings(&["a", "--sysroot", "/x"]), "--sysroot"));
    assert!(!has_flag(&strings(&["a", "--sysroots"]), "--sysroot"));
}

#[test]
fn expand_request_is_taken_out_of_the_arguments() {
    let mut args = strings(&["driver", "--cgp-expand=/tmp/out.rs", "--crate-name", "demo"]);
    let request = take_expand_request(&mut args, "--cgp-expand").map(|r| r.output);
    assert_eq!(request, Some("/tmp/out.rs".to_string()));
    assert_eq!(args, strings(&["driver", "--crate-name", "demo"]));
}

#[test]
fn expand_request_needs_a_value() {
    let mut args = strings(&["driver", "--cgp-expand=", "x"]);
    assert!(take_expand_request(&mut args, "--cgp-expand").is_none());
    assert_eq!(args, strings(&["driver", "x"]));
    let mut spaced = strings(&["driver", "--cgp-expand", "/tmp/out.rs"]);
    assert!(take_expand_request(&mut spaced, "--cgp-expand").is_none());
    assert_eq!(spaced.len(), 3);
}

#[test]
fn help_is_asked_by_either_flag() {
    assert!(wants_help(&strings(&["driver", "--help"])));
    assert!(wants_help(&strings(&["driver", "-h"])));
    assert!(!wants_help(&strings(&["driver", "--helpful"])));
}

#[test]
fn help_text_names_version_and_toolchain() {
    let text = help_text("0.1.0", "nightly-2026-01-01");
    assert_eq!(
        text,
        format!("{HELP_HEAD}0.1.0{HELP_MIDDLE}nightly-2026-01-01{HELP_TAIL}")
    );
    assert!(text.starts_with("cargo-cgp-driver 0.1.0\n"));
}

#[test]
fn callbacks_stop_after_expansion_only_when_asked() {
    let plain = CgpCallbacks { expand: None };
    let (request, flow) = plain.after_expansion();
    assert!(request.is_none());
    assert!(flow == Compilation::Continue);
    let expanding = CgpCallbacks { expand: Some(ExpandRequest { output: "/o.rs".to_string() }) };
    let (request, flow) = expanding.after_expansion();
    assert_eq!(request.map(|r| r.output.clone()), Some("/o.rs".to_string()));
    assert!(flow == Compilation::Stop);
}

#[test]
fn cargo_wrapper_invocation_with_a_full_rustc_path() {
    let raw = strings(&[
        "cargo-cgp-driver",
        "/home/u/.rustup/toolchains/nightly/bin/rustc",
        "--crate-name",
        "foo",
        "src/lib.rs",
    ]);
    let out = rustc_args(raw, Some("/sr".to_string()), SYSROOT_FLAG, &[]);
    assert_eq!(out, strings(&["cargo-cgp-driver", "--crate-name", "foo", "src/lib.rs", "--sysroot", "/sr"]));
}

#[test]
fn cargo_version_probe_gets_no_injected_flag() {
    let raw = strings(&["cargo-cgp-driver", "/usr/bin/rustc", "-vV"]);
    let out = rustc_args(raw, None, SYSROOT_FLAG, &["-Znext-solver=globally", "--verbose"]);
    assert_eq!(out, strings(&["cargo-cgp-driver", "-vV"]));
}

#[test]
fn wrapper_mode_edge_cases() {
    assert!(is_wrapper_mode(&strings(&["cargo-cgp-driver", "/opt/toolchains/nightly/bin/rustc", "-vV"])));
    assert!(is_wrapper_mode(&strings(&["d", "rustc"])));
    assert!(is_wrapper_mode(&strings(&["d", "/x/rustc.exe"])));
    assert!(!is_wrapper_mode(&strings(&["d", "--version"])));
    assert!(!is_wrapper_mode(&strings(&["d", "/x/my-rustc"])));
    assert!(!is_wrapper_mode(&Vec::new()));
}

#[test]
fn rerunning_the_rewrite_adds_nothing() {
    let raw = strings(&["cargo-cgp-driver", "src/main.rs", "--crate-name", "app"]);
    let once = rustc_args(raw, Some("/sr".to_string()), SYSROOT_FLAG, &[NEXT_SOLVER_FLAG]);
    let twice = rustc_args(once.clone(), Some("/sr".to_string()), SYSROOT_FLAG, &[NEXT_SOLVER_FLAG]);
    assert_eq!(once, twice);
}
