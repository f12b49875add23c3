use shlibdeps::error::ResolveError;
use shlibdeps::invoker::{
    analyzer_args, analyzer_options, check_outcome, library_search_arg, resolve_outcome,
    AnalyzerOutput, ANALYZER, SCAFFOLD_DIR, SCAFFOLD_FILE,
};
use std::io::{Error, ErrorKind};

fn ran(exit_code: Option<i32>, stdout: &[u8], stderr: &[u8]) -> AnalyzerOutput {
    AnalyzerOutput { exit_code, stdout: stdout.to_vec(), stderr: stderr.to_vec() }
}

#[test]
fn arguments_without_a_triple() {
    assert_eq!(analyzer_args("target/release/app", None), vec!["-O", "target/release/app"]);
    assert_eq!(analyzer_options(None), vec!["-O"]);
}

#[test]
fn arguments_with_a_triple() {
    assert_eq!(
        analyzer_args("target/release/app", Some("aarch64-linux-gnu")),
        vec!["-O", "-l/usr/lib/aarch64-linux-gnu", "target/release/app"]
    );
    assert_eq!(
        analyzer_options(Some("x86_64-linux-gnu")),
        vec!["-O", "-l/usr/lib/x86_64-linux-gnu"]
    );
}

#[test]
fn library_search_argument_names_the_architecture_directory() {
    assert_eq!(library_search_arg("arm-linux-gnueabihf"), "-l/usr/lib/arm-linux-gnueabihf");
    assert_eq!(library_search_arg(""), "-l/usr/lib/");
}

#[test]
fn binary_is_the_last_argument_whatever_it_looks_like() {
    let args = analyzer_args("-l/odd name", Some("i386-linux-gnu"));
    assert_eq!(args.len(), 3);
    assert_eq!(args[2], "-l/odd name");
}

#[test]
fn fixed_names() {
    assert_eq!(ANALYZER, "dpkg-shlibdeps");
    assert_eq!(SCAFFOLD_DIR, "debian");
    assert_eq!(SCAFFOLD_FILE, "control");
}

#[test]
fn success_is_exit_code_zero() {
    assert!(ran(Some(0), b"", b"").success());
    assert!(!ran(Some(1), b"", b"").success());
    assert!(!ran(Some(-1), b"", b"").success());
    assert!(!ran(None, b"", b"").success());
}

#[test]
fn analyzer_that_cannot_be_started_is_a_spawn_error() {
    let result = resolve_outcome("bin/app", Err(Error::from(ErrorKind::NotFound)));
    match result {
        Err(ResolveError::CommandFailed(cause, program)) => {
            assert_eq!(cause.kind(), ErrorKind::NotFound);
            assert_eq!(program, "dpkg-shlibdeps");
        }
        other => panic!("{other:?}"),
    }
    let denied = check_outcome("bin/app", Err(Error::from(ErrorKind::PermissionDenied)));
    match denied {
        Err(ResolveError::CommandFailed(cause, program)) => {
            assert_eq!(cause.kind(), ErrorKind::PermissionDenied);
            assert_eq!(program, "dpkg-shlibdeps");
        }
        other => panic!("{other:?}"),
    }
}

#[test]
fn analyzer_that_fails_is_reported_with_its_stderr() {
    let output = b"shlibs:Depends=libc6\n";
    let failed = ran(Some(2), output, b"dpkg-shlibdeps: error: \xff");
    let result = resolve_outcome("bin/app", Ok(failed));
    match result {
        Err(ResolveError::CommandError(program, target, stderr)) => {
            assert_eq!(program, "dpkg-shlibdeps");
            assert_eq!(target, "bin/app");
            assert_eq!(stderr, b"dpkg-shlibdeps: error: \xff".to_vec());
        }
        other => panic!("{other:?}"),
    }
    assert!(matches!(
        resolve_outcome("bin/app", Ok(ran(None, output, b""))),
        Err(ResolveError::CommandError("dpkg-shlibdeps", _, _))
    ));
}

#[test]
fn successful_run_hands_over_its_output() {
    let stdout = check_outcome("bin/app", Ok(ran(Some(0), b"shlibs:Depends=libc6\n", b"warning")));
    assert_eq!(stdout.unwrap(), b"shlibs:Depends=libc6\n".to_vec());
}

#[test]
fn successful_run_gives_the_dependency_list() {
    let output = b"shlibs:Depends=libc6 (>= 2.34), libgcc-s1 (>= 3.0), libssl3 (>= 3.0.0)\n";
    let deps = resolve_outcome("bin/app", Ok(ran(Some(0), output, b"warning: ignored"))).unwrap();
    assert_eq!(deps, vec!["libc6 (>= 2.34)", "libssl3 (>= 3.0.0)"]);
    assert!(deps.iter().any(|d| d.starts_with("libc")));
    assert!(!deps.iter().any(|d| d.starts_with("libgcc")), "{deps:?}");
}

#[test]
fn successful_run_without_tagged_line_is_a_format_error() {
    let result = resolve_outcome("bin/app", Ok(ran(Some(0), b"shlibs:Pre-Depends=libc6\n", b"")));
    assert!(matches!(
        result,
        Err(ResolveError::Format("Failed to find dependency specification."))
    ));
}

#[test]
fn operating_system_error_becomes_an_io_error() {
    let error = ResolveError::from(Error::from(ErrorKind::AlreadyExists));
    match error {
        ResolveError::Io(cause) => assert_eq!(cause.kind(), ErrorKind::AlreadyExists),
        other => panic!("{other:?}"),
    }
}

#[test]
fn runs_on_different_binaries_are_told_apart() {
    let first = resolve_outcome("bin/one", Ok(ran(Some(0), b"shlibs:Depends=liba\n", b"")));
    let second = resolve_outcome("bin/two", Ok(ran(Some(1), b"shlibs:Depends=libb\n", b"two")));
    assert_eq!(first.unwrap(), vec!["liba"]);
    match second {
        Err(ResolveError::CommandError(_, target, stderr)) => {
            assert_eq!(target, "bin/two");
            assert_eq!(stderr, b"two".to_vec());
        }
        other => panic!("{other:?}"),
    }
}
