use mica::path::{file_name, is_absolute, join};
use mica::pty::{
    after_read, after_write, build_argv, candidates, closing, decode_status, expand_tilde, foreground,
    forked, prepare, resolve_program, Child, ChildStep, Closing, ExitStatus, Failure, Forked,
    PtyConfig, PtyError, ReadStep, WriteStep, Waited, ATTEMPTS, ROOT_SHELL,
};
use mica::settings::ShellSettings;
use std::path::Path;

fn sh(cols: u16, rows: u16) -> PtyConfig {
    PtyConfig {
        program: b"/bin/sh".to_vec(),
        args: vec![b"sh".to_vec()],
        cwd: None,
        // A bare prompt keeps the output predictable across machines.
        env: vec![(b"PS1".to_vec(), b"".to_vec())],
        env_remove: vec![b"ENV".to_vec()],
        cols,
        rows,
    }
}

fn home() -> Option<Vec<u8>> {
    Some(b"/Users/me".to_vec())
}

/// The shell that the settings ask for, on a machine that has these paths.
fn configured(shell: &ShellSettings, programs: &[&str], directories: &[&str]) -> PtyConfig {
    let there = shell.program.as_deref().is_some_and(|p| programs.contains(&p));
    let is_dir = shell.starting_dir.as_deref().is_some_and(|d| {
        let dir = expand_tilde(d, &home());
        directories.iter().any(|p| p.as_bytes() == dir)
    });
    PtyConfig::for_shell_settings(80, 24, shell, Some(b"/bin/zsh".to_vec()), &home(), there, is_dir)
}

fn plain() -> PtyConfig {
    PtyConfig::for_login_shell(80, 24, Some(b"/bin/zsh".to_vec()))
}

#[test]
fn the_root_shell_exists_on_this_machine() {
    // The point of the constant is that this is the one path that is always
    // there.
    assert!(
        Path::new(ROOT_SHELL).exists(),
        "{ROOT_SHELL} is missing — the fallback shell must be a path POSIX guarantees"
    );
}

#[test]
fn an_absent_shell_variable_falls_back_to_the_root_shell() {
    let resolved = |shell: Option<&str>| -> Vec<u8> {
        PtyConfig::for_login_shell(80, 24, shell.map(|s| s.as_bytes().to_vec())).program
    };
    assert_eq!(resolved(None), b"/bin/sh");
    assert_eq!(resolved(Some("zsh")), b"/bin/sh", "a relative $SHELL is not a choice");
    assert_eq!(resolved(Some("/bin/bash")), b"/bin/bash");
}

#[test]
fn a_login_shell_is_named_with_a_leading_dash() {
    let config = plain();
    assert!(config.args[0].starts_with(b"-"), "a login shell needs the dash");
    assert_eq!(config.args, vec![b"-zsh".to_vec()]);
    assert!(is_absolute(&config.program));
    let tiny = PtyConfig::for_login_shell(0, 0, None);
    assert_eq!((tiny.cols, tiny.rows), (1, 1));
}

#[test]
fn an_absolute_existing_program_replaces_the_login_shell() {
    let shell = ShellSettings { program: Some(ROOT_SHELL.into()), ..Default::default() };
    let config = configured(&shell, &[ROOT_SHELL], &[]);
    assert_eq!(config.program, ROOT_SHELL.as_bytes());
    // Still a login shell: the leading `-` is what tells it so, and losing it
    // means the user's profile never runs.
    assert_eq!(config.args, vec![b"-sh".to_vec()]);
}

#[test]
fn a_program_that_is_not_there_falls_back_rather_than_breaking_the_terminal() {
    let shell = ShellSettings {
        program: Some("/usr/bin/definitely-not-a-shell".into()),
        ..Default::default()
    };
    assert_eq!(configured(&shell, &[], &[]).program, plain().program);
}

#[test]
fn a_relative_program_is_refused() {
    // Starting a program does not consult the search path, so a relative one
    // would fail where there is nowhere to report it.
    let shell = ShellSettings { program: Some("bash".into()), ..Default::default() };
    assert_eq!(configured(&shell, &["bash"], &[]).program, plain().program);
}

#[test]
fn a_starting_directory_expands_a_leading_tilde() {
    let shell = ShellSettings { starting_dir: Some("~".into()), ..Default::default() };
    assert_eq!(configured(&shell, &[], &["/Users/me"]).cwd, home());

    // `~otheruser` needs the password database and is deliberately not
    // expanded; it is simply not a directory, so it is refused.
    let shell = ShellSettings { starting_dir: Some("~nobody".into()), ..Default::default() };
    assert_eq!(configured(&shell, &[], &["/Users/me"]).cwd, None);
}

#[test]
fn a_starting_directory_that_is_not_a_directory_is_refused() {
    let shell = ShellSettings { starting_dir: Some("/etc/hosts".into()), ..Default::default() };
    assert_eq!(configured(&shell, &[], &["/etc"]).cwd, None);
}

#[test]
fn the_default_settings_change_nothing() {
    let configured = configured(&ShellSettings::default(), &[], &[]);
    assert_eq!(plain().program, configured.program);
    assert_eq!(plain().args, configured.args);
    assert_eq!(plain().cwd, configured.cwd);
}

#[test]
fn tildes_are_expanded_only_at_the_front() {
    assert_eq!(expand_tilde("~/Projects", &home()), b"/Users/me/Projects");
    assert_eq!(expand_tilde("~", &None), b"~");
    assert_eq!(expand_tilde("/a/~", &home()), b"/a/~");
    assert_eq!(expand_tilde("~/", &home()), b"/Users/me/");
    assert_eq!(expand_tilde("", &home()), b"");
}

#[test]
fn paths_join_and_end_as_the_system_has_it() {
    for (base, rest) in [("/a", "b"), ("/a/", "b"), ("", "b"), ("/a", "/b"), ("/a", ""), ("a/b", "../c")] {
        let expected = Path::new(base).join(rest);
        assert_eq!(join(base.as_bytes(), rest.as_bytes()), expected.to_str().unwrap().as_bytes());
    }
    for p in ["/bin/sh", "/bin/sh/", "sh", "/", "", ".", "..", "a/.", "a/..", "./a", "a//b//", "a/./.", "/.", "a/...", "..."] {
        let expected = Path::new(p).file_name().map(|n| n.to_str().unwrap().as_bytes().to_vec());
        assert_eq!(file_name(p.as_bytes()), expected, "{p:?}");
        assert_eq!(is_absolute(p.as_bytes()), Path::new(p).is_absolute(), "{p:?}");
    }
}

#[test]
fn environment_additions_reach_the_child() {
    let config = sh(97, 31).env(b"MICA_PROBE".to_vec(), b"present".to_vec());
    let inherited = vec![
        (b"HOME".to_vec(), b"/h".to_vec()),
        (b"ENV".to_vec(), b"x".to_vec()),
        (b"PS1".to_vec(), b"$ ".to_vec()),
        (b"MICA_PROBE".to_vec(), b"stale".to_vec()),
    ];
    let launch = prepare(&config, &inherited).unwrap();
    assert_eq!(
        launch.envp,
        vec![b"HOME=/h".to_vec(), b"PS1=".to_vec(), b"MICA_PROBE=present".to_vec()]
    );
    assert_eq!(launch.program, b"/bin/sh");
    assert_eq!(launch.argv, vec![b"sh".to_vec()]);
    assert_eq!(launch.cwd, None);
    assert_eq!((launch.cols, launch.rows), (97, 31));
}

#[test]
fn a_child_without_arguments_goes_by_its_programs_name() {
    let mut config = sh(80, 24);
    config.args.clear();
    assert_eq!(build_argv(&config), Ok(vec![b"sh".to_vec()]));
    config.program = b"/".to_vec();
    assert_eq!(build_argv(&config), Ok(vec![b"sh".to_vec()]));
}

#[test]
fn a_nul_is_refused_wherever_it_stands() {
    let inherited = vec![(b"A".to_vec(), b"1".to_vec())];
    let mut config = sh(80, 24);
    config.program = b"/bin/\0".to_vec();
    assert_eq!(prepare(&config, &inherited), Err(PtyError::Program));
    assert_eq!(PtyError::Program.message(), "program path contains a NUL");

    let mut config = sh(80, 24);
    config.args.push(b"a\0b".to_vec());
    assert_eq!(prepare(&config, &inherited), Err(PtyError::Text));
    assert_eq!(PtyError::Text.message(), "environment or argument contains a NUL");

    let config = sh(80, 24).env(b"K".to_vec(), b"\0".to_vec());
    assert_eq!(prepare(&config, &inherited), Err(PtyError::Text));

    let mut config = sh(80, 24);
    config.cwd = Some(b"/tmp\0".to_vec());
    assert_eq!(prepare(&config, &inherited), Err(PtyError::Directory));
    assert_eq!(PtyError::Directory.message(), "cwd contains a NUL");
}

#[test]
fn a_child_sets_itself_up_in_order() {
    let walk = |terminal: i32, has_directory: bool| {
        let mut steps = vec![ChildStep::NewSession];
        while *steps.last().unwrap() != ChildStep::Start {
            steps.push(steps.last().unwrap().after(false, terminal, has_directory));
        }
        steps
    };
    assert_eq!(
        walk(7, true),
        vec![
            ChildStep::NewSession,
            ChildStep::TakeTerminal,
            ChildStep::Input,
            ChildStep::Output,
            ChildStep::Errors,
            ChildStep::CloseTerminal,
            ChildStep::EnterDirectory,
            ChildStep::ResetSignals,
            ChildStep::Start,
        ]
    );
    // A terminal that is a standard stream already stays open.
    assert!(!walk(2, false).contains(&ChildStep::CloseTerminal));
    assert!(!walk(2, false).contains(&ChildStep::EnterDirectory));
}

#[test]
fn a_nonexistent_program_surfaces_as_exit_127() {
    assert_eq!(ChildStep::Start.after(true, 5, false), ChildStep::Quit(127));
    for step in [
        ChildStep::NewSession,
        ChildStep::TakeTerminal,
        ChildStep::Input,
        ChildStep::Output,
        ChildStep::Errors,
        ChildStep::EnterDirectory,
    ] {
        assert_eq!(step.after(true, 5, true), ChildStep::Quit(126));
    }
    assert_eq!(forked(-1), Forked::Failed);
    assert_eq!(forked(0), Forked::Child);
    assert_eq!(forked(41), Forked::Parent(41));
}

#[test]
fn an_exiting_child_is_reaped_with_its_status() {
    let mut child = Child::new(41);
    assert_eq!(child.polled(0, 0), Waited::Running);
    assert_eq!(child.waited(-1, 0, true), Waited::Again);
    assert_eq!(child.waited(-1, 0, false), Waited::Failed);
    assert_eq!(child.waited(41, 3 << 8, false), Waited::Ended(ExitStatus::Exited(3)));
    // A second wait must not block or error — the status is remembered.
    assert_eq!(child.polled(-1, 0), Waited::Ended(ExitStatus::Exited(3)));
    assert_eq!(child.waited(-1, 0, false), Waited::Ended(ExitStatus::Exited(3)));
    assert_eq!(Child::new(2).polled(-1, 0), Waited::Failed);
}

#[test]
fn statuses_are_decoded_from_their_bits() {
    assert_eq!(decode_status(0), ExitStatus::Exited(0));
    assert_eq!(decode_status(255 << 8), ExitStatus::Exited(255));
    assert_eq!(decode_status(9), ExitStatus::Signaled(9));
    // A core dump sets a bit of its own.
    assert_eq!(decode_status(0x80 | 11), ExitStatus::Signaled(11));
    assert_eq!(decode_status(3 << 8).code(), Some(3));
    assert_eq!(decode_status(15).code(), None);
}

#[test]
fn a_closed_child_reports_hangup_rather_than_hanging() {
    assert_eq!(after_read(12, Failure::Other), ReadStep::Output(12));
    assert_eq!(after_read(0, Failure::Other), ReadStep::Hangup);
    assert_eq!(after_read(-1, Failure::Closed), ReadStep::Hangup);
    assert_eq!(after_read(-1, Failure::Interrupted), ReadStep::Again);
    assert_eq!(after_read(-1, Failure::Other), ReadStep::Error);
}

#[test]
fn a_short_write_goes_on_where_it_stopped() {
    assert_eq!(after_write(0, 10, 4, Failure::Other), WriteStep::From(4));
    assert_eq!(after_write(4, 10, 6, Failure::Other), WriteStep::Done);
    assert_eq!(after_write(4, 10, -1, Failure::Interrupted), WriteStep::From(4));
    assert_eq!(after_write(4, 10, -1, Failure::Other), WriteStep::Error);
    assert_eq!(after_write(4, 10, -1, Failure::Closed), WriteStep::Error);
}

#[test]
fn a_child_that_ignores_the_hangup_is_killed() {
    assert_eq!(closing(1, Waited::Ended(ExitStatus::Exited(0))), Closing::Done);
    assert_eq!(closing(1, Waited::Failed), Closing::Done);
    assert_eq!(closing(1, Waited::Running), Closing::Look);
    assert_eq!(closing(ATTEMPTS - 1, Waited::Running), Closing::Look);
    assert_eq!(closing(ATTEMPTS, Waited::Running), Closing::Kill);
    assert_eq!(foreground(5), Some(5));
    assert_eq!(foreground(0), None);
    assert_eq!(foreground(-1), None);
}

#[test]
fn program_resolution_finds_a_real_binary_and_rejects_a_fake_one() {
    let path = Some(b"/usr/bin:/bin".to_vec());
    let is_file = |p: &Vec<u8>| Path::new(std::str::from_utf8(p).unwrap()).is_file();
    assert!(resolve_program(b"sh", &path, is_file).is_some());
    assert_eq!(resolve_program(b"mica-definitely-not-installed", &path, is_file), None);
    assert_eq!(resolve_program(b"/bin/sh", &path, is_file), Some(b"/bin/sh".to_vec()));
    assert_eq!(resolve_program(b"sh", &None, is_file), None);
}

#[test]
fn every_directory_of_the_search_path_is_tried_in_order() {
    let path = Some(b"/a::b/".to_vec());
    assert_eq!(
        candidates(b"x", &path),
        vec![b"/a/x".to_vec(), b"x".to_vec(), b"b/x".to_vec()]
    );
    assert_eq!(resolve_program(b"x", &path, |p| p.as_slice() == b"x" || p.as_slice() == b"b/x"), Some(b"x".to_vec()));
}
