use salmon_watch::cli::SetupOperation;
use salmon_watch::setup::{
    backup_report, check_executable, desktop_entry, desktop_exec_argument, executable_outcome,
    is_left_alone, is_under,
    needs_config_home, needs_data_home, render_desktop_entry_template, report, setup_steps,
    shell_argument, start_command, start_report, startup_error, validate_executable_path,
    validate_platform, written_result, FileResult, PathError, SetupError, SetupStep, Target,
};

#[test]
fn desktop_and_shell_arguments_are_escaped_like_the_old_client() {
    assert_eq!(
        desktop_exec_argument("a b%\"\\$`"),
        "\"a b%%\\\"\\\\\\\\\\\\$\\`\""
    );
    assert_eq!(shell_argument("/tmp/simple.yml"), "/tmp/simple.yml");
    assert_eq!(
        shell_argument("/tmp/custom config's.yml"),
        "'/tmp/custom config'\"'\"'s.yml'"
    );
}

#[test]
fn empty_arguments_are_quoted() {
    assert_eq!(shell_argument(""), "''");
    assert_eq!(desktop_exec_argument(""), "\"\"");
}

#[test]
fn desktop_template_requires_exactly_one_exec_placeholder() {
    assert_eq!(
        render_desktop_entry_template("before {{EXEC}} after", "command").unwrap(),
        "before command after"
    );
    assert!(render_desktop_entry_template("no placeholder", "command").is_err());
    assert!(render_desktop_entry_template("{{EXEC}} and {{EXEC}}", "command").is_err());
}

#[test]
fn template_refusals_are_told() {
    let missing = render_desktop_entry_template("", "command").unwrap_err();
    assert_eq!(missing, SetupError::PlaceholderMissing);
    assert_eq!(missing.message(), "desktop entry template is missing {{EXEC}}");
    let repeated = render_desktop_entry_template("{{EXEC}}{{EXEC}}", "command").unwrap_err();
    assert_eq!(repeated, SetupError::PlaceholderRepeated);
    assert_eq!(repeated.message(), "desktop entry template contains {EXEC} more than once");
}

#[test]
fn validates_platform_and_rejects_temporary_executables() {
    validate_platform("linux").unwrap();
    assert!(validate_platform("macos").unwrap_err().message().contains("macos"));
    assert!(validate_platform("windows").unwrap_err().message().contains("windows"));
    assert!(validate_executable_path("/tmp/build/salmon-watch", "/tmp")
        .unwrap_err()
        .message()
        .contains("temporary executable"));
    assert_eq!(
        validate_executable_path("/opt/salmon-watch", "/tmp").unwrap(),
        "/opt/salmon-watch"
    );
}

#[test]
fn only_whole_components_make_a_path_temporary() {
    assert!(check_executable("/tmpfiles/salmon-watch", "/tmp").is_ok());
    assert_eq!(
        check_executable("/tmp/salmon-watch", "/tmp"),
        Err(SetupError::TemporaryExecutable("/tmp/salmon-watch".into()))
    );
}

#[test]
fn paths_that_cannot_be_resolved_are_told() {
    let error = validate_executable_path("", "/tmp").unwrap_err();
    assert!(matches!(error, PathError::Executable(_)));
    assert!(error.message().starts_with("resolve executable: "));
    let error = validate_executable_path("/opt/salmon-watch", "").unwrap_err();
    assert!(matches!(error, PathError::TemporaryDirectory(_)));
    assert!(error.message().starts_with("resolve temporary directory: "));
}

#[test]
fn resolved_paths_decide_about_a_program() {
    let path = |text: &str| Ok(text.to_owned());
    let failed = |text: &str| Err(text.to_owned());
    assert_eq!(
        executable_outcome(path("/opt/a"), path("/tmp")).unwrap(),
        "/opt/a"
    );
    assert_eq!(
        executable_outcome(path("/tmp/a"), path("/tmp")),
        Err(PathError::Refused(SetupError::TemporaryExecutable("/tmp/a".into())))
    );
    assert_eq!(
        executable_outcome(failed("one"), failed("two")),
        Err(PathError::Executable("one".into()))
    );
    assert_eq!(
        executable_outcome(path("/opt/a"), failed("two")),
        Err(PathError::TemporaryDirectory("two".into()))
    );
}

#[test]
fn entries_start_the_program_with_its_configuration() {
    let template = "[Desktop Entry]\nExec={{EXEC}}\nTerminal=false\n";
    assert_eq!(
        desktop_entry(template, "/opt/Salmon Watch/salmon-watch", "/etc/c.yml", false).unwrap(),
        "[Desktop Entry]\nExec=\"/opt/Salmon Watch/salmon-watch\" --config \"/etc/c.yml\"\nTerminal=false\n"
    );
    assert!(desktop_entry(template, "/opt/salmon-watch", "/etc/c.yml", true)
        .unwrap()
        .contains("\"/etc/c.yml\" --start-hidden\n"));
}

#[test]
fn the_default_configuration_is_not_named() {
    assert_eq!(start_command("/opt/salmon-watch", "/etc/c.yml", true), "/opt/salmon-watch");
    assert_eq!(
        start_command("/opt/salmon watch", "/etc/c.yml", false),
        "'/opt/salmon watch' --config /etc/c.yml"
    );
}

fn install(target: Target, replace: bool) -> SetupStep {
    SetupStep::Install { target, replace }
}

#[test]
fn complete_setup_writes_everything_in_order() {
    assert_eq!(
        setup_steps(SetupOperation::Complete, false),
        [
            install(Target::Configuration, false),
            SetupStep::Prepare,
            install(Target::AutostartEntry, false),
            install(Target::ApplicationIcon, false),
            install(Target::Launcher, false),
            SetupStep::TellStart,
        ]
    );
}

#[test]
fn reinstalling_backs_up_before_it_replaces() {
    assert_eq!(
        setup_steps(SetupOperation::Complete, true),
        [
            install(Target::Configuration, false),
            SetupStep::Prepare,
            SetupStep::BackUp(vec![
                Target::AutostartEntry,
                Target::Launcher,
                Target::ApplicationIcon
            ]),
            install(Target::AutostartEntry, true),
            install(Target::ApplicationIcon, true),
            install(Target::Launcher, true),
            SetupStep::TellStart,
        ]
    );
}

#[test]
fn single_operations_write_only_their_own_files() {
    assert_eq!(
        setup_steps(SetupOperation::CreateConfig, true),
        [install(Target::Configuration, false)]
    );
    assert_eq!(
        setup_steps(SetupOperation::InstallAutostart, false),
        [SetupStep::Prepare, install(Target::AutostartEntry, false)]
    );
    assert_eq!(
        setup_steps(SetupOperation::InstallLauncher, false),
        [
            SetupStep::Prepare,
            install(Target::ApplicationIcon, false),
            install(Target::Launcher, false),
        ]
    );
    assert!(needs_config_home(SetupOperation::InstallAutostart));
    assert!(!needs_config_home(SetupOperation::InstallLauncher));
    assert!(needs_data_home(SetupOperation::InstallLauncher));
    assert!(!needs_data_home(SetupOperation::CreateConfig));
}

#[test]
fn files_are_left_alone_unless_replaced() {
    assert!(is_left_alone(false, true));
    assert!(!is_left_alone(true, true));
    assert!(!is_left_alone(false, false));
    assert_eq!(written_result(true), FileResult::Reinstalled);
    assert_eq!(written_result(false), FileResult::Created);
}

#[test]
fn reports_tell_what_happened_to_each_file() {
    assert_eq!(
        report(Target::Configuration, "/c.yml", FileResult::Created),
        "Created configuration at /c.yml"
    );
    assert_eq!(
        report(Target::AutostartEntry, "/a", FileResult::Preserved),
        "Desktop autostart entry already exists at /a; leaving it unchanged"
    );
    assert_eq!(
        report(Target::ApplicationIcon, "/i", FileResult::Reinstalled),
        "Reinstalled application icon at /i"
    );
    assert_eq!(
        report(Target::Launcher, "/l", FileResult::Preserved),
        "Application launcher already exists at /l; leaving it unchanged"
    );
    assert_eq!(backup_report("/b"), "Backed up files that will be replaced to /b");
    assert!(start_report("salmon-watch").ends_with("To start it now, run:\n\n    salmon-watch"));
    assert_eq!(Target::Configuration.relative_path(), None);
    assert_eq!(Target::Launcher.relative_path(), Some("applications/salmon-watch.desktop"));
    assert_eq!(Target::ApplicationIcon.relative_path(), Some("icons/salmon-watch.svg"));
}

#[test]
fn a_missing_default_configuration_suggests_setup() {
    let message = startup_error("no file", "/opt/salmon watch", true, true);
    assert!(message.starts_with("no file\n\nHint: "));
    assert!(message.contains("\n\n    '/opt/salmon watch' setup\n\n"));
    assert!(message.ends_with("\n\n    '/opt/salmon watch' setup create-config"));
    assert_eq!(startup_error("no file", "salmon-watch", true, false), "no file");
    assert_eq!(startup_error("bad file", "salmon-watch", false, true), "bad file");
}

#[test]
fn paths_are_compared_by_their_components() {
    for (path, base) in [
        ("/tmp/a", "/tmp"),
        ("/tmp/a", "/tmp/"),
        ("/tmp//a", "/tmp/./a"),
        ("/tmp", "/"),
        ("a/b", "a"),
        ("a", ""),
        ("./a", "."),
    ] {
        assert!(is_under(path, base), "{path} {base}");
        assert!(std::path::Path::new(path).starts_with(base), "{path} {base}");
    }
    for (path, base) in [("/tmpa", "/tmp"), ("/a", "a"), ("a", "/"), ("/", "/a"), ("a", "./a")] {
        assert!(!is_under(path, base), "{path} {base}");
        assert!(!std::path::Path::new(path).starts_with(base), "{path} {base}");
    }
}
