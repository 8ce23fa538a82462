//! The files that make the program part of the desktop.

use vstd::prelude::*;
use vstd::string::*;

use crate::cli::SetupOperation;
use crate::text::{backward_searches_find_the_last, chars_of, copy_of, find_from, first_at, joined,
    parts_make_the_text_again, same_text, searches_find_the_first, slice_of, split_on, split_text,
    stands_at, text_of, texts_are_split_before_their_last_part, Text};

verus! {

// ---------------------------------------------------------------------------------------------
// Escaping
// ---------------------------------------------------------------------------------------------

/// A character of an argument, as it stands in the command of a desktop entry.
pub open spec fn desktop_char(ch: char) -> Text {
    if ch == '\\' {
        seq!['\\', '\\', '\\', '\\']
    } else if ch == '"' || ch == '`' {
        seq!['\\', ch]
    } else if ch == '$' {
        seq!['\\', '\\', '$']
    } else if ch == '%' {
        seq!['%', '%']
    } else {
        seq![ch]
    }
}

/// A character of an argument, as it stands between single quotes in a shell command.
pub open spec fn shell_char(ch: char) -> Text {
    if ch == '\'' {
        seq!['\'', '"', '\'', '"', '\'']
    } else {
        seq![ch]
    }
}

/// A text with each character replaced.
pub open spec fn replaced(text: Text, map: spec_fn(char) -> Text) -> Text
    decreases text.len(),
{
    if text.len() == 0 {
        Seq::empty()
    } else {
        replaced(text.drop_last(), map) + map(text.last())
    }
}

/// An argument, as it stands in the command of a desktop entry.
pub open spec fn desktop_quoted(argument: Text) -> Text {
    seq!['"'] + replaced(argument, |ch: char| desktop_char(ch)) + seq!['"']
}

/// An argument, as it stands in the command of a desktop entry.
pub fn desktop_exec_argument(argument: &str) -> (quoted: String)
    ensures
        quoted@ == desktop_quoted(argument@),
{
    let chars = chars_of(argument);
    let ghost map = |ch: char| desktop_char(ch);
    let mut output: Vec<char> = Vec::new();
    output.push('"');
    let mut i: usize = 0;
    assert(output@ =~= seq!['"'] + replaced(chars@.take(0), map));
    while i < chars.len()
        invariant
            i <= chars.len(),
            map == (|ch: char| desktop_char(ch)),
            output@ == seq!['"'] + replaced(chars@.take(i as int), map),
        decreases chars.len() - i,
    {
        let ch: char = chars[i];
        let ghost before = output@;
        if ch == '\\' {
            output.push('\\');
            output.push('\\');
            output.push('\\');
            output.push('\\');
        } else if ch == '"' || ch == '`' {
            output.push('\\');
            output.push(ch);
        } else if ch == '$' {
            output.push('\\');
            output.push('\\');
            output.push('$');
        } else if ch == '%' {
            output.push('%');
            output.push('%');
        } else {
            output.push(ch);
        }
        assert(output@ =~= before + desktop_char(ch));
        assert(chars@.take(i + 1).drop_last() =~= chars@.take(i as int));
        assert(output@ =~= seq!['"'] + replaced(chars@.take(i + 1), map));
        i += 1;
    }
    assert(chars@.take(i as int) =~= chars@);
    output.push('"');
    assert(output@ =~= desktop_quoted(argument@));
    text_of(output.as_slice())
}

/// The characters that stand for themselves in a shell command.
pub open spec fn is_plain(ch: char) -> bool {
    ||| 'a' <= ch <= 'z'
    ||| 'A' <= ch <= 'Z'
    ||| '0' <= ch <= '9'
    ||| ch == '_'
    ||| ch == '@'
    ||| ch == '%'
    ||| ch == '+'
    ||| ch == '='
    ||| ch == ':'
    ||| ch == ','
    ||| ch == '.'
    ||| ch == '/'
    ||| ch == '-'
}

fn is_plain_char(ch: char) -> (plain: bool)
    ensures
        plain == is_plain(ch),
{
    ('a' <= ch && ch <= 'z') || ('A' <= ch && ch <= 'Z') || ('0' <= ch && ch <= '9') || ch == '_'
        || ch == '@' || ch == '%' || ch == '+' || ch == '=' || ch == ':' || ch == ',' || ch == '.'
        || ch == '/' || ch == '-'
}

/// Whether an argument needs no quotes in a shell command.
pub open spec fn needs_no_quotes(argument: Text) -> bool {
    argument.len() > 0 && forall|i: int|
        0 <= i < argument.len() ==> is_plain(#[trigger] argument[i])
}

/// An argument, as it stands in a shell command.
pub open spec fn shell_quoted(argument: Text) -> Text {
    if needs_no_quotes(argument) {
        argument
    } else {
        seq!['\''] + replaced(argument, |ch: char| shell_char(ch)) + seq!['\'']
    }
}

/// An argument, as it stands in a shell command.
pub fn shell_argument(argument: &str) -> (quoted: String)
    ensures
        quoted@ == shell_quoted(argument@),
{
    let chars = chars_of(argument);
    let mut plain = chars.len() > 0;
    let mut i: usize = 0;
    while i < chars.len()
        invariant
            i <= chars.len(),
            plain == (chars.len() > 0 && forall|j: int|
                0 <= j < i ==> is_plain(#[trigger] chars@[j])),
        decreases chars.len() - i,
    {
        if !is_plain_char(chars[i]) {
            plain = false;
        }
        i += 1;
    }
    if plain {
        return copy_of(argument);
    }
    let ghost map = |ch: char| shell_char(ch);
    let mut output: Vec<char> = Vec::new();
    output.push('\'');
    let mut i: usize = 0;
    assert(output@ =~= seq!['\''] + replaced(chars@.take(0), map));
    while i < chars.len()
        invariant
            i <= chars.len(),
            map == (|ch: char| shell_char(ch)),
            output@ == seq!['\''] + replaced(chars@.take(i as int), map),
        decreases chars.len() - i,
    {
        let ch: char = chars[i];
        let ghost before = output@;
        if ch == '\'' {
            output.push('\'');
            output.push('"');
            output.push('\'');
            output.push('"');
            output.push('\'');
        } else {
            output.push(ch);
        }
        assert(output@ =~= before + shell_char(ch));
        assert(chars@.take(i + 1).drop_last() =~= chars@.take(i as int));
        assert(output@ =~= seq!['\''] + replaced(chars@.take(i + 1), map));
        i += 1;
    }
    assert(chars@.take(i as int) =~= chars@);
    output.push('\'');
    assert(output@ =~= shell_quoted(argument@));
    text_of(output.as_slice())
}

// ---------------------------------------------------------------------------------------------
// Desktop entries
// ---------------------------------------------------------------------------------------------

/// What stands for the command in the template of a desktop entry.
pub const DESKTOP_EXEC_PLACEHOLDER: &'static str = "{{EXEC}}";

/// Why the desktop cannot be set up.
#[derive(Debug, PartialEq, Eq)]
pub enum SetupError {
    /// The platform has no setup.
    Platform(String),
    /// The program lies in the directory for temporary files.
    TemporaryExecutable(String),
    /// The template has no place for the command.
    PlaceholderMissing,
    /// The template has more than one place for the command.
    PlaceholderRepeated,
}

impl SetupError {
    /// The words for why the desktop cannot be set up.
    pub open spec fn words(self) -> Text {
        match self {
            SetupError::Platform(os) => "salmon-watch setup is not implemented on this platform ("@
                + os@ + ")"@,
            SetupError::TemporaryExecutable(path) =>
                "refusing to install from temporary executable "@ + path@,
            SetupError::PlaceholderMissing => "desktop entry template is missing {{EXEC}}"@,
            SetupError::PlaceholderRepeated =>
                "desktop entry template contains {EXEC} more than once"@,
        }
    }

    /// The words for why the desktop cannot be set up.
    pub fn message(&self) -> (message: String)
        ensures
            message@ == self.words(),
    {
        match self {
            SetupError::Platform(os) => joined(
                "salmon-watch setup is not implemented on this platform (",
                os.as_str(),
            ).concat(")"),
            SetupError::TemporaryExecutable(path) => joined(
                "refusing to install from temporary executable ",
                path.as_str(),
            ),
            SetupError::PlaceholderMissing =>
                "desktop entry template is missing {{EXEC}}".to_owned(),
            SetupError::PlaceholderRepeated =>
                "desktop entry template contains {EXEC} more than once".to_owned(),
        }
    }
}

/// Whether a platform has a setup.
pub fn validate_platform(os: &str) -> (outcome: Result<(), SetupError>)
    ensures
        outcome is Ok <==> os@ == "linux"@,
        outcome matches Err(error) ==> (error matches SetupError::Platform(name) && name@ == os@),
{
    if same_text(os, "linux") {
        Ok(())
    } else {
        Err(SetupError::Platform(copy_of(os)))
    }
}

/// Where the command goes in a template.
pub open spec fn placeholder_at(template: Text, from: int) -> Option<int> {
    first_at(template, DESKTOP_EXEC_PLACEHOLDER@, from)
}

/// Puts a command into the template of a desktop entry, which has exactly one place for it.
pub fn render_desktop_entry_template(template: &str, command: &str) -> (outcome: Result<
    String,
    SetupError,
>)
    ensures
        match placeholder_at(template@, 0) {
            None => outcome matches Err(error) && error is PlaceholderMissing,
            Some(at) => {
                let after = at + DESKTOP_EXEC_PLACEHOLDER@.len();
                if placeholder_at(template@, after) is Some {
                    outcome matches Err(error) && error is PlaceholderRepeated
                } else {
                    outcome matches Ok(entry) && entry@ == template@.take(at) + command@
                        + template@.skip(after)
                }
            },
        },
{
    let chars = chars_of(template);
    let placeholder = chars_of(DESKTOP_EXEC_PLACEHOLDER);
    match find_from(&chars, &placeholder, 0) {
        None => Err(SetupError::PlaceholderMissing),
        Some(at) => {
            assert(at + placeholder.len() <= chars.len());
            let after: usize = at + placeholder.len();
            if find_from(&chars, &placeholder, after).is_some() {
                return Err(SetupError::PlaceholderRepeated);
            }
            let before_text = slice_of(&chars, 0, at);
            let after_text = slice_of(&chars, after, chars.len());
            assert(before_text@ =~= template@.take(at as int));
            assert(after_text@ =~= template@.skip(after as int));
            Ok(before_text.concat(command).concat(after_text.as_str()))
        },
    }
}

/// The command of a desktop entry.
pub open spec fn desktop_command(executable: Text, config_filename: Text, hidden: bool) -> Text {
    let command = desktop_quoted(executable) + " --config "@ + desktop_quoted(config_filename);
    if hidden {
        command + " --start-hidden"@
    } else {
        command
    }
}

/// The command of a desktop entry.
pub fn desktop_command_text(executable: &str, config_filename: &str, start_hidden: bool) -> (command:
    String)
    ensures
        command@ == desktop_command(executable@, config_filename@, start_hidden),
{
    let config = desktop_exec_argument(config_filename);
    let command = desktop_exec_argument(executable).concat(" --config ").concat(config.as_str());
    if start_hidden {
        command.concat(" --start-hidden")
    } else {
        command
    }
}

/// A desktop entry that starts the program with a configuration.
pub fn desktop_entry(
    template: &str,
    executable: &str,
    config_filename: &str,
    start_hidden: bool,
) -> (outcome: Result<String, SetupError>)
    ensures
        match placeholder_at(template@, 0) {
            None => outcome matches Err(error) && error is PlaceholderMissing,
            Some(at) => {
                let after = at + DESKTOP_EXEC_PLACEHOLDER@.len();
                if placeholder_at(template@, after) is Some {
                    outcome matches Err(error) && error is PlaceholderRepeated
                } else {
                    outcome matches Ok(entry) && entry@ == template@.take(at) + desktop_command(
                        executable@,
                        config_filename@,
                        start_hidden,
                    ) + template@.skip(after)
                }
            },
        },
{
    let command = desktop_command_text(executable, config_filename, start_hidden);
    render_desktop_entry_template(template, command.as_str())
}

/// The shell command that starts the program.
pub open spec fn start_words(executable: Text, config_filename: Text, is_default: bool) -> Text {
    if is_default {
        shell_quoted(executable)
    } else {
        shell_quoted(executable) + " --config "@ + shell_quoted(config_filename)
    }
}

/// The shell command that starts the program. The default configuration need not be named.
pub fn start_command(executable: &str, config_filename: &str, is_default: bool) -> (command: String)
    ensures
        command@ == start_words(executable@, config_filename@, is_default),
{
    let program = shell_argument(executable);
    if is_default {
        program
    } else {
        let config = shell_argument(config_filename);
        program.concat(" --config ").concat(config.as_str())
    }
}

// ---------------------------------------------------------------------------------------------
// Paths
// ---------------------------------------------------------------------------------------------

/// Whether a part between two slashes is a component of a path: it is not empty, and it is `.` at
/// the start of the path only.
pub open spec fn is_component(parts: Seq<Text>, at: int) -> bool {
    parts[at].len() > 0 && (parts[at] != "."@ || at == 0)
}

/// The first components of a path that consists of these parts.
pub open spec fn components_before(parts: Seq<Text>, end: int) -> Seq<Text>
    decreases end,
{
    if end <= 0 {
        Seq::empty()
    } else {
        let before = components_before(parts, end - 1);
        if is_component(parts, end - 1) {
            before.push(parts[end - 1])
        } else {
            before
        }
    }
}

/// The components of a path.
pub open spec fn components(path: Text) -> Seq<Text> {
    let parts = split_on(path, '/');
    components_before(parts, parts.len() as int)
}

/// Whether a path starts at the root.
pub open spec fn is_rooted(path: Text) -> bool {
    path.len() > 0 && path[0] == '/'
}

/// Whether a path starts with another: they start at the same place, and the components of the
/// one are the first components of the other.
pub open spec fn path_starts_with(path: Text, base: Text) -> bool {
    is_rooted(path) == is_rooted(base) && components(base).is_prefix_of(components(path))
}

fn components_of(path: &str) -> (found: Vec<String>)
    ensures
        found.deep_view() == components(path@),
{
    let parts = split_text(path, '/');
    let ghost all = parts.deep_view();
    let mut found: Vec<String> = Vec::new();
    let mut i: usize = 0;
    assert(found.deep_view() =~= components_before(all, 0));
    while i < parts.len()
        invariant
            all == parts.deep_view(),
            i <= parts.len(),
            found.deep_view() == components_before(all, i as int),
        decreases parts.len() - i,
    {
        let part = &parts[i];
        assert(all[i as int] == part@);
        if !part.as_str().is_empty() && (i == 0 || !same_text(part.as_str(), ".")) {
            let ghost before = found.deep_view();
            found.push(copy_of(part.as_str()));
            assert(found.deep_view() =~= before.push(part@));
        }
        i += 1;
    }
    assert(all.len() == parts.len());
    found
}

fn starts_at_root(path: &str) -> (rooted: bool)
    ensures
        rooted == is_rooted(path@),
{
    let chars = chars_of(path);
    chars.len() > 0 && chars[0] == '/'
}

/// Tests whether a path starts with another. Whole components are compared, not characters.
pub fn is_under(path: &str, base: &str) -> (under: bool)
    ensures
        under == path_starts_with(path@, base@),
{
    if starts_at_root(path) != starts_at_root(base) {
        return false;
    }
    let path_parts = components_of(path);
    let base_parts = components_of(base);
    assert(path_parts.deep_view().len() == path_parts.len());
    assert(base_parts.deep_view().len() == base_parts.len());
    if base_parts.len() > path_parts.len() {
        return false;
    }
    let ghost outer = path_parts.deep_view();
    let ghost inner = base_parts.deep_view();
    let mut i: usize = 0;
    while i < base_parts.len()
        invariant
            outer == path_parts.deep_view(),
            inner == base_parts.deep_view(),
            outer == components(path@),
            inner == components(base@),
            inner.len() == base_parts.len(),
            outer.len() == path_parts.len(),
            i <= base_parts.len() <= path_parts.len(),
            forall|j: int| 0 <= j < i ==> #[trigger] outer[j] == inner[j],
        decreases base_parts.len() - i,
    {
        assert(outer[i as int] == path_parts@[i as int]@);
        assert(inner[i as int] == base_parts@[i as int]@);
        if !same_text(path_parts[i].as_str(), base_parts[i].as_str()) {
            assert(outer.subrange(0, inner.len() as int)[i as int] != inner[i as int]);
            return false;
        }
        i += 1;
    }
    assert(inner =~= outer.subrange(0, inner.len() as int));
    true
}

/// Resolves a path with `std::path::absolute`. It may start at the current directory, so of the
/// path that comes back nothing more is claimed than that it is not empty, as no absolute path
/// is; an empty path is refused. The words of an error are those of the operating system.
#[verifier::external_body]
pub(crate) fn absolute_path(path: &str) -> (resolved: Result<String, String>)
    ensures
        path@.len() == 0 ==> resolved is Err,
        resolved matches Ok(found) ==> found@.len() > 0,
{
    std::path::absolute(path).map(|resolved| resolved.to_string_lossy().into_owned()).map_err(
        |error| error.to_string(),
    )
}

/// Refuses a program that lies in the directory for temporary files. Both paths are absolute.
pub fn check_executable(executable: &str, temporary_directory: &str) -> (outcome: Result<
    (),
    SetupError,
>)
    ensures
        outcome is Err <==> path_starts_with(executable@, temporary_directory@),
        outcome matches Err(error) ==> (error matches SetupError::TemporaryExecutable(path)
            && path@ == executable@),
{
    if is_under(executable, temporary_directory) {
        Err(SetupError::TemporaryExecutable(copy_of(executable)))
    } else {
        Ok(())
    }
}

/// Why a program cannot be installed.
#[derive(Debug, PartialEq, Eq)]
pub enum PathError {
    /// Its path cannot be resolved, with the words for why.
    Executable(String),
    /// The path of the directory for temporary files cannot be resolved, with the words for why.
    TemporaryDirectory(String),
    Refused(SetupError),
}

impl PathError {
    /// The words for why a program cannot be installed.
    pub open spec fn words(self) -> Text {
        match self {
            PathError::Executable(words) => "resolve executable: "@ + words@,
            PathError::TemporaryDirectory(words) => "resolve temporary directory: "@ + words@,
            PathError::Refused(error) => error.words(),
        }
    }

    /// The words for why a program cannot be installed.
    pub fn message(&self) -> (message: String)
        ensures
            message@ == self.words(),
    {
        match self {
            PathError::Executable(words) => joined("resolve executable: ", words.as_str()),
            PathError::TemporaryDirectory(words) => joined(
                "resolve temporary directory: ",
                words.as_str(),
            ),
            PathError::Refused(error) => error.message(),
        }
    }
}

/// What a path that was to be resolved came to: the path or the words for why there is none.
pub open spec fn resolution_view(resolved: Result<String, String>) -> Result<Text, Text> {
    match resolved {
        Ok(path) => Ok(path@),
        Err(words) => Err(words@),
    }
}

/// Whether this comes of a program and a directory for temporary files, once both paths were
/// resolved. The program is told first where neither could be.
pub open spec fn is_executable_outcome(
    outcome: Result<String, PathError>,
    executable: Result<Text, Text>,
    temporary_directory: Result<Text, Text>,
) -> bool {
    match (executable, temporary_directory) {
        (Err(words), _) => outcome matches Err(PathError::Executable(told)) && told@ == words,
        (_, Err(words)) => outcome matches Err(PathError::TemporaryDirectory(told)) && told@
            == words,
        (Ok(path), Ok(directory)) => if path_starts_with(path, directory) {
            outcome matches Err(PathError::Refused(SetupError::TemporaryExecutable(told))) && told@
                == path
        } else {
            outcome matches Ok(told) && told@ == path
        },
    }
}

/// Decides about a program, given what resolving its path and that of the directory for temporary
/// files came to.
pub fn executable_outcome(
    executable: Result<String, String>,
    temporary_directory: Result<String, String>,
) -> (outcome: Result<String, PathError>)
    ensures
        is_executable_outcome(
            outcome,
            resolution_view(executable),
            resolution_view(temporary_directory),
        ),
{
    let path = match executable {
        Ok(path) => path,
        Err(words) => {
            return Err(PathError::Executable(words));
        },
    };
    let directory = match temporary_directory {
        Ok(directory) => directory,
        Err(words) => {
            return Err(PathError::TemporaryDirectory(words));
        },
    };
    match check_executable(path.as_str(), directory.as_str()) {
        Ok(()) => Ok(path),
        Err(error) => Err(PathError::Refused(error)),
    }
}

/// Resolves the path of a program, and refuses one in the directory for temporary files. What the
/// two paths are resolved to rests on the current directory and the platform; what comes of it
/// does not.
pub fn validate_executable_path(executable: &str, temporary_directory: &str) -> (outcome: Result<
    String,
    PathError,
>)
    ensures
        exists|resolved: Result<Text, Text>, temporary: Result<Text, Text>| #[trigger]
            is_executable_outcome(outcome, resolved, temporary) && (executable@.len() == 0
                ==> resolved is Err) && (temporary_directory@.len() == 0 ==> temporary is Err) && (
            resolved matches Ok(path) ==> path.len() > 0),
{
    let resolved = absolute_path(executable);
    let temporary = absolute_path(temporary_directory);
    let ghost found = (resolution_view(resolved), resolution_view(temporary));
    let outcome = executable_outcome(resolved, temporary);
    assert(is_executable_outcome(outcome, found.0, found.1));
    outcome
}

// ---------------------------------------------------------------------------------------------
// Steps
// ---------------------------------------------------------------------------------------------

/// A file that setup writes.
#[derive(Clone, Copy, Debug, PartialEq, Eq, Structural)]
pub enum Target {
    Configuration,
    AutostartEntry,
    ApplicationIcon,
    Launcher,
}

/// What writing a file came to.
#[derive(Clone, Copy, Debug, PartialEq, Eq, Structural)]
pub enum FileResult {
    Created,
    Preserved,
    Reinstalled,
}

/// One step of setup.
#[derive(Debug, PartialEq, Eq)]
pub enum SetupStep {
    /// Write a file; one that exists is replaced or left alone.
    Install { target: Target, replace: bool },
    /// Resolve the paths, load the configuration and render the desktop entries. If any of it
    /// fails, setup ends.
    Prepare,
    /// Copy those of the files that exist to a new private directory. If that fails, setup ends.
    BackUp(Vec<Target>),
    /// Tell how to start the program.
    TellStart,
}

/// What a [`SetupStep`] says.
#[verifier::ext_equal]
pub enum StepModel {
    Install { target: Target, replace: bool },
    Prepare,
    BackUp(Seq<Target>),
    TellStart,
}

impl View for SetupStep {
    type V = StepModel;

    open spec fn view(&self) -> StepModel {
        match self {
            SetupStep::Install { target, replace } => StepModel::Install {
                target: *target,
                replace: *replace,
            },
            SetupStep::Prepare => StepModel::Prepare,
            SetupStep::BackUp(targets) => StepModel::BackUp(targets@),
            SetupStep::TellStart => StepModel::TellStart,
        }
    }
}

impl DeepView for SetupStep {
    type V = StepModel;

    open spec fn deep_view(&self) -> StepModel {
        self.view()
    }
}

/// Whether an operation writes the configuration.
pub open spec fn creates_config(operation: SetupOperation) -> bool {
    operation is Complete || operation is CreateConfig
}

/// Whether an operation writes the entry that starts the program with the desktop.
pub open spec fn installs_autostart(operation: SetupOperation) -> bool {
    operation is Complete || operation is InstallAutostart
}

/// Whether an operation writes the entry of the menu, and its icon.
pub open spec fn installs_launcher(operation: SetupOperation) -> bool {
    operation is Complete || operation is InstallLauncher
}

/// Tests whether an operation writes below the directory of configurations, apart from the
/// configuration itself.
pub fn needs_config_home(operation: SetupOperation) -> (needed: bool)
    ensures
        needed == installs_autostart(operation),
{
    match operation {
        SetupOperation::Complete => true,
        SetupOperation::InstallAutostart => true,
        _ => false,
    }
}

/// Tests whether an operation writes below the directory of data.
pub fn needs_data_home(operation: SetupOperation) -> (needed: bool)
    ensures
        needed == installs_launcher(operation),
{
    match operation {
        SetupOperation::Complete => true,
        SetupOperation::InstallLauncher => true,
        _ => false,
    }
}

/// The files of the desktop that an operation writes, in the order of their backup.
pub open spec fn desktop_targets(operation: SetupOperation) -> Seq<Target> {
    let autostart = if installs_autostart(operation) {
        seq![Target::AutostartEntry]
    } else {
        Seq::empty()
    };
    if installs_launcher(operation) {
        autostart + seq![Target::Launcher, Target::ApplicationIcon]
    } else {
        autostart
    }
}

/// The steps of setup.
pub open spec fn steps_of(operation: SetupOperation, reinstall: bool) -> Seq<StepModel> {
    let config = if creates_config(operation) {
        seq![StepModel::Install { target: Target::Configuration, replace: false }]
    } else {
        Seq::empty()
    };
    if !installs_autostart(operation) && !installs_launcher(operation) {
        config
    } else {
        let backup = if reinstall {
            seq![StepModel::BackUp(desktop_targets(operation))]
        } else {
            Seq::empty()
        };
        let autostart = if installs_autostart(operation) {
            seq![StepModel::Install { target: Target::AutostartEntry, replace: reinstall }]
        } else {
            Seq::empty()
        };
        let launcher = if installs_launcher(operation) {
            seq![
                StepModel::Install { target: Target::ApplicationIcon, replace: reinstall },
                StepModel::Install { target: Target::Launcher, replace: reinstall },
            ]
        } else {
            Seq::empty()
        };
        let told = if operation is Complete {
            seq![StepModel::TellStart]
        } else {
            Seq::empty()
        };
        config + seq![StepModel::Prepare] + backup + autostart + launcher + told
    }
}

/// The steps of setup.
pub fn setup_steps(operation: SetupOperation, reinstall: bool) -> (steps: Vec<SetupStep>)
    ensures
        steps.deep_view() == steps_of(operation, reinstall),
{
    let mut steps: Vec<SetupStep> = Vec::new();
    let create_config = match operation {
        SetupOperation::Complete => true,
        SetupOperation::CreateConfig => true,
        _ => false,
    };
    let install_autostart = needs_config_home(operation);
    let install_launcher = needs_data_home(operation);
    if create_config {
        steps.push(SetupStep::Install { target: Target::Configuration, replace: false });
    }
    if !install_autostart && !install_launcher {
        assert(steps.deep_view() =~= steps_of(operation, reinstall));
        return steps;
    }
    steps.push(SetupStep::Prepare);
    if reinstall {
        let mut targets: Vec<Target> = Vec::new();
        if install_autostart {
            targets.push(Target::AutostartEntry);
        }
        if install_launcher {
            targets.push(Target::Launcher);
            targets.push(Target::ApplicationIcon);
        }
        assert(targets@ =~= desktop_targets(operation));
        steps.push(SetupStep::BackUp(targets));
    }
    if install_autostart {
        steps.push(SetupStep::Install { target: Target::AutostartEntry, replace: reinstall });
    }
    if install_launcher {
        steps.push(SetupStep::Install { target: Target::ApplicationIcon, replace: reinstall });
        steps.push(SetupStep::Install { target: Target::Launcher, replace: reinstall });
    }
    if let SetupOperation::Complete = operation {
        steps.push(SetupStep::TellStart);
    }
    assert(steps.deep_view() =~= steps_of(operation, reinstall));
    steps
}

/// Tests whether a file is left alone: it exists and is not to be replaced.
pub fn is_left_alone(replace: bool, exists: bool) -> (left: bool)
    ensures
        left == (exists && !replace),
{
    !replace && exists
}

/// What writing a file came to, if it did or did not exist before.
pub fn written_result(existed: bool) -> (result: FileResult)
    ensures
        result == (if existed {
            FileResult::Reinstalled
        } else {
            FileResult::Created
        }),
{
    if existed {
        FileResult::Reinstalled
    } else {
        FileResult::Created
    }
}

impl Target {
    /// What the file is.
    pub open spec fn description_words(self) -> Text {
        match self {
            Target::Configuration => "configuration"@,
            Target::AutostartEntry => "desktop autostart entry"@,
            Target::ApplicationIcon => "application icon"@,
            Target::Launcher => "application launcher"@,
        }
    }

    /// What the file is, at the start of a sentence.
    pub open spec fn opening_words(self) -> Text {
        match self {
            Target::Configuration => "Configuration"@,
            Target::AutostartEntry => "Desktop autostart entry"@,
            Target::ApplicationIcon => "Application icon"@,
            Target::Launcher => "Application launcher"@,
        }
    }

    /// What the file is.
    pub fn description(self) -> (description: &'static str)
        ensures
            description@ == self.description_words(),
    {
        match self {
            Target::Configuration => "configuration",
            Target::AutostartEntry => "desktop autostart entry",
            Target::ApplicationIcon => "application icon",
            Target::Launcher => "application launcher",
        }
    }

    /// What the file is, at the start of a sentence.
    fn opening(self) -> (description: &'static str)
        ensures
            description@ == self.opening_words(),
    {
        match self {
            Target::Configuration => "Configuration",
            Target::AutostartEntry => "Desktop autostart entry",
            Target::ApplicationIcon => "Application icon",
            Target::Launcher => "Application launcher",
        }
    }

    /// The path of the backup of the file, below the directory of backups. A configuration has no
    /// backup.
    pub fn relative_path(self) -> (path: Option<&'static str>)
        ensures
            path is None <==> self is Configuration,
            path matches Some(path) ==> path@ == (match self {
                Target::AutostartEntry => "autostart/salmon-watch.desktop"@,
                Target::ApplicationIcon => "icons/salmon-watch.svg"@,
                _ => "applications/salmon-watch.desktop"@,
            }),
    {
        match self {
            Target::Configuration => None,
            Target::AutostartEntry => Some("autostart/salmon-watch.desktop"),
            Target::ApplicationIcon => Some("icons/salmon-watch.svg"),
            Target::Launcher => Some("applications/salmon-watch.desktop"),
        }
    }
}

/// The line that tells what writing a file came to.
pub open spec fn report_words(target: Target, path: Text, result: FileResult) -> Text {
    match result {
        FileResult::Created => "Created "@ + target.description_words() + " at "@ + path,
        FileResult::Preserved => target.opening_words() + " already exists at "@ + path
            + "; leaving it unchanged"@,
        FileResult::Reinstalled => "Reinstalled "@ + target.description_words() + " at "@ + path,
    }
}

/// The line that tells what writing a file came to.
pub fn report(target: Target, path: &str, result: FileResult) -> (line: String)
    ensures
        line@ == report_words(target, path@, result),
{
    match result {
        FileResult::Created => joined("Created ", target.description()).concat(" at ").concat(path),
        FileResult::Preserved => joined(target.opening(), " already exists at ").concat(
            path,
        ).concat("; leaving it unchanged"),
        FileResult::Reinstalled => joined("Reinstalled ", target.description()).concat(
            " at ",
        ).concat(path),
    }
}

/// The line that tells where the backups are.
pub fn backup_report(directory: &str) -> (line: String)
    ensures
        line@ == "Backed up files that will be replaced to "@ + directory@,
{
    joined("Backed up files that will be replaced to ", directory)
}

/// The lines that tell how to start the program.
pub fn start_report(command: &str) -> (lines: String)
    ensures
        lines@
            == "\nSalmon Watch is configured and installed for desktop autostart and application-menu launch. To start it now, run:\n\n    "@
            + command@,
{
    joined(
        "\nSalmon Watch is configured and installed for desktop autostart and application-menu launch. To start it now, run:\n\n    ",
        command,
    )
}

/// What follows the error when the default configuration does not exist.
pub open spec fn hint_words(error: Text, executable: Text) -> Text {
    error
        + "\n\nHint: Run the following command to create the default configuration, desktop-autostart entry, and application launcher:\n\n    "@
        + shell_quoted(executable)
        + " setup\n\nTo create only the default configuration without installing the desktop integration, run:\n\n    "@
        + shell_quoted(executable) + " setup create-config"@
}

/// The error for a configuration that cannot be loaded. If it is the default one and does not
/// exist, it says how to create it.
pub fn startup_error(error: &str, executable: &str, missing: bool, is_default: bool) -> (message:
    String)
    ensures
        message@ == (if missing && is_default {
            hint_words(error@, executable@)
        } else {
            error@
        }),
{
    if !missing || !is_default {
        return copy_of(error);
    }
    let program = shell_argument(executable);
    copy_of(error).concat(
        "\n\nHint: Run the following command to create the default configuration, desktop-autostart entry, and application launcher:\n\n    ",
    ).concat(program.as_str()).concat(
        " setup\n\nTo create only the default configuration without installing the desktop integration, run:\n\n    ",
    ).concat(program.as_str()).concat(" setup create-config")
}

// ---------------------------------------------------------------------------------------------
// Laws
// ---------------------------------------------------------------------------------------------

/// Every file that is replaced was backed up in an earlier step.
pub proof fn backups_come_first(
    operation: SetupOperation,
    reinstall: bool,
    step: int,
    target: Target,
)
    requires
        0 <= step < steps_of(operation, reinstall).len(),
        steps_of(operation, reinstall)[step] == (StepModel::Install { target, replace: true }),
    ensures
        exists|earlier: int|
            0 <= earlier < step && ((#[trigger] steps_of(operation, reinstall)[earlier]) matches
                StepModel::BackUp(targets) && targets.contains(target)),
{
    let steps = steps_of(operation, reinstall);
    let targets = desktop_targets(operation);
    let at: int = if creates_config(operation) {
        2
    } else {
        1
    };
    assert(steps[at] == StepModel::BackUp(targets));
    if target is AutostartEntry {
        assert(targets[0] == target);
    } else {
        let first: int = if installs_autostart(operation) {
            1
        } else {
            0
        };
        assert(targets[first] == Target::Launcher);
        assert(targets[first + 1] == Target::ApplicationIcon);
    }
}

/// A configuration that exists is never replaced.
pub proof fn configurations_are_never_replaced(
    operation: SetupOperation,
    reinstall: bool,
    step: int,
    replace: bool,
)
    requires
        0 <= step < steps_of(operation, reinstall).len(),
        steps_of(operation, reinstall)[step] == (StepModel::Install {
            target: Target::Configuration,
            replace,
        }),
    ensures
        !replace,
{
}

/// Without `reinstall` no file is replaced.
pub proof fn normal_setup_replaces_nothing(
    operation: SetupOperation,
    step: int,
    target: Target,
    replace: bool,
)
    requires
        0 <= step < steps_of(operation, false).len(),
        steps_of(operation, false)[step] == (StepModel::Install { target, replace }),
    ensures
        !replace,
{
}

/// Whether an operation is about a file.
pub open spec fn covers(operation: SetupOperation, target: Target) -> bool {
    match target {
        Target::Configuration => creates_config(operation),
        Target::AutostartEntry => installs_autostart(operation),
        Target::ApplicationIcon => installs_launcher(operation),
        Target::Launcher => installs_launcher(operation),
    }
}

/// An operation writes exactly its own files.
pub proof fn operations_write_their_own_files(
    operation: SetupOperation,
    reinstall: bool,
    target: Target,
)
    ensures
        covers(operation, target) <==> exists|step: int|
            0 <= step < steps_of(operation, reinstall).len() && (
            (#[trigger] steps_of(operation, reinstall)[step]) matches StepModel::Install {
                target: written,
                replace,
            } && written == target),
{
    let steps = steps_of(operation, reinstall);
    if covers(operation, target) {
        let config: int = if creates_config(operation) {
            1
        } else {
            0
        };
        let entries: int = config + 1 + (if reinstall {
            1int
        } else {
            0int
        });
        let launcher: int = entries + (if installs_autostart(operation) {
            1int
        } else {
            0int
        });
        let at: int = match target {
            Target::Configuration => 0,
            Target::AutostartEntry => entries,
            Target::ApplicationIcon => launcher,
            Target::Launcher => launcher + 1,
        };
        assert(steps[at] matches StepModel::Install { target: written, replace } && written
            == target);
    }
}

/// How a shell reads a text: `'` and `"` open and close quotes, and other characters stand for
/// themselves. `quote` is the quote that is open.
pub open spec fn shell_reading(text: Text, quote: Option<char>) -> Text
    decreases text.len(),
{
    if text.len() == 0 {
        Seq::empty()
    } else {
        let rest = text.drop_first();
        match quote {
            Some(open) => if text[0] == open {
                shell_reading(rest, None)
            } else {
                seq![text[0]] + shell_reading(rest, quote)
            },
            None => if text[0] == '\'' || text[0] == '"' {
                shell_reading(rest, Some(text[0]))
            } else {
                seq![text[0]] + shell_reading(rest, None)
            },
        }
    }
}

/// A shell reads an argument back as it was.
pub proof fn shell_arguments_are_read_back(argument: Text)
    ensures
        shell_reading(shell_quoted(argument), None) == argument,
{
    if needs_no_quotes(argument) {
        lemma_plain_reading(argument);
    } else {
        let map = |ch: char| shell_char(ch);
        let inner = replaced(argument, map);
        let end = seq!['\''];
        let quoted = seq!['\''] + inner + end;
        assert(quoted.drop_first() =~= inner + end);
        assert(quoted[0] == '\'');
        lemma_quoted_reading(argument, end);
        assert(end[0] == '\'' && end.drop_first() =~= Seq::<char>::empty());
        assert(shell_reading(Seq::empty(), None) =~= Seq::<char>::empty());
        assert(shell_reading(end, Some('\'')) =~= Seq::<char>::empty());
        assert(argument + Seq::<char>::empty() =~= argument);
    }
}

proof fn lemma_plain_reading(argument: Text)
    requires
        forall|i: int| 0 <= i < argument.len() ==> is_plain(#[trigger] argument[i]),
    ensures
        shell_reading(argument, None) == argument,
    decreases argument.len(),
{
    if argument.len() > 0 {
        let rest = argument.drop_first();
        assert forall|i: int| 0 <= i < rest.len() implies is_plain(#[trigger] rest[i]) by {
            assert(rest[i] == argument[i + 1]);
        }
        lemma_plain_reading(rest);
        assert(is_plain(argument[0]));
        assert(seq![argument[0]] + rest =~= argument);
    }
}

/// Within single quotes, what stands for an argument is read as the argument.
proof fn lemma_quoted_reading(argument: Text, tail: Text)
    ensures
        shell_reading(replaced(argument, |ch: char| shell_char(ch)) + tail, Some('\'')) == argument
            + shell_reading(tail, Some('\'')),
    decreases argument.len(),
{
    let map = |ch: char| shell_char(ch);
    let quote = Some('\'');
    if argument.len() == 0 {
        assert(replaced(argument, map) + tail =~= tail);
        assert(argument + shell_reading(tail, quote) =~= shell_reading(tail, quote));
    } else {
        let ch = argument.last();
        let longer = shell_char(ch) + tail;
        assert(replaced(argument, map) + tail =~= replaced(argument.drop_last(), map) + longer);
        lemma_quoted_reading(argument.drop_last(), longer);
        assert(shell_reading(longer, quote) == seq![ch] + shell_reading(tail, quote)) by {
            if ch == '\'' {
                let one = longer.drop_first();
                let two = one.drop_first();
                let three = two.drop_first();
                let four = three.drop_first();
                assert(longer[0] == '\'' && one[0] == '"' && two[0] == '\'' && three[0] == '"'
                    && four[0] == '\'');
                assert(four.drop_first() =~= tail);
                assert(shell_reading(four, None) == shell_reading(tail, quote));
                assert(shell_reading(three, Some('"')) == shell_reading(four, None));
                assert(shell_reading(two, Some('"')) == seq!['\''] + shell_reading(
                    three,
                    Some('"'),
                ));
                assert(shell_reading(one, None) == shell_reading(two, Some('"')));
            } else {
                assert(longer[0] == ch);
                assert(longer.drop_first() =~= tail);
            }
        }
        assert(argument.drop_last() + (seq![ch] + shell_reading(tail, quote)) =~= argument
            + shell_reading(tail, quote));
    }
}

/// How the command of a desktop entry is read within quotes, up to the closing one. Escapes of
/// the entry and of the command are undone at once.
pub open spec fn desktop_reading(text: Text) -> Text
    decreases text.len(),
{
    if text.len() == 0 || text[0] == '"' {
        Seq::empty()
    } else if text[0] == '\\' && text.len() >= 4 && text[1] == '\\' && text[2] == '\\' {
        seq!['\\'] + desktop_reading(text.skip(4))
    } else if text[0] == '\\' && text.len() >= 3 && text[1] == '\\' {
        seq![text[2]] + desktop_reading(text.skip(3))
    } else if text.len() >= 2 && (text[0] == '\\' || text[0] == '%') {
        seq![text[1]] + desktop_reading(text.skip(2))
    } else {
        seq![text[0]] + desktop_reading(text.skip(1))
    }
}

/// The command of a desktop entry gives an argument back as it was.
pub proof fn desktop_arguments_are_read_back(argument: Text)
    ensures
        desktop_reading(desktop_quoted(argument).drop_first()) == argument,
{
    let map = |ch: char| desktop_char(ch);
    let inner = replaced(argument, map);
    let end = seq!['"'];
    assert(desktop_quoted(argument).drop_first() =~= inner + end);
    lemma_desktop_reading(argument, end);
    assert(argument + Seq::<char>::empty() =~= argument);
}

proof fn lemma_desktop_reading(argument: Text, tail: Text)
    ensures
        desktop_reading(replaced(argument, |ch: char| desktop_char(ch)) + tail) == argument
            + desktop_reading(tail),
    decreases argument.len(),
{
    let map = |ch: char| desktop_char(ch);
    if argument.len() == 0 {
        assert(replaced(argument, map) + tail =~= tail);
        assert(argument + desktop_reading(tail) =~= desktop_reading(tail));
    } else {
        let ch = argument.last();
        let longer = desktop_char(ch) + tail;
        assert(replaced(argument, map) + tail =~= replaced(argument.drop_last(), map) + longer);
        lemma_desktop_reading(argument.drop_last(), longer);
        assert(longer.skip(desktop_char(ch).len() as int) =~= tail);
        assert(longer[0] == desktop_char(ch)[0]);
        if desktop_char(ch).len() > 1 {
            assert(longer[1] == desktop_char(ch)[1]);
        }
        if desktop_char(ch).len() > 2 {
            assert(longer[2] == desktop_char(ch)[2]);
        }
        assert(desktop_reading(longer) == seq![ch] + desktop_reading(tail));
        assert(argument.drop_last() + (seq![ch] + desktop_reading(tail)) =~= argument
            + desktop_reading(tail));
    }
}

/// Setup prepares before it touches anything of the desktop, and replaces what is there only where
/// it was asked to, after one backup. It tells how to start the program at the end, and only where
/// everything was set up.
pub proof fn setup_is_prepared_and_told(operation: SetupOperation, reinstall: bool, step: int)
    requires
        0 <= step < steps_of(operation, reinstall).len(),
    ensures
        ({
            let steps = steps_of(operation, reinstall);
            &&& steps.contains(StepModel::TellStart) <==> operation == SetupOperation::Complete
            &&& steps[step] is TellStart ==> step == steps.len() - 1
            &&& steps.contains(StepModel::Prepare) <==> operation != SetupOperation::CreateConfig
            &&& steps[step] is BackUp ==> reinstall && 0 < step && steps[step - 1] is Prepare
            &&& steps[step] is Prepare && reinstall ==> step + 1 < steps.len() && steps[step + 1]
                is BackUp
            &&& steps[step] matches StepModel::Install { target, replace } ==> {
                &&& target is Configuration ==> step == 0 && !replace
                &&& !(target is Configuration) ==> replace == reinstall && exists|earlier: int|
                    0 <= earlier < step && #[trigger] steps[earlier] is Prepare
            }
        }),
{
    let steps = steps_of(operation, reinstall);
    let config: int = if operation is Complete || operation is CreateConfig {
        1
    } else {
        0
    };
    if !(operation is CreateConfig) {
        assert(steps[config] is Prepare);
        if operation is Complete {
            assert(steps[steps.len() - 1] is TellStart);
        }
    }
}

/// Complete setup writes every file, and each of the others its own: the configuration, the entry
/// that starts the program with the desktop, or the entry of the menu with its icon.
pub proof fn files_belong_to_their_operation(target: Target)
    ensures
        covers(SetupOperation::Complete, target),
        covers(SetupOperation::CreateConfig, target) <==> target is Configuration,
        covers(SetupOperation::InstallAutostart, target) <==> target is AutostartEntry,
        covers(SetupOperation::InstallLauncher, target) <==> target is ApplicationIcon || target
            is Launcher,
{
}

/// The place for the command is found where it is the only one.
pub proof fn commands_go_to_their_place(front: Text, back: Text)
    requires
        forall|at: int|
            #[trigger] stands_at(front + "{{EXEC}}"@ + back, "{{EXEC}}"@, at) ==> at == front.len(),
    ensures
        ({
            let template = front + "{{EXEC}}"@ + back;
            &&& placeholder_at(template, 0) == Some(front.len() as int)
            &&& placeholder_at(template, front.len() as int + 8) is None
            &&& template.take(front.len() as int) == front
            &&& template.skip(front.len() as int + 8) == back
        }),
{
    reveal_strlit("{{EXEC}}");
    let template = front + "{{EXEC}}"@ + back;
    let place = "{{EXEC}}"@;
    let start = front.len() as int;
    assert(template.subrange(start, start + 8) =~= place);
    assert(stands_at(template, place, start));
    searches_find_the_first(template, place, 0);
    searches_find_the_first(template, place, start + 8);
    if let Some(at) = first_at(template, place, 0) {
        assert(template.subrange(at, at + 8) =~= place);
        assert(stands_at(template, place, at));
    }
    if let Some(at) = first_at(template, place, start + 8) {
        assert(template.subrange(at, at + 8) =~= place);
        assert(stands_at(template, place, at));
    }
    assert(template.take(start) =~= front);
    assert(template.skip(start + 8) =~= back);
}

/// The command of a desktop entry names the program and the configuration, each as one argument,
/// and starts the program hidden only where it was asked to.
pub proof fn desktop_commands_name_the_program(executable: Text, config: Text)
    ensures
        desktop_command(executable, config, false) == desktop_quoted(executable) + " --config "@
            + desktop_quoted(config),
        desktop_command(executable, config, true) == desktop_command(executable, config, false)
            + " --start-hidden"@,
{
}

/// The shell command that starts the program names the configuration, as one argument, only where
/// it is not the default one.
pub proof fn start_commands_name_the_program(executable: Text, config: Text)
    ensures
        start_words(executable, config, true) == shell_quoted(executable),
        start_words(executable, config, false) == start_words(executable, config, true)
            + " --config "@ + shell_quoted(config),
{
}

/// What follows a slash is a further component of a path, unless it is empty or a dot.
pub proof fn names_behind_slashes_are_components(path: Text, name: Text)
    requires
        !name.contains('/'),
    ensures
        name.len() > 0 && name != "."@ ==> components(path.push('/') + name) == components(
            path,
        ).push(name),
        name.len() == 0 || name == "."@ ==> components(path.push('/') + name) == components(path),
        components(name) == (if name.len() > 0 {
            seq![name]
        } else {
            Seq::empty()
        }),
{
    texts_are_split_before_their_last_part(path, '/', name);
    parts_make_the_text_again(path, '/');
    let parts = split_on(path, '/');
    let longer = parts.push(name);
    lemma_components_of_prefix(parts, name, parts.len() as int);
    assert(longer[parts.len() as int] == name);
    backward_searches_find_the_last(name, '/', name.len() as int);
    assert(split_on(name, '/') =~= seq![name]);
    reveal_with_fuel(components_before, 2);
    assert(components(name) =~= if name.len() > 0 {
        seq![name]
    } else {
        Seq::empty()
    });
}

proof fn lemma_components_of_prefix(parts: Seq<Text>, name: Text, end: int)
    requires
        0 <= end <= parts.len(),
    ensures
        components_before(parts.push(name), end) == components_before(parts, end),
    decreases end,
{
    if end > 0 {
        lemma_components_of_prefix(parts, name, end - 1);
        assert(parts.push(name)[end - 1] == parts[end - 1]);
    }
}

/// A path starts with itself, and with every path that one starts with it starts with. What lies
/// in a directory starts with the directory, and its neighbours do not, however alike their names
/// begin. A path that starts at the root and one that does not never start with each other.
pub proof fn paths_start_with_their_directories(
    path: Text,
    base: Text,
    root: Text,
    name: Text,
    other: Text,
)
    ensures
        path_starts_with(path, path),
        path_starts_with(path, base) && path_starts_with(base, root) ==> path_starts_with(
            path,
            root,
        ),
        path.len() > 0 && !name.contains('/') ==> path_starts_with(path.push('/') + name, path),
        path.len() > 0 && !name.contains('/') && !other.contains('/') && name.len() > 0
            && other.len() > 0 && name != "."@ && other != "."@ && name != other
            ==> !path_starts_with(path.push('/') + name, path.push('/') + other),
        path.len() > 0 && base.len() > 0 && path_starts_with(path, base) ==> (path[0] == '/'
            <==> base[0] == '/'),
{
    let parts = components(path);
    assert(parts.is_prefix_of(parts));
    if path_starts_with(path, base) && path_starts_with(base, root) {
        let outer = components(path);
        let middle = components(base);
        let inner = components(root);
        assert(inner =~= outer.subrange(0, inner.len() as int)) by {
            assert forall|i: int| 0 <= i < inner.len() implies inner[i] == outer[i] by {
                assert(inner[i] == middle.subrange(0, inner.len() as int)[i]);
                assert(middle[i] == outer.subrange(0, middle.len() as int)[i]);
            }
        }
    }
    if path.len() > 0 && !name.contains('/') {
        names_behind_slashes_are_components(path, name);
        assert((path.push('/') + name)[0] == path[0]);
        assert(parts =~= parts.push(name).subrange(0, parts.len() as int));
        if !other.contains('/') && name.len() > 0 && other.len() > 0 && name != "."@ && other
            != "."@ && name != other {
            names_behind_slashes_are_components(path, other);
            assert(parts.push(name)[parts.len() as int] == name);
            assert(parts.push(other)[parts.len() as int] == other);
            if parts.push(other).is_prefix_of(parts.push(name)) {
                assert(parts.push(name).subrange(0, parts.push(other).len() as int)
                    =~= parts.push(name));
                assert(false);
            }
        }
    }
}

/// What is told of a file says which file it is, where it is, and what became of it.
pub proof fn reports_tell_what_became_of_files(target: Target, path: Text)
    ensures
        report_words(target, path, FileResult::Created) == "Created "@ + target.description_words()
            + " at "@ + path,
        report_words(target, path, FileResult::Reinstalled) == "Reinstalled "@
            + target.description_words() + " at "@ + path,
        report_words(target, path, FileResult::Preserved) == target.opening_words()
            + " already exists at "@ + path + "; leaving it unchanged"@,
        target.opening_words().len() == target.description_words().len(),
        target.opening_words().skip(1) == target.description_words().skip(1),
        target.opening_words()[0] as int == target.description_words()[0] as int - 32,
{
    reveal_strlit("configuration");
    reveal_strlit("desktop autostart entry");
    reveal_strlit("application icon");
    reveal_strlit("application launcher");
    reveal_strlit("Configuration");
    reveal_strlit("Desktop autostart entry");
    reveal_strlit("Application icon");
    reveal_strlit("Application launcher");
    assert(target.opening_words().skip(1) =~= target.description_words().skip(1));
}

/// Each kind of file is told by words of its own.
pub proof fn files_are_told_apart(first: Target, second: Target)
    requires
        first.description_words() == second.description_words(),
    ensures
        first == second,
{
    reveal_strlit("configuration");
    reveal_strlit("desktop autostart entry");
    reveal_strlit("application icon");
    reveal_strlit("application launcher");
    assert("configuration"@.len() == 13);
    assert("desktop autostart entry"@.len() == 23);
    assert("application icon"@.len() == 16);
    assert("application launcher"@.len() == 20);
}

} // verus!
