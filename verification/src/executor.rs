//! From a saved command to a process: how the process is to be started, and
//! what is kept of its outcome. Starting it is the caller's part.

use crate::command::{Command, CommandView, EnvironmentVariable, EnvironmentVariableView};
use crate::error::{CommandArgusError, ErrorView};
use crate::text::{chars_of, copy_optional_text, copy_texts, occurs_at, stands_at};
use vstd::prelude::*;
use vstd::utf8::{decode_utf8, valid_utf8};

verus! {

/// The kinds of machine that are told apart when a process is started.
#[derive(Clone, Copy, Debug, PartialEq, Eq, Structural)]
pub enum Platform {
    /// A machine on which a program started from a window is given a search
    /// path shorter than that of a terminal.
    MacOs,
    /// A machine whose shell is `cmd`.
    Windows,
    /// Any other machine; its shell is `sh`.
    Other,
}

/// What the caller has found out about the machine before a run.
pub struct Host {
    /// The kind of machine.
    pub platform: Platform,
    /// The search path for programs; empty where none is set.
    pub search_path: String,
    /// Whether the directory that the command is to run in exists. Of no
    /// account where the command names none.
    pub working_directory_exists: bool,
}

/// How a process is to be started.
#[derive(Debug, PartialEq, Eq)]
pub struct Invocation {
    /// The program to start.
    pub program: String,
    /// Its arguments, each handed over as it stands.
    pub args: Vec<String>,
    /// The directory to start it in; the caller's own where `None`.
    pub working_directory: Option<String>,
    /// Assignments to make, in this order, on top of the caller's own
    /// environment. A later assignment to a key overrides an earlier one.
    pub environment: Vec<EnvironmentVariable>,
}

/// What an `Invocation` holds.
pub struct InvocationView {
    pub program: Seq<char>,
    pub args: Seq<Seq<char>>,
    pub working_directory: Option<Seq<char>>,
    pub environment: Seq<EnvironmentVariableView>,
}

impl DeepView for Invocation {
    type V = InvocationView;

    open spec fn deep_view(&self) -> InvocationView {
        InvocationView {
            program: self.program@,
            args: self.args.deep_view(),
            working_directory: self.working_directory.deep_view(),
            environment: self.environment.deep_view(),
        }
    }
}

impl View for Invocation {
    type V = InvocationView;

    open spec fn view(&self) -> InvocationView {
        self.deep_view()
    }
}

/// What a process left behind when it ended.
pub struct ProcessOutput {
    /// The bytes it wrote to its standard output.
    pub stdout: Vec<u8>,
    /// The bytes it wrote to its standard error.
    pub stderr: Vec<u8>,
    /// Its exit code; `None` where it ended without one.
    pub exit_code: Option<i32>,
    /// Whether it ended in what the machine counts as success.
    pub success: bool,
}

/// What is kept of a run.
#[derive(Debug, PartialEq, Eq)]
pub struct ExecutionResult {
    pub stdout: String,
    pub stderr: String,
    pub exit_code: i32,
    pub success: bool,
}

/// What an `ExecutionResult` holds.
pub struct ExecutionResultView {
    pub stdout: Seq<char>,
    pub stderr: Seq<char>,
    pub exit_code: i32,
    pub success: bool,
}

impl DeepView for ExecutionResult {
    type V = ExecutionResultView;

    open spec fn deep_view(&self) -> ExecutionResultView {
        ExecutionResultView {
            stdout: self.stdout@,
            stderr: self.stderr@,
            exit_code: self.exit_code,
            success: self.success,
        }
    }
}

impl View for ExecutionResult {
    type V = ExecutionResultView;

    open spec fn view(&self) -> ExecutionResultView {
        self.deep_view()
    }
}

/// The exit code that is reported for a process that ended without one.
pub const NO_EXIT_CODE: i32 = -1;

/// The text that the standard library reads from bytes when it puts the
/// replacement character in place of what is not UTF-8.
pub uninterp spec fn utf8_lossy(bytes: Seq<u8>) -> Seq<char>;

/// `String::from_utf8_lossy`: the text that `bytes` encode, with the
/// replacement character for each part that is not UTF-8. Bytes that are
/// UTF-8 throughout come out as the text they encode. Trusted, not proved.
#[verifier::external_body]
pub(crate) fn decode_lossy(bytes: &Vec<u8>) -> (text: String)
    ensures
        text@ == utf8_lossy(bytes@),
        valid_utf8(bytes@) ==> text@ == decode_utf8(bytes@),
{
    String::from_utf8_lossy(bytes).into_owned()
}

/// The exit code that is reported for `exit_code`.
pub open spec fn reported_code(exit_code: Option<i32>) -> i32 {
    match exit_code {
        Some(code) => code,
        None => NO_EXIT_CODE,
    }
}

impl ExecutionResult {
    /// What is kept of a run that wrote `stdout` and `stderr` and ended with
    /// `exit_code`.
    pub fn from_parts(stdout: String, stderr: String, exit_code: Option<i32>, success: bool) -> (kept:
        ExecutionResult)
        ensures
            kept@ == (ExecutionResultView {
                stdout: stdout@,
                stderr: stderr@,
                exit_code: reported_code(exit_code),
                success,
            }),
    {
        let exit_code = match exit_code {
            Some(code) => code,
            None => NO_EXIT_CODE,
        };
        ExecutionResult { stdout, stderr, exit_code, success }
    }

    /// What is kept of what a process left behind: its two outputs read as
    /// text, its exit code, and whether it succeeded.
    pub fn from_output(output: ProcessOutput) -> (kept: ExecutionResult)
        ensures
            kept@ == (ExecutionResultView {
                stdout: utf8_lossy(output.stdout@),
                stderr: utf8_lossy(output.stderr@),
                exit_code: reported_code(output.exit_code),
                success: output.success,
            }),
            valid_utf8(output.stdout@) ==> kept@.stdout == decode_utf8(output.stdout@),
            valid_utf8(output.stderr@) ==> kept@.stderr == decode_utf8(output.stderr@),
    {
        let stdout = decode_lossy(&output.stdout);
        let stderr = decode_lossy(&output.stderr);
        ExecutionResult::from_parts(stdout, stderr, output.exit_code, output.success)
    }
}

/// `dir` stands in `path` at position `at` as an entry: it begins at the
/// start of the path or after a colon, and it ends at the end of the path or
/// before a colon.
pub open spec fn is_entry_at(path: Seq<char>, dir: Seq<char>, at: int) -> bool {
    &&& occurs_at(path, dir, at)
    &&& (at == 0 || path[at - 1] == ':')
    &&& (at + dir.len() == path.len() || path[at + dir.len()] == ':')
}

/// `dir` is one of the entries of `path`, which a colon parts from one
/// another.
pub open spec fn has_entry(path: Seq<char>, dir: Seq<char>) -> bool {
    exists|at: int| is_entry_at(path, dir, at)
}

/// `path` with `dir` added as its last entry, unless `dir` is one of its
/// entries already.
pub open spec fn with_directory(path: Seq<char>, dir: Seq<char>) -> Seq<char> {
    if has_entry(path, dir) {
        path
    } else if path.len() == 0 {
        dir
    } else {
        path + seq![':'] + dir
    }
}

/// `path` with the usual directories of programs added, each unless it is one
/// of the entries already.
pub open spec fn extended_search_path(path: Seq<char>) -> Seq<char> {
    let with_homebrew = with_directory(path, "/opt/homebrew/bin"@);
    let with_local = with_directory(with_homebrew, "/usr/local/bin"@);
    let with_usr = with_directory(with_local, "/usr/bin"@);
    let with_bin = with_directory(with_usr, "/bin"@);
    let with_usr_sbin = with_directory(with_bin, "/usr/sbin"@);
    with_directory(with_usr_sbin, "/sbin"@)
}

/// Whether `dir` is one of the entries of `path`.
pub fn is_entry(path: &str, dir: &str) -> (found: bool)
    ensures
        found == has_entry(path@, dir@),
{
    let path_chars = chars_of(path);
    let dir_chars = chars_of(dir);
    if dir_chars.len() > path_chars.len() {
        return false;
    }
    let last: usize = path_chars.len() - dir_chars.len();
    let mut at: usize = 0;
    loop
        invariant
            at <= last,
            last == path_chars.len() - dir_chars.len(),
            path_chars@ == path@,
            dir_chars@ == dir@,
            forall|k: int| 0 <= k < at ==> !is_entry_at(path@, dir@, k),
        decreases last - at,
    {
        if stands_at(&path_chars, &dir_chars, at) && (at == 0 || path_chars[at - 1] == ':') && (at
            == last || path_chars[at + dir_chars.len()] == ':') {
            assert(is_entry_at(path@, dir@, at as int));
            return true;
        }
        if at == last {
            return false;
        }
        at += 1;
    }
}

/// Adds `dir` to `path` as its last entry, unless `dir` is one of its entries
/// already.
pub fn add_directory(path: &mut String, dir: &str)
    ensures
        final(path)@ == with_directory(old(path)@, dir@),
{
    if !is_entry(path.as_str(), dir) {
        if !path.as_str().is_empty() {
            proof {
                reveal_strlit(":");
            }
            path.append(":");
            assert(":"@ =~= seq![':']);
        }
        path.append(dir);
        assert(path@ =~= with_directory(old(path)@, dir@));
    }
}

/// The search path `current` with the usual directories of programs added,
/// each unless it is one of the entries already.
pub fn extend_search_path(current: &str) -> (extended: String)
    ensures
        extended@ == extended_search_path(current@),
{
    let mut path = current.to_owned();
    add_directory(&mut path, "/opt/homebrew/bin");
    add_directory(&mut path, "/usr/local/bin");
    add_directory(&mut path, "/usr/bin");
    add_directory(&mut path, "/bin");
    add_directory(&mut path, "/usr/sbin");
    add_directory(&mut path, "/sbin");
    path
}

/// Adding a directory leaves the path as its beginning, makes the directory
/// an entry, and adds it once only: to add it again changes nothing.
pub proof fn lemma_with_directory_adds(path: Seq<char>, dir: Seq<char>)
    ensures
        path.is_prefix_of(with_directory(path, dir)),
        has_entry(with_directory(path, dir), dir),
        with_directory(with_directory(path, dir), dir) == with_directory(path, dir),
{
    let added = with_directory(path, dir);
    if !has_entry(path, dir) {
        if path.len() == 0 {
            assert(added.subrange(0, dir.len() as int) =~= dir);
            assert(is_entry_at(added, dir, 0));
        } else {
            let at: int = path.len() as int + 1;
            assert(added.subrange(at, at + dir.len()) =~= dir);
            assert(is_entry_at(added, dir, at));
        }
    }
    assert(added.subrange(0, path.len() as int) =~= path);
}

/// Adding a directory keeps the entries that are there.
pub proof fn lemma_with_directory_keeps(path: Seq<char>, dir: Seq<char>, entry: Seq<char>)
    requires
        has_entry(path, entry),
        entry.len() > 0,
    ensures
        has_entry(with_directory(path, dir), entry),
{
    let added = with_directory(path, dir);
    let at = choose|at: int| is_entry_at(path, entry, at);
    if !has_entry(path, dir) && path.len() > 0 {
        assert(added.subrange(at, at + entry.len()) =~= path.subrange(at, at + entry.len()));
        assert(is_entry_at(added, entry, at));
    }
}

/// The extended search path begins with the path it was made from, keeps
/// every entry of it, and has each of the usual directories of programs as an
/// entry.
pub proof fn lemma_extended_search_path_holds_all(path: Seq<char>)
    ensures
        path.is_prefix_of(extended_search_path(path)),
        forall|entry: Seq<char>|
            entry.len() > 0 && has_entry(path, entry) ==> has_entry(
                extended_search_path(path),
                entry,
            ),
        has_entry(extended_search_path(path), "/opt/homebrew/bin"@),
        has_entry(extended_search_path(path), "/usr/local/bin"@),
        has_entry(extended_search_path(path), "/usr/bin"@),
        has_entry(extended_search_path(path), "/bin"@),
        has_entry(extended_search_path(path), "/usr/sbin"@),
        has_entry(extended_search_path(path), "/sbin"@),
{
    reveal_strlit("/opt/homebrew/bin");
    reveal_strlit("/usr/local/bin");
    reveal_strlit("/usr/bin");
    reveal_strlit("/bin");
    reveal_strlit("/usr/sbin");
    reveal_strlit("/sbin");
    let homebrew = "/opt/homebrew/bin"@;
    let local = "/usr/local/bin"@;
    let usr = "/usr/bin"@;
    let bin = "/bin"@;
    let usr_sbin = "/usr/sbin"@;
    let sbin = "/sbin"@;
    let first = with_directory(path, homebrew);
    let second = with_directory(first, local);
    let third = with_directory(second, usr);
    let fourth = with_directory(third, bin);
    let fifth = with_directory(fourth, usr_sbin);
    let sixth = with_directory(fifth, sbin);
    lemma_with_directory_adds(path, homebrew);
    lemma_with_directory_adds(first, local);
    lemma_with_directory_adds(second, usr);
    lemma_with_directory_adds(third, bin);
    lemma_with_directory_adds(fourth, usr_sbin);
    lemma_with_directory_adds(fifth, sbin);
    lemma_kept_to_the_end(first, homebrew);
    lemma_with_directory_keeps(second, usr, local);
    lemma_with_directory_keeps(third, bin, local);
    lemma_with_directory_keeps(fourth, usr_sbin, local);
    lemma_with_directory_keeps(fifth, sbin, local);
    lemma_with_directory_keeps(third, bin, usr);
    lemma_with_directory_keeps(fourth, usr_sbin, usr);
    lemma_with_directory_keeps(fifth, sbin, usr);
    lemma_with_directory_keeps(fourth, usr_sbin, bin);
    lemma_with_directory_keeps(fifth, sbin, bin);
    lemma_with_directory_keeps(fifth, sbin, usr_sbin);
    assert forall|entry: Seq<char>| entry.len() > 0 && has_entry(path, entry) implies has_entry(
        sixth,
        entry,
    ) by {
        lemma_with_directory_keeps(path, homebrew, entry);
        lemma_kept_to_the_end(first, entry);
    }
}

/// An entry that is there after the first of the usual directories was added
/// is there after the last was.
proof fn lemma_kept_to_the_end(first: Seq<char>, entry: Seq<char>)
    requires
        has_entry(first, entry),
        entry.len() > 0,
    ensures
        has_entry(
            with_directory(
                with_directory(
                    with_directory(
                        with_directory(with_directory(first, "/usr/local/bin"@), "/usr/bin"@),
                        "/bin"@,
                    ),
                    "/usr/sbin"@,
                ),
                "/sbin"@,
            ),
            entry,
        ),
{
    let second = with_directory(first, "/usr/local/bin"@);
    let third = with_directory(second, "/usr/bin"@);
    let fourth = with_directory(third, "/bin"@);
    let fifth = with_directory(fourth, "/usr/sbin"@);
    lemma_with_directory_keeps(first, "/usr/local/bin"@, entry);
    lemma_with_directory_keeps(second, "/usr/bin"@, entry);
    lemma_with_directory_keeps(third, "/bin"@, entry);
    lemma_with_directory_keeps(fourth, "/usr/sbin"@, entry);
    lemma_with_directory_keeps(fifth, "/sbin"@, entry);
}

/// The assignments to make for a run on `platform`: on `MacOs` the extended
/// search path first, then the command's own on every platform.
pub open spec fn launch_environment(
    platform: Platform,
    search_path: Seq<char>,
    own: Seq<EnvironmentVariableView>,
) -> Seq<EnvironmentVariableView> {
    if platform == Platform::MacOs {
        seq![
            EnvironmentVariableView { key: "PATH"@, value: extended_search_path(search_path) },
        ] + own
    } else {
        own
    }
}

/// The shell of `platform`.
pub open spec fn shell_program(platform: Platform) -> Seq<char> {
    if platform == Platform::Windows {
        "cmd"@
    } else {
        "sh"@
    }
}

/// The option by which the shell of `platform` takes a command line.
pub open spec fn shell_option(platform: Platform) -> Seq<char> {
    if platform == Platform::Windows {
        "/C"@
    } else {
        "-c"@
    }
}

/// How `command` is started without a shell: its program with its arguments
/// as they stand.
pub open spec fn direct_invocation(
    command: CommandView,
    platform: Platform,
    search_path: Seq<char>,
) -> InvocationView {
    InvocationView {
        program: command.command,
        args: command.args,
        working_directory: command.working_directory,
        environment: launch_environment(platform, search_path, command.environment_variables),
    }
}

/// How `command` is started through the shell: the shell with the whole
/// command line as one argument.
pub open spec fn shell_invocation(
    command: CommandView,
    platform: Platform,
    search_path: Seq<char>,
) -> InvocationView {
    InvocationView {
        program: shell_program(platform),
        args: seq![shell_option(platform), command.full_command()],
        working_directory: command.working_directory,
        environment: launch_environment(platform, search_path, command.environment_variables),
    }
}

/// The directory that `command` is to run in is missing.
pub open spec fn lacks_directory(command: CommandView, working_directory_exists: bool) -> bool {
    command.working_directory is Some && !working_directory_exists
}

/// Turns saved commands into process invocations and process outputs into
/// results.
pub struct CommandExecutor;

impl CommandExecutor {
    /// An executor.
    pub fn new() -> (executor: CommandExecutor) {
        CommandExecutor
    }

    /// The assignments to make for a run of `command` on `host`.
    fn environment_for(command: &Command, host: &Host) -> (environment: Vec<EnvironmentVariable>)
        ensures
            environment.deep_view() == launch_environment(
                host.platform,
                host.search_path@,
                command@.environment_variables,
            ),
    {
        let mut environment: Vec<EnvironmentVariable> = Vec::new();
        match host.platform {
            Platform::MacOs => {
                environment.push(
                    EnvironmentVariable {
                        key: "PATH".to_string(),
                        value: extend_search_path(host.search_path.as_str()),
                    },
                );
            },
            _ => {},
        }
        let mut at: usize = 0;
        let ghost first = environment.deep_view();
        while at < command.environment_variables.len()
            invariant
                at <= command.environment_variables.len(),
                environment.deep_view() == first + command@.environment_variables.take(at as int),
            decreases command.environment_variables.len() - at,
        {
            let ghost before = environment.deep_view();
            environment.push(command.environment_variables[at].clone());
            assert(environment.deep_view() =~= before.push(
                command@.environment_variables[at as int],
            ));
            assert(command@.environment_variables.take(at + 1) =~= command@.environment_variables.take(
                at as int,
            ).push(command@.environment_variables[at as int]));
            at += 1;
        }
        assert(command@.environment_variables.take(at as int) =~= command@.environment_variables);
        environment
    }

    /// How `command` is to be started without a shell on `host`: its program
    /// with its arguments as they stand. Fails where the command names a
    /// directory to run in and the directory does not exist.
    pub fn execute(&self, command: &Command, host: &Host) -> (planned: Result<
        Invocation,
        CommandArgusError,
    >)
        ensures
            match planned {
                Ok(invocation) => !lacks_directory(command@, host.working_directory_exists)
                    && invocation@ == direct_invocation(
                    command@,
                    host.platform,
                    host.search_path@,
                ),
                Err(error) => lacks_directory(command@, host.working_directory_exists) && error@
                    == ErrorView::InvalidPath(command@.working_directory->0),
            },
    {
        match &command.working_directory {
            Some(dir) => {
                if !host.working_directory_exists {
                    return Err(CommandArgusError::InvalidPath(dir.clone()));
                }
            },
            None => {},
        }
        Ok(
            Invocation {
                program: command.command.clone(),
                args: copy_texts(&command.args),
                working_directory: copy_optional_text(&command.working_directory),
                environment: CommandExecutor::environment_for(command, host),
            },
        )
    }

    /// How `command` is to be started through the shell of `host`: the shell
    /// with the whole command line as one argument, which the shell reads by
    /// its own rules. Fails where the command names a directory to run in
    /// and the directory does not exist.
    pub fn execute_with_shell(&self, command: &Command, host: &Host) -> (planned: Result<
        Invocation,
        CommandArgusError,
    >)
        ensures
            match planned {
                Ok(invocation) => !lacks_directory(command@, host.working_directory_exists)
                    && invocation@ == shell_invocation(
                    command@,
                    host.platform,
                    host.search_path@,
                ),
                Err(error) => lacks_directory(command@, host.working_directory_exists) && error@
                    == ErrorView::InvalidPath(command@.working_directory->0),
            },
    {
        let (shell, option) = match host.platform {
            Platform::Windows => ("cmd", "/C"),
            _ => ("sh", "-c"),
        };
        let mut args: Vec<String> = Vec::new();
        args.push(option.to_string());
        args.push(command.full_command());
        assert(args.deep_view() =~= seq![shell_option(host.platform), command@.full_command()]);
        match &command.working_directory {
            Some(dir) => {
                if !host.working_directory_exists {
                    return Err(CommandArgusError::InvalidPath(dir.clone()));
                }
            },
            None => {},
        }
        Ok(
            Invocation {
                program: shell.to_string(),
                args,
                working_directory: copy_optional_text(&command.working_directory),
                environment: CommandExecutor::environment_for(command, host),
            },
        )
    }

    /// What a run comes to: the result of the process that was started, or
    /// the failure to start one, with its cause. Output that is UTF-8
    /// throughout is kept as the text it encodes.
    pub fn conclude(&self, started: Result<ProcessOutput, String>) -> (outcome: Result<
        ExecutionResult,
        CommandArgusError,
    >)
        ensures
            match started {
                Ok(output) => {
                    &&& outcome matches Ok(kept)
                    &&& kept@ == (ExecutionResultView {
                        stdout: utf8_lossy(output.stdout@),
                        stderr: utf8_lossy(output.stderr@),
                        exit_code: reported_code(output.exit_code),
                        success: output.success,
                    })
                    &&& valid_utf8(output.stdout@) ==> kept@.stdout == decode_utf8(output.stdout@)
                    &&& valid_utf8(output.stderr@) ==> kept@.stderr == decode_utf8(output.stderr@)
                },
                Err(cause) => outcome matches Err(error) && error@ == ErrorView::ExecutionFailed(
                    cause@,
                ),
            },
    {
        match started {
            Ok(output) => Ok(ExecutionResult::from_output(output)),
            Err(cause) => Err(CommandArgusError::ExecutionFailed(cause)),
        }
    }
}

} // verus!
