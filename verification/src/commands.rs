//! The programs that are run: their command lines, how they are found, and how long they
//! are waited for.

use vstd::prelude::*;

use crate::credentials::CredentialSource;
use crate::text;
use crate::wsl;

verus! {

/// The process creation flag for a program without a window.
pub const CREATE_NO_WINDOW: u32 = 0x08000000;

/// A program to run, its arguments, and the environment variables that it is run without.
#[derive(Clone, Debug)]
pub struct CommandLine {
    pub program: String,
    pub args: Vec<String>,
    pub removed_vars: Vec<String>,
}

/// The model of a [`CommandLine`].
#[verifier::ext_equal]
pub struct Command {
    pub program: Seq<char>,
    pub args: Seq<Seq<char>>,
    pub removed_vars: Seq<Seq<char>>,
}

impl View for CommandLine {
    type V = Command;

    open spec fn view(&self) -> Command {
        Command {
            program: self.program@,
            args: wsl::string_views(self.args@),
            removed_vars: wsl::string_views(self.removed_vars@),
        }
    }
}

/// A command without arguments.
fn command(program: &str) -> (c: CommandLine)
    ensures
        c@ == (Command { program: program@, args: seq![], removed_vars: seq![] }),
{
    let c = CommandLine { program: text::copy(program), args: Vec::new(), removed_vars: Vec::new() };
    assert(c@.args =~= Seq::<Seq<char>>::empty());
    assert(c@.removed_vars =~= Seq::<Seq<char>>::empty());
    c
}

impl CommandLine {
    /// Adds an argument.
    fn arg(&mut self, value: &str)
        ensures
            final(self)@ == (Command { args: old(self)@.args.push(value@), ..old(self)@ }),
    {
        self.args.push(text::copy(value));
        assert(self@.args =~= old(self)@.args.push(value@));
    }

    /// Takes a variable out of the environment.
    fn env_remove(&mut self, name: &str)
        ensures
            final(self)@ == (Command {
                removed_vars: old(self)@.removed_vars.push(name@),
                ..old(self)@
            }),
    {
        self.removed_vars.push(text::copy(name));
        assert(self@.removed_vars =~= old(self)@.removed_vars.push(name@));
    }
}

/// The variables that a run of Anthropic's command line tool is not to see: they would tell
/// it that it runs inside itself.
pub open spec fn claude_vars() -> Seq<Seq<char>> {
    seq!["CLAUDECODE"@, "CLAUDE_CODE_ENTRYPOINT"@]
}

/// The command that makes Anthropic's command line tool at `path` refresh its token: a
/// minimal prompt. `lowered` is the path in lower case. A command script is run by the
/// command interpreter.
pub open spec fn claude_refresh(path: Seq<char>, lowered: Seq<char>) -> Command {
    if text::has_suffix(lowered, ".cmd"@) {
        Command {
            program: "cmd.exe"@,
            args: seq!["/c"@, path, "-p"@, "."@],
            removed_vars: claude_vars(),
        }
    } else {
        Command { program: path, args: seq!["-p"@, "."@], removed_vars: claude_vars() }
    }
}

/// Makes the command that refreshes the token of the Windows user, when the path in lower
/// case is known (see [`claude_refresh`]).
pub fn claude_refresh_command(path: &str, lowered: &str) -> (c: CommandLine)
    ensures
        c@ == claude_refresh(path@, lowered@),
{
    let mut c = if text::ends_with(lowered, ".cmd") {
        let mut c = command("cmd.exe");
        c.arg("/c");
        c.arg(path);
        c
    } else {
        command(path)
    };
    c.arg("-p");
    c.arg(".");
    c.env_remove("CLAUDECODE");
    c.env_remove("CLAUDE_CODE_ENTRYPOINT");
    assert(c@ =~~= claude_refresh(path@, lowered@));
    c
}

/// Makes the command that refreshes the token of the Windows user with Anthropic's command
/// line tool at `claude_path`.
pub fn cli_refresh_windows_token(claude_path: &str) -> (c: CommandLine)
    ensures
        c@ == claude_refresh(claude_path@, text::lowercase(claude_path@)),
        text::ascii(claude_path@) ==> c@ == claude_refresh(
            claude_path@,
            claude_path@.map_values(|ch: char| text::ascii_lower(ch)),
        ),
{
    let lowered = text::to_lowercase(claude_path);
    claude_refresh_command(claude_path, lowered.as_str())
}

/// The command that runs a shell script in a distribution.
pub open spec fn in_distro(
    distro: Seq<char>,
    shell: Seq<char>,
    flags: Seq<char>,
    script: Seq<char>,
) -> Command {
    Command {
        program: "wsl.exe"@,
        args: seq!["-d"@, distro, "--"@, shell, flags, script],
        removed_vars: seq![],
    }
}

/// Makes the command that runs a shell script in a distribution.
fn distro_command(distro: &str, shell: &str, flags: &str, script: &str) -> (c: CommandLine)
    ensures
        c@ == in_distro(distro@, shell@, flags@, script@),
{
    let mut c = command("wsl.exe");
    c.arg("-d");
    c.arg(distro);
    c.arg("--");
    c.arg(shell);
    c.arg(flags);
    c.arg(script);
    assert(c@ =~~= in_distro(distro@, shell@, flags@, script@));
    c
}

/// The script that makes Anthropic's command line tool, which goes by the name `tool`, in a
/// distribution refresh its token.
pub open spec fn wsl_refresh_script(tool: Seq<char>) -> Seq<char> {
    "if command -v "@ + tool + " >/dev/null 2>&1; then "@ + tool
        + " -p .; elif [ -x \"$HOME/.local/bin/"@ + tool + "\" ]; then \"$HOME/.local/bin/"@ + tool
        + "\" -p .; else exit 127; fi"@
}

/// The credentials file of the tool in a distribution.
pub open spec fn wsl_credentials_file(tool: Seq<char>) -> Seq<char> {
    "~/."@ + tool + "/.credentials.json"@
}

/// The script that prints the credentials file in a distribution.
pub open spec fn wsl_credentials_script(tool: Seq<char>) -> Seq<char> {
    "cat "@ + wsl_credentials_file(tool)
}

/// The script that prints the size and the modification time of the credentials file in a
/// distribution.
pub open spec fn wsl_watch_script(tool: Seq<char>) -> Seq<char> {
    "if [ -f "@ + wsl_credentials_file(tool) + " ]; then stat -c 'present|%s|%Y' "@
        + wsl_credentials_file(tool) + "; else echo missing; fi"@
}

/// Writes the credentials file of the tool in a distribution.
fn credentials_file(tool: &str) -> (file: String)
    ensures
        file@ == wsl_credentials_file(tool@),
{
    let mut file = text::copy("~/.");
    text::append(&mut file, tool);
    text::append(&mut file, "/.credentials.json");
    file
}

/// The command that refreshes the token in a distribution.
pub open spec fn wsl_refresh(tool: Seq<char>, distro: Seq<char>) -> Command {
    Command {
        removed_vars: claude_vars(),
        ..in_distro(distro, "bash"@, "-lic"@, wsl_refresh_script(tool))
    }
}

/// Makes the command that refreshes the token in a distribution.
pub fn cli_refresh_wsl_token(tool: &str, distro: &str) -> (c: CommandLine)
    ensures
        c@ == wsl_refresh(tool@, distro@),
{
    let mut script = text::copy("if command -v ");
    text::append(&mut script, tool);
    text::append(&mut script, " >/dev/null 2>&1; then ");
    text::append(&mut script, tool);
    text::append(&mut script, " -p .; elif [ -x \"$HOME/.local/bin/");
    text::append(&mut script, tool);
    text::append(&mut script, "\" ]; then \"$HOME/.local/bin/");
    text::append(&mut script, tool);
    text::append(&mut script, "\" -p .; else exit 127; fi");
    let mut c = distro_command(distro, "bash", "-lic", script.as_str());
    c.env_remove("CLAUDECODE");
    c.env_remove("CLAUDE_CODE_ENTRYPOINT");
    assert(c@ =~~= wsl_refresh(tool@, distro@));
    c
}

/// How the token of a source is refreshed.
pub enum RefreshPlan {
    /// Find Anthropic's command line tool, then run [`cli_refresh_windows_token`].
    FindTool,
    /// Run this.
    Run(CommandLine),
}

/// Decides how the token of a source is refreshed.
pub fn cli_refresh_token(tool: &str, source: &CredentialSource) -> (plan: RefreshPlan)
    ensures
        match *source {
            CredentialSource::Windows(_) => plan is FindTool,
            CredentialSource::Wsl { distro } => plan matches RefreshPlan::Run(c) && c@
                == wsl_refresh(tool@, distro@),
        },
{
    match source {
        CredentialSource::Windows(_) => RefreshPlan::FindTool,
        CredentialSource::Wsl { distro } => RefreshPlan::Run(
            cli_refresh_wsl_token(tool, distro.as_str()),
        ),
    }
}

/// The command that makes the Codex command line tool at `path` refresh its token.
/// `lowered` is the path in lower case. A command script is run by the command
/// interpreter, a PowerShell script by PowerShell.
pub open spec fn codex_refresh(path: Seq<char>, lowered: Seq<char>) -> Command {
    if text::has_suffix(lowered, ".cmd"@) {
        Command {
            program: "cmd.exe"@,
            args: seq!["/c"@, path, "exec"@, "."@],
            removed_vars: seq![],
        }
    } else if text::has_suffix(lowered, ".ps1"@) {
        Command {
            program: "powershell.exe"@,
            args: seq![
                "-NoProfile"@,
                "-ExecutionPolicy"@,
                "Bypass"@,
                "-File"@,
                path,
                "exec"@,
                "."@,
            ],
            removed_vars: seq![],
        }
    } else {
        Command { program: path, args: seq!["exec"@, "."@], removed_vars: seq![] }
    }
}

/// Makes the command that refreshes the Codex token, when the path in lower case is known
/// (see [`codex_refresh`]).
pub fn codex_refresh_command(path: &str, lowered: &str) -> (c: CommandLine)
    ensures
        c@ == codex_refresh(path@, lowered@),
{
    let mut c = if text::ends_with(lowered, ".cmd") {
        let mut c = command("cmd.exe");
        c.arg("/c");
        c.arg(path);
        c
    } else if text::ends_with(lowered, ".ps1") {
        let mut c = command("powershell.exe");
        c.arg("-NoProfile");
        c.arg("-ExecutionPolicy");
        c.arg("Bypass");
        c.arg("-File");
        c.arg(path);
        c
    } else {
        command(path)
    };
    c.arg("exec");
    c.arg(".");
    assert(c@ =~~= codex_refresh(path@, lowered@));
    c
}

/// Makes the command that refreshes the Codex token with the command line tool at
/// `codex_path`.
pub fn cli_refresh_codex_token(codex_path: &str) -> (c: CommandLine)
    ensures
        c@ == codex_refresh(codex_path@, text::lowercase(codex_path@)),
        text::ascii(codex_path@) ==> c@ == codex_refresh(
            codex_path@,
            codex_path@.map_values(|ch: char| text::ascii_lower(ch)),
        ),
{
    let lowered = text::to_lowercase(codex_path);
    codex_refresh_command(codex_path, lowered.as_str())
}

/// The command that prints the credentials file in a distribution.
pub open spec fn wsl_credentials(tool: Seq<char>, distro: Seq<char>) -> Command {
    in_distro(distro, "sh"@, "-lc"@, wsl_credentials_script(tool))
}

/// Makes the command that prints the credentials file in a distribution.
pub fn wsl_credentials_command(tool: &str, distro: &str) -> (c: CommandLine)
    ensures
        c@ == wsl_credentials(tool@, distro@),
{
    let mut script = text::copy("cat ");
    text::append(&mut script, credentials_file(tool).as_str());
    distro_command(distro, "sh", "-lc", script.as_str())
}

/// The command that prints the state of the credentials file in a distribution.
pub open spec fn wsl_watch(tool: Seq<char>, distro: Seq<char>) -> Command {
    in_distro(distro, "sh"@, "-lc"@, wsl_watch_script(tool))
}

/// Makes the command that prints the state of the credentials file in a distribution.
pub fn wsl_watch_command(tool: &str, distro: &str) -> (c: CommandLine)
    ensures
        c@ == wsl_watch(tool@, distro@),
{
    let file = credentials_file(tool);
    let mut script = text::copy("if [ -f ");
    text::append(&mut script, file.as_str());
    text::append(&mut script, " ]; then stat -c 'present|%s|%Y' ");
    text::append(&mut script, file.as_str());
    text::append(&mut script, "; else echo missing; fi");
    distro_command(distro, "sh", "-lc", script.as_str())
}

/// Makes the command that lists the distributions.
pub fn list_distros_command() -> (c: CommandLine)
    ensures
        c@ == (Command { program: "wsl.exe"@, args: seq!["-l"@, "-q"@], removed_vars: seq![] }),
{
    let mut c = command("wsl.exe");
    c.arg("-l");
    c.arg("-q");
    assert(c@.args =~= seq!["-l"@, "-q"@]);
    c
}

/// The name of a distribution stands in a command as one argument of its own: the commands
/// for two distributions differ in that argument and in nothing else.
pub proof fn law_distro_is_an_argument_of_its_own(tool: Seq<char>, a: Seq<char>, b: Seq<char>)
    ensures
        wsl_refresh(tool, b) == (Command {
            args: wsl_refresh(tool, a).args.update(1, b),
            ..wsl_refresh(tool, a)
        }),
        wsl_credentials(tool, b) == (Command {
            args: wsl_credentials(tool, a).args.update(1, b),
            ..wsl_credentials(tool, a)
        }),
        wsl_watch(tool, b) == (Command {
            args: wsl_watch(tool, a).args.update(1, b),
            ..wsl_watch(tool, a)
        }),
{
    assert(wsl_refresh(tool, b).args =~= wsl_refresh(tool, a).args.update(1, b));
    assert(wsl_credentials(tool, b).args =~= wsl_credentials(tool, a).args.update(1, b));
    assert(wsl_watch(tool, b).args =~= wsl_watch(tool, a).args.update(1, b));
}

/// The names that Anthropic's command line tool, which goes by the name `tool`, may have on
/// Windows, in the order in which they are tried. The first one is taken where none is
/// found.
pub open spec fn claude_names(tool: Seq<char>) -> Seq<Seq<char>> {
    seq![tool + ".cmd"@, tool]
}

/// The names that the Codex command line tool may have on Windows.
pub open spec fn codex_names() -> Seq<Seq<char>> {
    seq!["codex.cmd"@, "codex.ps1"@, "codex.exe"@, "codex"@]
}

/// Lists the names of Anthropic's command line tool (see [`claude_names`]).
pub fn claude_tool_names(tool: &str) -> (names: Vec<String>)
    ensures
        wsl::string_views(names@) == claude_names(tool@),
{
    let mut script = text::copy(tool);
    text::append(&mut script, ".cmd");
    let mut names: Vec<String> = Vec::new();
    names.push(script);
    names.push(text::copy(tool));
    assert(wsl::string_views(names@) =~= claude_names(tool@));
    names
}

/// Lists the names of the Codex command line tool (see [`codex_names`]).
pub fn codex_tool_names() -> (names: Vec<String>)
    ensures
        wsl::string_views(names@) == codex_names(),
{
    let mut names: Vec<String> = Vec::new();
    names.push(text::copy("codex.cmd"));
    names.push(text::copy("codex.ps1"));
    names.push(text::copy("codex.exe"));
    names.push(text::copy("codex"));
    assert(wsl::string_views(names@) =~= codex_names());
    names
}

/// Makes the command that tells whether a program of this name can be started.
pub fn probe_command(name: &str) -> (c: CommandLine)
    ensures
        c@ == (Command { program: name@, args: seq!["--version"@], removed_vars: seq![] }),
{
    let mut c = command(name);
    c.arg("--version");
    assert(c@.args =~= seq!["--version"@]);
    c
}

/// Makes the command that prints where a program of this name is.
pub fn lookup_command(name: &str) -> (c: CommandLine)
    ensures
        c@ == (Command { program: "where.exe"@, args: seq![name@], removed_vars: seq![] }),
{
    let mut c = command("where.exe");
    c.arg(name);
    assert(c@.args =~= seq![name@]);
    c
}

/// What is done next to find a tool.
pub enum ResolveStep {
    /// Try to start the tool by its name at this place.
    Probe(usize),
    /// Look up the name at this place.
    LookUp(usize),
    /// The tool is run by this path.
    Resolved(String),
}

/// The model of a [`ResolveStep`].
pub enum Resolve {
    Probe(int),
    LookUp(int),
    Resolved(Seq<char>),
}

impl View for ResolveStep {
    type V = Resolve;

    open spec fn view(&self) -> Resolve {
        match self {
            ResolveStep::Probe(i) => Resolve::Probe(*i as int),
            ResolveStep::LookUp(i) => Resolve::LookUp(*i as int),
            ResolveStep::Resolved(path) => Resolve::Resolved(path@),
        }
    }
}

/// The path that a lookup printed: its first line without the whitespace around it, unless
/// that is empty.
pub open spec fn printed_path(printed: Seq<char>) -> Option<Seq<char>> {
    let lines = text::text_lines(printed);
    if lines.len() > 0 && text::trimmed(lines[0]).len() > 0 {
        Some(text::trimmed(lines[0]))
    } else {
        None
    }
}

/// The path that a lookup gave: nothing if it failed, else what it printed.
pub open spec fn found_path(stdout: Option<Vec<u8>>) -> Option<Seq<char>> {
    match stdout {
        Some(bytes) => printed_path(wsl::utf8_lossy(bytes@)),
        None => None,
    }
}

/// Takes the path out of what a lookup printed (see [`printed_path`]).
pub fn first_printed_path(printed: &str) -> (path: Option<String>)
    ensures
        path is Some == printed_path(printed@) is Some,
        path matches Some(p) ==> printed_path(printed@) == Some(p@),
{
    let lines = text::lines(&text::chars_of(printed));
    if lines.len() == 0 {
        return None;
    }
    let line = text::trim(&lines[0]);
    assert(text::views(lines@)[0] == lines@[0]@);
    if line.len() == 0 {
        return None;
    }
    Some(text::text_of(&line))
}

/// How looking up the names goes on from the `k`-th one.
pub open spec fn look_up_next(names: Seq<Seq<char>>, lookups: Seq<Option<Vec<u8>>>, k: int) -> Resolve
    decreases names.len() - k,
{
    if k >= names.len() {
        Resolve::Resolved(names[0])
    } else if k >= lookups.len() {
        Resolve::LookUp(k)
    } else {
        match found_path(lookups[k]) {
            Some(path) => Resolve::Resolved(path),
            None => look_up_next(names, lookups, k + 1),
        }
    }
}

/// How finding the tool goes on from the `k`-th name: the first name by which it can be
/// started is taken; if there is none, the names are looked up.
pub open spec fn resolve_next(
    names: Seq<Seq<char>>,
    probes: Seq<bool>,
    lookups: Seq<Option<Vec<u8>>>,
    k: int,
) -> Resolve
    decreases names.len() - k,
{
    if k >= names.len() {
        look_up_next(names, lookups, 0)
    } else if k >= probes.len() {
        Resolve::Probe(k)
    } else if probes[k] {
        Resolve::Resolved(names[k])
    } else {
        resolve_next(names, probes, lookups, k + 1)
    }
}

/// Decides how looking up the names of a tool goes on.
fn look_up(names: &Vec<String>, lookups: &Vec<Option<Vec<u8>>>) -> (step: ResolveStep)
    requires
        names@.len() > 0,
    ensures
        step@ == look_up_next(wsl::string_views(names@), lookups@, 0),
{
    let ghost model = wsl::string_views(names@);
    let mut k: usize = 0;
    while k < names.len()
        invariant
            k <= names@.len(),
            model == wsl::string_views(names@),
            look_up_next(model, lookups@, 0) == look_up_next(model, lookups@, k as int),
        decreases names@.len() - k,
    {
        if k >= lookups.len() {
            return ResolveStep::LookUp(k);
        }
        if let Some(bytes) = &lookups[k] {
            let printed = wsl::decode_utf8_lossy(bytes);
            if let Some(path) = first_printed_path(printed.as_str()) {
                return ResolveStep::Resolved(path);
            }
        }
        k += 1;
    }
    assert(model[0] == names@[0]@);
    ResolveStep::Resolved(text::copy(names[0].as_str()))
}

/// Decides how finding a tool goes on, from whether it could be started by each of the
/// names that were tried, and from what the lookups that succeeded printed.
fn resolve(
    names: &Vec<String>,
    probes: &Vec<bool>,
    lookups: &Vec<Option<Vec<u8>>>,
) -> (step: ResolveStep)
    requires
        names@.len() > 0,
    ensures
        step@ == resolve_next(wsl::string_views(names@), probes@, lookups@, 0),
{
    let ghost model = wsl::string_views(names@);
    let mut k: usize = 0;
    while k < names.len()
        invariant
            k <= names@.len(),
            model == wsl::string_views(names@),
            resolve_next(model, probes@, lookups@, 0) == resolve_next(
                model,
                probes@,
                lookups@,
                k as int,
            ),
        decreases names@.len() - k,
    {
        if k >= probes.len() {
            return ResolveStep::Probe(k);
        }
        if probes[k] {
            assert(model[k as int] == names@[k as int]@);
            return ResolveStep::Resolved(text::copy(names[k].as_str()));
        }
        k += 1;
    }
    look_up(names, lookups)
}

/// Decides how finding Anthropic's command line tool goes on.
pub fn resolve_windows_claude_path(
    tool: &str,
    probes: &Vec<bool>,
    lookups: &Vec<Option<Vec<u8>>>,
) -> (step: ResolveStep)
    ensures
        step@ == resolve_next(claude_names(tool@), probes@, lookups@, 0),
{
    let names = claude_tool_names(tool);
    assert(names@.len() == wsl::string_views(names@).len());
    resolve(&names, probes, lookups)
}

/// Decides how finding the Codex command line tool goes on.
pub fn resolve_windows_codex_path(
    probes: &Vec<bool>,
    lookups: &Vec<Option<Vec<u8>>>,
) -> (step: ResolveStep)
    ensures
        step@ == resolve_next(codex_names(), probes@, lookups@, 0),
{
    let names = codex_tool_names();
    assert(names@.len() == wsl::string_views(names@).len());
    resolve(&names, probes, lookups)
}

/// Looking up names asks for each of them once, in order, and ends.
proof fn lemma_look_up_ends(names: Seq<Seq<char>>, lookups: Seq<Option<Vec<u8>>>, k: int)
    requires
        0 <= k <= names.len(),
        k <= lookups.len(),
    ensures
        look_up_next(names, lookups, k) matches Resolve::LookUp(i) ==> i == lookups.len() && i
            < names.len(),
        !(look_up_next(names, lookups, k) is Probe),
    decreases names.len() - k,
{
    if k < names.len() && k < lookups.len() {
        lemma_look_up_ends(names, lookups, k + 1);
    }
}

/// Finding a tool asks for one thing more each time, each name at most once in each way,
/// and ends in a path.
proof fn lemma_resolve_ends(names: Seq<Seq<char>>, probes: Seq<bool>, lookups: Seq<Option<Vec<u8>>>, k: int)
    requires
        0 <= k <= names.len(),
        k <= probes.len(),
    ensures
        match resolve_next(names, probes, lookups, k) {
            Resolve::Probe(i) => i == probes.len() && i < names.len(),
            Resolve::LookUp(i) => i == lookups.len() && i < names.len() && probes.len()
                >= names.len(),
            Resolve::Resolved(_) => true,
        },
    decreases names.len() - k,
{
    if k == names.len() {
        lemma_look_up_ends(names, lookups, 0);
    } else if k < probes.len() {
        lemma_resolve_ends(names, probes, lookups, k + 1);
    }
}

/// Finding a tool ends in a path: what is asked for is always the next probe, or the next
/// lookup once all probes are made, and there are as many of each as there are names.
pub proof fn law_finding_a_tool_ends(
    names: Seq<Seq<char>>,
    probes: Seq<bool>,
    lookups: Seq<Option<Vec<u8>>>,
)
    ensures
        match resolve_next(names, probes, lookups, 0) {
            Resolve::Probe(i) => i == probes.len() && i < names.len(),
            Resolve::LookUp(i) => i == lookups.len() && i < names.len() && probes.len()
                >= names.len(),
            Resolve::Resolved(_) => true,
        },
        probes.len() >= names.len() && lookups.len() >= names.len() ==> resolve_next(
            names,
            probes,
            lookups,
            0,
        ) is Resolved,
{
    lemma_resolve_ends(names, probes, lookups, 0);
}

/// What was seen of a program that is waited for.
#[derive(Clone, Copy, Debug, PartialEq, Eq, Structural)]
pub enum WaitEvent {
    /// It could not be started.
    NotStarted,
    /// It has ended.
    Exited,
    /// It still runs, this long after it was started.
    Running { elapsed_nanos: u128 },
    /// Its state could not be found out.
    Unknown,
}

/// What is done next about a program whose output is waited for.
#[derive(Clone, Copy, Debug, PartialEq, Eq, Structural)]
pub enum RunStep {
    /// Take its output.
    Collect,
    /// Wait this long and look again.
    Sleep { millis: u64 },
    /// End it and wait for it to be gone; there is no output.
    KillAndReap,
    /// There is no output.
    GiveUp,
}

/// What is done next about a program whose token refresh is waited for.
#[derive(Clone, Copy, Debug, PartialEq, Eq, Structural)]
pub enum WaitStep {
    /// Go on without it.
    Stop,
    /// Wait this long and look again.
    Sleep { millis: u64 },
    /// End it.
    Kill,
}

/// Seconds for which the output of a program is waited for.
pub const PROBE_TIMEOUT_SECS: u64 = 5;

/// Seconds for which a token refresh is waited for.
pub const REFRESH_TIMEOUT_SECS: u64 = 30;

/// Milliseconds between two looks at a program whose output is waited for.
pub const PROBE_POLL_MILLIS: u64 = 100;

/// Milliseconds between two looks at a token refresh.
pub const REFRESH_POLL_MILLIS: u64 = 500;

/// The time is over: more than this many seconds have passed.
pub open spec fn overdue(elapsed_nanos: nat, timeout_secs: nat) -> bool {
    elapsed_nanos > timeout_secs * 1_000_000_000
}

/// What is done next about a program whose output is waited for.
pub open spec fn run_next(event: WaitEvent, timeout_secs: u64) -> RunStep {
    match event {
        WaitEvent::NotStarted => RunStep::GiveUp,
        WaitEvent::Exited => RunStep::Collect,
        WaitEvent::Running { elapsed_nanos } => if overdue(
            elapsed_nanos as nat,
            timeout_secs as nat,
        ) {
            RunStep::KillAndReap
        } else {
            RunStep::Sleep { millis: PROBE_POLL_MILLIS }
        },
        WaitEvent::Unknown => RunStep::GiveUp,
    }
}

/// Decides what is done next about a program whose output is waited for. There is none if
/// it fails to start or exceeds the deadline.
pub fn run_with_timeout(event: WaitEvent, timeout_secs: u64) -> (step: RunStep)
    ensures
        step == run_next(event, timeout_secs),
{
    match event {
        WaitEvent::NotStarted => RunStep::GiveUp,
        WaitEvent::Exited => RunStep::Collect,
        WaitEvent::Running { elapsed_nanos } => {
            if elapsed_nanos > timeout_secs as u128 * 1_000_000_000 {
                RunStep::KillAndReap
            } else {
                RunStep::Sleep { millis: PROBE_POLL_MILLIS }
            }
        },
        WaitEvent::Unknown => RunStep::GiveUp,
    }
}

/// What is done next about a program whose token refresh is waited for.
pub open spec fn refresh_wait_next(event: WaitEvent) -> WaitStep {
    match event {
        WaitEvent::Running { elapsed_nanos } => if overdue(
            elapsed_nanos as nat,
            REFRESH_TIMEOUT_SECS as nat,
        ) {
            WaitStep::Kill
        } else {
            WaitStep::Sleep { millis: REFRESH_POLL_MILLIS }
        },
        _ => WaitStep::Stop,
    }
}

/// Decides what is done next about a program whose token refresh is waited for. It is
/// waited for only so long, in order not to block polling forever.
pub fn wait_for_refresh(event: WaitEvent) -> (step: WaitStep)
    ensures
        step == refresh_wait_next(event),
{
    match event {
        WaitEvent::Running { elapsed_nanos } => {
            if elapsed_nanos > REFRESH_TIMEOUT_SECS as u128 * 1_000_000_000 {
                WaitStep::Kill
            } else {
                WaitStep::Sleep { millis: REFRESH_POLL_MILLIS }
            }
        },
        _ => WaitStep::Stop,
    }
}

/// No program is waited for forever: if every wait lasts at least as long as it was asked
/// to, then a program is looked at no more than ten times for every second of its deadline
/// and once again, and a refresh no more than 61 times.
pub proof fn law_waiting_is_bounded(waits: nat, elapsed_nanos: u128, timeout_secs: u64)
    ensures
        elapsed_nanos >= waits * PROBE_POLL_MILLIS * 1_000_000 && run_next(
            WaitEvent::Running { elapsed_nanos },
            timeout_secs,
        ) is Sleep ==> waits <= 10 * timeout_secs,
        elapsed_nanos >= waits * REFRESH_POLL_MILLIS * 1_000_000 && refresh_wait_next(
            WaitEvent::Running { elapsed_nanos },
        ) is Sleep ==> waits <= 60,
{
}

/// A tool goes by the first of its names under which it could be started. If it could be
/// started under none, by the first path that a lookup of the names, in their order, gave; and
/// if there is none, by its first name.
pub proof fn law_first_way_to_a_tool_is_taken(
    names: Seq<Seq<char>>,
    probes: Seq<bool>,
    lookups: Seq<Option<Vec<u8>>>,
    k: int,
)
    requires
        0 <= k < names.len(),
    ensures
        k < probes.len() && probes[k] && (forall|i: int| 0 <= i < k ==> !probes[i]) ==> resolve_next(
            names,
            probes,
            lookups,
            0,
        ) == Resolve::Resolved(names[k]),
        probes.len() >= names.len() && (forall|i: int| 0 <= i < names.len() ==> !probes[i]) ==> {
            &&& k < lookups.len() && found_path(lookups[k]) is Some && (forall|i: int|
                0 <= i < k ==> found_path(#[trigger] lookups[i]) is None) ==> resolve_next(
                names,
                probes,
                lookups,
                0,
            ) == Resolve::Resolved(found_path(lookups[k]).unwrap())
            &&& lookups.len() >= names.len() && (forall|i: int|
                0 <= i < names.len() ==> found_path(#[trigger] lookups[i]) is None) ==> resolve_next(
                names,
                probes,
                lookups,
                0,
            ) == Resolve::Resolved(names[0])
        },
{
    if k < probes.len() && probes[k] && (forall|i: int| 0 <= i < k ==> !probes[i]) {
        lemma_probes_pass(names, probes, lookups, k);
    }
    if probes.len() >= names.len() && (forall|i: int| 0 <= i < names.len() ==> !probes[i]) {
        lemma_probes_pass(names, probes, lookups, names.len() as int);
        if k < lookups.len() && (forall|i: int|
            0 <= i < k ==> found_path(#[trigger] lookups[i]) is None) {
            lemma_lookups_pass(names, lookups, k);
        }
        if lookups.len() >= names.len() && (forall|i: int|
            0 <= i < names.len() ==> found_path(#[trigger] lookups[i]) is None) {
            lemma_lookups_pass(names, lookups, names.len() as int);
        }
    }
}

/// Names under which the tool could not be started are passed over.
proof fn lemma_probes_pass(
    names: Seq<Seq<char>>,
    probes: Seq<bool>,
    lookups: Seq<Option<Vec<u8>>>,
    k: int,
)
    requires
        0 <= k <= names.len(),
        k <= probes.len(),
        forall|i: int| 0 <= i < k ==> !probes[i],
    ensures
        resolve_next(names, probes, lookups, 0) == resolve_next(names, probes, lookups, k),
    decreases k,
{
    if k > 0 {
        lemma_probes_pass(names, probes, lookups, k - 1);
    }
}

/// Names whose lookup gave no path are passed over.
proof fn lemma_lookups_pass(names: Seq<Seq<char>>, lookups: Seq<Option<Vec<u8>>>, k: int)
    requires
        0 <= k <= names.len(),
        k <= lookups.len(),
        forall|i: int| 0 <= i < k ==> found_path(#[trigger] lookups[i]) is None,
    ensures
        look_up_next(names, lookups, 0) == look_up_next(names, lookups, k),
    decreases k,
{
    if k > 0 {
        lemma_lookups_pass(names, lookups, k - 1);
        assert(found_path(lookups[k - 1]) is None);
    }
}

/// The path that a lookup gave is its first line, without the whitespace around it, whatever
/// follows; there is none if that line is blank.
pub proof fn law_first_line_is_the_path(line: Seq<char>, rest: Seq<char>)
    requires
        !line.contains('\n'),
    ensures
        printed_path(line.push('\r').push('\n') + rest) == (if text::trimmed(line).len() > 0 {
            Some(text::trimmed(line))
        } else {
            None
        }),
{
    let ended = line.push('\r');
    assert(!ended.contains('\n'));
    text::law_lines_one_by_one(ended, rest);
    text::law_lines_one_by_one(line, rest);
}

/// Deadlines in numbers: the output of a program is taken when it has ended, and given up,
/// ending the program, exactly when it has run for longer than the seconds it was given;
/// until then it is looked at every 100 milliseconds. A token refresh is ended exactly when
/// it has run for longer than 30 seconds, and is looked at every 500 milliseconds.
pub proof fn law_deadlines_in_numbers(elapsed_nanos: u128, timeout_secs: u64)
    ensures
        ({
            let running = WaitEvent::Running { elapsed_nanos };
            &&& run_next(WaitEvent::Exited, timeout_secs) is Collect
            &&& run_next(WaitEvent::NotStarted, timeout_secs) is GiveUp
            &&& run_next(WaitEvent::Unknown, timeout_secs) is GiveUp
            &&& run_next(running, timeout_secs) is KillAndReap <==> elapsed_nanos > timeout_secs
                * 1_000_000_000
            &&& run_next(running, timeout_secs) == RunStep::Sleep { millis: 100 } <==> elapsed_nanos
                <= timeout_secs * 1_000_000_000
            &&& refresh_wait_next(WaitEvent::Exited) is Stop
            &&& refresh_wait_next(WaitEvent::NotStarted) is Stop
            &&& refresh_wait_next(WaitEvent::Unknown) is Stop
            &&& refresh_wait_next(running) is Kill <==> elapsed_nanos > 30_000_000_000
            &&& refresh_wait_next(running) == WaitStep::Sleep { millis: 500 } <==> elapsed_nanos
                <= 30_000_000_000
        }),
{
}

/// A refresh runs the tool at the path that it is given: as the program itself, or as the
/// first argument of the interpreter for a script. Anthropic's tool gets a prompt, and does
/// not see the variables that would tell it that it runs inside itself.
pub proof fn law_refresh_runs_the_tool(path: Seq<char>, lowered: Seq<char>, head: Seq<char>)
    ensures
        ({
            let claude = claude_refresh(path, lowered);
            let codex = codex_refresh(path, lowered);
            let script = lowered == head + ".cmd"@;
            let power_script = lowered == head + ".ps1"@;
            &&& claude.program == path || (claude.program == "cmd.exe"@ && claude.args[0] == "/c"@
                && claude.args[1] == path)
            &&& script ==> claude.program == "cmd.exe"@ && codex.program == "cmd.exe"@
                && codex.args[0] == "/c"@ && codex.args[1] == path
            &&& power_script ==> claude.program == path && codex.program == "powershell.exe"@
                && codex.args[3] == "-File"@ && codex.args[4] == path
            &&& !text::has_suffix(lowered, ".cmd"@) && !text::has_suffix(lowered, ".ps1"@)
                ==> claude.program == path && codex.program == path
            &&& claude.args[claude.args.len() - 2] == "-p"@ && claude.args.last() == "."@
            &&& codex.args[codex.args.len() - 2] == "exec"@ && codex.args.last() == "."@
            &&& claude.removed_vars == seq!["CLAUDECODE"@, "CLAUDE_CODE_ENTRYPOINT"@]
            &&& codex.removed_vars.len() == 0
        }),
{
    text::law_suffix_is_the_end(head, lowered, ".cmd"@);
    text::law_suffix_is_the_end(head, lowered, ".ps1"@);
    reveal_strlit(".cmd");
    reveal_strlit(".ps1");
    if lowered == head + ".ps1"@ {
        assert(lowered.last() == '1');
        if text::has_suffix(lowered, ".cmd"@) {
            assert(lowered.skip(lowered.len() - 4)[3] == 'd');
        }
    }
}

} // verus!
