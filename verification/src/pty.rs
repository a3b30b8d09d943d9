//! A child on the far side of a pseudoterminal: how it is started, what its
//! reads, writes and exit mean, and how it is let go.
//!
//! Everything that allocates is prepared by [`prepare`], before the process
//! forks. What is decided between the fork and the start of the program is
//! [`ChildStep::after`], which allocates nothing. The calls of the operating
//! system are the caller's.

use vstd::prelude::*;
use vstd::slice::slice_to_vec;
use vstd::utf8::*;

use crate::mirror::at_least_one;
use crate::path::{
    absolute, byte_views, bytes_view, divide, divided, file_name, is_absolute, join, joined,
    last_name, same_bytes, SEPARATOR,
};
use crate::settings::{ShellSettings, ShellView};

verus! {

/// The shell where the environment names none, or not by a path from the root.
/// It is the one that is always there.
pub const ROOT_SHELL: &'static str = "/bin/sh";

/// The byte that no argument of a program can hold.
pub const NUL: u8 = 0;

/// What stands before a shell's own name to tell it that it is a login shell.
pub const DASH: u8 = 45;

pub const EQUALS: u8 = 61;

pub const TILDE: u8 = 126;

/// What divides the directories to look for programs in.
pub const COLON: u8 = 58;

/// How a child is started.
#[derive(Debug, Clone, PartialEq, Eq)]
pub struct PtyConfig {
    /// A path from the root: starting a program looks nothing up.
    pub program: Vec<u8>,
    pub args: Vec<Vec<u8>>,
    pub cwd: Option<Vec<u8>>,
    /// Variables on top of the inherited ones.
    pub env: Vec<(Vec<u8>, Vec<u8>)>,
    /// Variables that are not inherited.
    pub env_remove: Vec<Vec<u8>>,
    pub cols: u16,
    pub rows: u16,
}

/// [`PtyConfig`] with its texts as byte sequences.
#[verifier::ext_equal]
pub struct ConfigView {
    pub program: Seq<u8>,
    pub args: Seq<Seq<u8>>,
    pub cwd: Option<Seq<u8>>,
    pub env: Seq<(Seq<u8>, Seq<u8>)>,
    pub env_remove: Seq<Seq<u8>>,
    pub cols: u16,
    pub rows: u16,
}

/// What variables are.
pub open spec fn variables(v: Seq<(Vec<u8>, Vec<u8>)>) -> Seq<(Seq<u8>, Seq<u8>)> {
    v.map_values(|p: (Vec<u8>, Vec<u8>)| (p.0@, p.1@))
}

impl View for PtyConfig {
    type V = ConfigView;

    open spec fn view(&self) -> ConfigView {
        ConfigView {
            program: self.program@,
            args: byte_views(self.args@),
            cwd: bytes_view(self.cwd),
            env: variables(self.env@),
            env_remove: byte_views(self.env_remove@),
            cols: self.cols,
            rows: self.rows,
        }
    }
}

fn or_one(n: u16) -> (m: u16)
    ensures
        m == at_least_one(n),
{
    if n == 0 {
        1
    } else {
        n
    }
}

/// The name that a program goes by: its file's, or the root shell's.
pub open spec fn name_of(program: Seq<u8>) -> Seq<u8> {
    match last_name(program, program.len() as int) {
        Some(name) => name,
        None => encode_utf8("sh"@),
    }
}

fn program_name(program: &[u8]) -> (name: Vec<u8>)
    ensures
        name@ == name_of(program@),
{
    match file_name(program) {
        Some(name) => name,
        None => slice_to_vec("sh".as_bytes()),
    }
}

/// The name that a login shell is started under.
pub open spec fn login_name(program: Seq<u8>) -> Seq<u8> {
    seq![DASH] + name_of(program)
}

fn login_argument(program: &[u8]) -> (name: Vec<u8>)
    ensures
        name@ == login_name(program@),
{
    let mut name: Vec<u8> = Vec::new();
    name.push(DASH);
    let mut rest = program_name(program);
    name.append(&mut rest);
    assert(name@ =~= login_name(program@));
    name
}

/// The shell that the environment names, if it does so by a path from the root.
pub open spec fn chosen_shell(variable: Option<Seq<u8>>) -> Seq<u8> {
    match variable {
        Some(p) => if absolute(p) {
            p
        } else {
            encode_utf8(ROOT_SHELL@)
        },
        None => encode_utf8(ROOT_SHELL@),
    }
}

/// A login shell that the environment names.
pub open spec fn login_config(cols: u16, rows: u16, variable: Option<Seq<u8>>) -> ConfigView {
    ConfigView {
        program: chosen_shell(variable),
        args: seq![login_name(chosen_shell(variable))],
        cwd: None,
        env: Seq::empty(),
        env_remove: Seq::empty(),
        cols: at_least_one(cols),
        rows: at_least_one(rows),
    }
}

/// A path with a leading tilde replaced by the home directory. Another user's
/// home is not looked up.
pub open spec fn untilded(text: Seq<u8>, home: Option<Seq<u8>>) -> Seq<u8> {
    match home {
        None => text,
        Some(h) => if text == seq![TILDE] {
            h
        } else if text.len() >= 2 && text[0] == TILDE && text[1] == SEPARATOR {
            joined(h, text.skip(2))
        } else {
            text
        },
    }
}

/// The directory that a text names. `home` is the home directory, where there
/// is one.
pub fn expand_tilde(text: &str, home: &Option<Vec<u8>>) -> (p: Vec<u8>)
    ensures
        p@ == untilded(encode_utf8(text@), bytes_view(*home)),
{
    let bytes = text.as_bytes();
    match home {
        None => slice_to_vec(bytes),
        Some(h) => {
            let n: usize = bytes.len();
            if n == 1 && bytes[0] == TILDE {
                assert(bytes@ =~= seq![TILDE]);
                return slice_to_vec(h.as_slice());
            }
            assert(bytes@ != seq![TILDE]) by {
                if bytes@ == seq![TILDE] {
                    assert(bytes@.len() == 1);
                    assert(bytes@[0] == TILDE);
                }
            }
            if n >= 2 && bytes[0] == TILDE && bytes[1] == SEPARATOR {
                let rest = vstd::slice::slice_subrange(bytes, 2, n);
                assert(rest@ =~= bytes@.skip(2));
                join(h.as_slice(), rest)
            } else {
                slice_to_vec(bytes)
            }
        },
    }
}

/// Whether the settings' program is taken: it is a path from the root to
/// something that exists.
pub open spec fn program_taken(shell: ShellView, exists_there: bool) -> bool {
    shell.program matches Some(p) && absolute(encode_utf8(p)) && exists_there
}

/// A login shell that the settings may change. `there` says whether the
/// settings' program exists, `is_dir` whether the starting directory is one.
pub open spec fn shell_config(
    cols: u16,
    rows: u16,
    shell: ShellView,
    variable: Option<Seq<u8>>,
    home: Option<Seq<u8>>,
    there: bool,
    is_dir: bool,
) -> ConfigView {
    let plain = login_config(cols, rows, variable);
    let program = if program_taken(shell, there) {
        encode_utf8(shell.program->0)
    } else {
        plain.program
    };
    ConfigView {
        program,
        args: seq![login_name(program)],
        cwd: match shell.starting_dir {
            Some(d) => if is_dir {
                Some(untilded(encode_utf8(d), home))
            } else {
                None
            },
            None => None,
        },
        ..plain
    }
}

impl PtyConfig {
    /// A login shell. `shell` is what the environment says of it.
    pub fn for_login_shell(cols: u16, rows: u16, shell: Option<Vec<u8>>) -> (c: PtyConfig)
        ensures
            c@ == login_config(cols, rows, bytes_view(shell)),
    {
        let program = match shell {
            Some(p) => if is_absolute(p.as_slice()) {
                p
            } else {
                slice_to_vec(ROOT_SHELL.as_bytes())
            },
            None => slice_to_vec(ROOT_SHELL.as_bytes()),
        };
        let mut args: Vec<Vec<u8>> = Vec::new();
        args.push(login_argument(program.as_slice()));
        let c = PtyConfig {
            program,
            args,
            cwd: None,
            env: Vec::new(),
            env_remove: Vec::new(),
            cols: or_one(cols),
            rows: or_one(rows),
        };
        assert(c@ =~= login_config(cols, rows, bytes_view(shell)));
        c
    }

    /// A login shell, as the settings want it. A program that is not there, or
    /// not named by a path from the root, is passed over, and so is a starting
    /// directory that is none: a slip in the settings must not leave a terminal
    /// without a shell. `there` says whether the settings' program exists,
    /// `is_dir` whether their starting directory, with its tilde expanded, is
    /// one.
    pub fn for_shell_settings(
        cols: u16,
        rows: u16,
        settings: &ShellSettings,
        shell: Option<Vec<u8>>,
        home: &Option<Vec<u8>>,
        there: bool,
        is_dir: bool,
    ) -> (c: PtyConfig)
        ensures
            c@ == shell_config(
                cols,
                rows,
                settings@,
                bytes_view(shell),
                bytes_view(*home),
                there,
                is_dir,
            ),
    {
        let ghost plain = login_config(cols, rows, bytes_view(shell));
        let mut c = PtyConfig::for_login_shell(cols, rows, shell);
        match &settings.program {
            Some(program) => {
                let bytes = program.as_str().as_bytes();
                if is_absolute(bytes) && there {
                    c.program = slice_to_vec(bytes);
                    let mut args: Vec<Vec<u8>> = Vec::new();
                    args.push(login_argument(bytes));
                    assert(byte_views(args@) =~= seq![login_name(bytes@)]);
                    c.args = args;
                }
            },
            None => {},
        }
        match &settings.starting_dir {
            Some(dir) => {
                if is_dir {
                    c.cwd = Some(expand_tilde(dir.as_str(), home));
                }
            },
            None => {},
        }
        c
    }

    /// The same child with one variable more.
    pub fn env(self, key: Vec<u8>, value: Vec<u8>) -> (c: PtyConfig)
        ensures
            c@ == (ConfigView { env: self@.env.push((key@, value@)), ..self@ }),
    {
        let mut c = self;
        c.env.push((key, value));
        assert(c@.env =~= self@.env.push((key@, value@)));
        c
    }
}

/// With nothing set, the settings change nothing about a login shell.
pub proof fn law_default_settings_change_nothing(
    cols: u16,
    rows: u16,
    shell: ShellView,
    variable: Option<Seq<u8>>,
    home: Option<Seq<u8>>,
    there: bool,
    is_dir: bool,
)
    requires
        shell.program is None,
        shell.starting_dir is None,
    ensures
        shell_config(cols, rows, shell, variable, home, there, is_dir) == login_config(
            cols,
            rows,
            variable,
        ),
{
}

/// The shell that is started is named by a path from the root, whatever the
/// environment and the settings say.
pub proof fn law_the_program_is_absolute(
    cols: u16,
    rows: u16,
    shell: ShellView,
    variable: Option<Seq<u8>>,
    home: Option<Seq<u8>>,
    there: bool,
    is_dir: bool,
)
    ensures
        absolute(shell_config(cols, rows, shell, variable, home, there, is_dir).program),
{
    reveal_strlit("/bin/sh");
    is_ascii_chars_encode_utf8(ROOT_SHELL@);
}

/// What keeps a child from being started.
#[derive(Debug, Clone, Copy, PartialEq, Eq, Structural)]
pub enum PtyError {
    /// The program's path holds a NUL.
    Program,
    /// A variable or an argument holds a NUL.
    Text,
    /// The directory's path holds a NUL.
    Directory,
}

impl PtyError {
    pub fn message(self) -> (text: &'static str)
        ensures
            text@ == match self {
                PtyError::Program => "program path contains a NUL"@,
                PtyError::Text => "environment or argument contains a NUL"@,
                PtyError::Directory => "cwd contains a NUL"@,
            },
    {
        match self {
            PtyError::Program => "program path contains a NUL",
            PtyError::Text => "environment or argument contains a NUL",
            PtyError::Directory => "cwd contains a NUL",
        }
    }
}

fn holds_nul(b: &[u8]) -> (yes: bool)
    ensures
        yes == b@.contains(NUL),
{
    let n: usize = b.len();
    let mut i: usize = 0;
    while i < n
        invariant
            i <= n == b@.len(),
            forall|k: int| 0 <= k < i ==> b@[k] != NUL,
        decreases n - i,
    {
        if b[i] == NUL {
            assert(b@[i as int] == NUL);
            return true;
        }
        i += 1;
    }
    false
}

/// Whether no text holds a NUL.
pub open spec fn clean(texts: Seq<Seq<u8>>) -> bool {
    forall|i: int| 0 <= i < texts.len() ==> !(#[trigger] texts[i]).contains(NUL)
}

fn all_clean(texts: &Vec<Vec<u8>>) -> (yes: bool)
    ensures
        yes == clean(byte_views(texts@)),
{
    let ghost views = byte_views(texts@);
    let n: usize = texts.len();
    let mut i: usize = 0;
    while i < n
        invariant
            i <= n == texts@.len(),
            views == byte_views(texts@),
            forall|k: int| 0 <= k < i ==> !(#[trigger] views[k]).contains(NUL),
        decreases n - i,
    {
        assert(views[i as int] == texts@[i as int]@);
        if holds_nul(texts[i].as_slice()) {
            return false;
        }
        i += 1;
    }
    true
}

/// The arguments, the child's own name first: the program's, where none are
/// given.
pub open spec fn arguments(c: ConfigView) -> Seq<Seq<u8>> {
    if c.args.len() == 0 {
        seq![name_of(c.program)]
    } else {
        c.args
    }
}

fn copies(texts: &Vec<Vec<u8>>) -> (v: Vec<Vec<u8>>)
    ensures
        byte_views(v@) == byte_views(texts@),
{
    let mut v: Vec<Vec<u8>> = Vec::new();
    let n: usize = texts.len();
    let mut i: usize = 0;
    while i < n
        invariant
            i <= n == texts@.len(),
            v@.len() == i,
            forall|k: int| 0 <= k < i ==> (#[trigger] v@[k])@ == texts@[k]@,
        decreases n - i,
    {
        v.push(slice_to_vec(texts[i].as_slice()));
        i += 1;
    }
    assert(byte_views(v@) =~= byte_views(texts@));
    v
}

/// The arguments of a child.
pub fn build_argv(config: &PtyConfig) -> (r: Result<Vec<Vec<u8>>, PtyError>)
    ensures
        match r {
            Ok(argv) => byte_views(argv@) == arguments(config@) && clean(arguments(config@)),
            Err(e) => e is Text && !clean(arguments(config@)),
        },
{
    let argv = if config.args.len() == 0 {
        let mut v: Vec<Vec<u8>> = Vec::new();
        v.push(program_name(config.program.as_slice()));
        assert(byte_views(v@) =~= seq![name_of(config.program@)]);
        v
    } else {
        copies(&config.args)
    };
    if all_clean(&argv) {
        Ok(argv)
    } else {
        Err(PtyError::Text)
    }
}

/// A variable as it is handed to a program.
pub open spec fn assignment(p: (Seq<u8>, Seq<u8>)) -> Seq<u8> {
    p.0 + seq![EQUALS] + p.1
}

/// Whether a variable is among others.
pub open spec fn sets(vars: Seq<(Seq<u8>, Seq<u8>)>, key: Seq<u8>) -> bool {
    exists|i: int| 0 <= i < vars.len() && (#[trigger] vars[i]).0 == key
}

/// Whether a variable is inherited: the child neither drops nor replaces it.
pub open spec fn inherits(c: ConfigView, key: Seq<u8>) -> bool {
    !c.env_remove.contains(key) && !sets(c.env, key)
}

/// Those of the first `n` inherited variables that the child keeps.
pub open spec fn kept(c: ConfigView, inherited: Seq<(Seq<u8>, Seq<u8>)>, n: int) -> Seq<Seq<u8>>
    decreases n,
{
    if n <= 0 {
        Seq::empty()
    } else if inherits(c, inherited[n - 1].0) {
        kept(c, inherited, n - 1).push(assignment(inherited[n - 1]))
    } else {
        kept(c, inherited, n - 1)
    }
}

/// The child's variables: what it keeps, then what it adds.
pub open spec fn environment(c: ConfigView, inherited: Seq<(Seq<u8>, Seq<u8>)>) -> Seq<Seq<u8>> {
    kept(c, inherited, inherited.len() as int) + c.env.map_values(
        |p: (Seq<u8>, Seq<u8>)| assignment(p),
    )
}

fn assigned(key: &[u8], value: &[u8]) -> (text: Vec<u8>)
    ensures
        text@ == assignment((key@, value@)),
{
    let mut text = slice_to_vec(key);
    text.push(EQUALS);
    let mut tail = slice_to_vec(value);
    text.append(&mut tail);
    assert(text@ =~= assignment((key@, value@)));
    text
}

fn is_inherited(config: &PtyConfig, key: &[u8]) -> (yes: bool)
    ensures
        yes == inherits(config@, key@),
{
    let n: usize = config.env_remove.len();
    let mut i: usize = 0;
    while i < n
        invariant
            i <= n == config.env_remove@.len(),
            forall|k: int| 0 <= k < i ==> #[trigger] config@.env_remove[k] != key@,
        decreases n - i,
    {
        assert(config@.env_remove[i as int] == config.env_remove@[i as int]@);
        if same_bytes(config.env_remove[i].as_slice(), key) {
            return false;
        }
        i += 1;
    }
    let m: usize = config.env.len();
    let mut j: usize = 0;
    while j < m
        invariant
            j <= m == config.env@.len(),
            forall|k: int| 0 <= k < j ==> (#[trigger] config@.env[k]).0 != key@,
        decreases m - j,
    {
        assert(config@.env[j as int].0 == config.env@[j as int].0@);
        if same_bytes(config.env[j].0.as_slice(), key) {
            return false;
        }
        j += 1;
    }
    assert(!sets(config@.env, key@));
    true
}

/// The variables of a child, over those that it would inherit.
pub fn build_envp(config: &PtyConfig, inherited: &Vec<(Vec<u8>, Vec<u8>)>) -> (r: Result<
    Vec<Vec<u8>>,
    PtyError,
>)
    ensures
        match r {
            Ok(envp) => {
                &&& byte_views(envp@) == environment(config@, variables(inherited@))
                &&& clean(environment(config@, variables(inherited@)))
            },
            Err(e) => e is Text && !clean(environment(config@, variables(inherited@))),
        },
{
    let ghost c = config@;
    let ghost from = variables(inherited@);
    let mut envp: Vec<Vec<u8>> = Vec::new();
    let n: usize = inherited.len();
    let mut i: usize = 0;
    assert(byte_views(envp@) =~= kept(c, from, 0));
    while i < n
        invariant
            i <= n == inherited@.len(),
            c == config@,
            from == variables(inherited@),
            byte_views(envp@) == kept(c, from, i as int),
        decreases n - i,
    {
        assert(from[i as int] == (inherited@[i as int].0@, inherited@[i as int].1@));
        if is_inherited(config, inherited[i].0.as_slice()) {
            let ghost had = byte_views(envp@);
            let text = assigned(inherited[i].0.as_slice(), inherited[i].1.as_slice());
            envp.push(text);
            assert(byte_views(envp@) =~= had.push(text@));
        }
        i += 1;
    }
    let ghost base = byte_views(envp@);
    let ghost added = c.env.map_values(|p: (Seq<u8>, Seq<u8>)| assignment(p));
    let m: usize = config.env.len();
    let mut j: usize = 0;
    assert(byte_views(envp@) =~= base + added.take(0));
    while j < m
        invariant
            j <= m == config.env@.len(),
            c == config@,
            added == c.env.map_values(|p: (Seq<u8>, Seq<u8>)| assignment(p)),
            byte_views(envp@) == base + added.take(j as int),
        decreases m - j,
    {
        assert(c.env[j as int] == (config.env@[j as int].0@, config.env@[j as int].1@));
        let ghost had = byte_views(envp@);
        let text = assigned(config.env[j].0.as_slice(), config.env[j].1.as_slice());
        assert(added[j as int] == text@);
        envp.push(text);
        assert(byte_views(envp@) =~= had.push(text@));
        assert(added.take(j + 1) =~= added.take(j as int).push(text@));
        j += 1;
    }
    assert(added.take(m as int) =~= added);
    if all_clean(&envp) {
        Ok(envp)
    } else {
        Err(PtyError::Text)
    }
}

/// A variable that the child sets has that value in its environment and is not
/// inherited besides.
pub proof fn law_additions_replace_what_is_inherited(
    c: ConfigView,
    inherited: Seq<(Seq<u8>, Seq<u8>)>,
    i: int,
)
    requires
        0 <= i < c.env.len(),
    ensures
        environment(c, inherited).contains(assignment(c.env[i])),
        !inherits(c, c.env[i].0),
{
    let base = kept(c, inherited, inherited.len() as int);
    let added = c.env.map_values(|p: (Seq<u8>, Seq<u8>)| assignment(p));
    assert(environment(c, inherited)[base.len() + i] == added[i]);
    assert(c.env[i].0 == c.env[i].0);
}

/// What a child is started with.
#[derive(Debug, Clone, PartialEq, Eq)]
pub struct Launch {
    pub program: Vec<u8>,
    pub argv: Vec<Vec<u8>>,
    pub envp: Vec<Vec<u8>>,
    pub cwd: Option<Vec<u8>>,
    pub cols: u16,
    pub rows: u16,
}

/// Why a child cannot be started, if it cannot.
pub open spec fn refusal(c: ConfigView, inherited: Seq<(Seq<u8>, Seq<u8>)>) -> Option<PtyError> {
    if c.program.contains(NUL) {
        Some(PtyError::Program)
    } else if !clean(arguments(c)) || !clean(environment(c, inherited)) {
        Some(PtyError::Text)
    } else if c.cwd matches Some(d) && d.contains(NUL) {
        Some(PtyError::Directory)
    } else {
        None
    }
}

/// Everything that a child is started with, before the process forks.
pub fn prepare(config: &PtyConfig, inherited: &Vec<(Vec<u8>, Vec<u8>)>) -> (r: Result<
    Launch,
    PtyError,
>)
    ensures
        match r {
            Ok(l) => {
                &&& refusal(config@, variables(inherited@)) is None
                &&& l.program@ == config@.program
                &&& byte_views(l.argv@) == arguments(config@)
                &&& byte_views(l.envp@) == environment(config@, variables(inherited@))
                &&& bytes_view(l.cwd) == config@.cwd
                &&& l.cols == config@.cols
                &&& l.rows == config@.rows
            },
            Err(e) => refusal(config@, variables(inherited@)) == Some(e),
        },
{
    if holds_nul(config.program.as_slice()) {
        return Err(PtyError::Program);
    }
    let argv = match build_argv(config) {
        Ok(v) => v,
        Err(e) => {
            return Err(e);
        },
    };
    let envp = match build_envp(config, inherited) {
        Ok(v) => v,
        Err(e) => {
            return Err(e);
        },
    };
    let cwd = match &config.cwd {
        Some(d) => {
            if holds_nul(d.as_slice()) {
                return Err(PtyError::Directory);
            }
            Some(slice_to_vec(d.as_slice()))
        },
        None => None,
    };
    Ok(
        Launch {
            program: slice_to_vec(config.program.as_slice()),
            argv,
            envp,
            cwd,
            cols: config.cols,
            rows: config.rows,
        },
    )
}

/// What `fork` said.
#[derive(Debug, Clone, Copy, PartialEq, Eq, Structural)]
pub enum Forked {
    Failed,
    /// This is the child.
    Child,
    /// This is the parent, and that is the child.
    Parent(i32),
}

pub fn forked(pid: i32) -> (f: Forked)
    ensures
        f == if pid == -1 {
            Forked::Failed
        } else if pid == 0 {
            Forked::Child
        } else {
            Forked::Parent(pid)
        },
{
    if pid == -1 {
        Forked::Failed
    } else if pid == 0 {
        Forked::Child
    } else {
        Forked::Parent(pid)
    }
}

/// What a child does after the fork. Nothing can be reported from there: a
/// failure is the child's exit status.
#[derive(Debug, Clone, Copy, PartialEq, Eq, Structural)]
pub enum ChildStep {
    NewSession,
    /// Makes the terminal the controlling one. It was opened before the session
    /// began.
    TakeTerminal,
    Input,
    Output,
    Errors,
    CloseTerminal,
    EnterDirectory,
    /// Signals go back to what a fresh process has; a shell that inherits an
    /// ignored broken pipe misbehaves.
    ResetSignals,
    Start,
    Quit(i32),
}

/// The exit status of a child that could not set itself up.
pub const SETUP_FAILED: i32 = 126;

/// The exit status of a child whose program could not be started.
pub const START_FAILED: i32 = 127;

/// The highest of the standard streams.
pub const LAST_STREAM: i32 = 2;

/// How far a child has come.
pub open spec fn progress(s: ChildStep) -> int {
    match s {
        ChildStep::NewSession => 0,
        ChildStep::TakeTerminal => 1,
        ChildStep::Input => 2,
        ChildStep::Output => 3,
        ChildStep::Errors => 4,
        ChildStep::CloseTerminal => 5,
        ChildStep::EnterDirectory => 6,
        ChildStep::ResetSignals => 7,
        ChildStep::Start => 8,
        ChildStep::Quit(_) => 9,
    }
}

/// Whether a child that fails at a step gives up.
pub open spec fn must_succeed(s: ChildStep) -> bool {
    !(s is CloseTerminal) && !(s is ResetSignals)
}

/// Whether a step is there for a child.
pub open spec fn takes_step(s: ChildStep, terminal: i32, has_directory: bool) -> bool {
    &&& s is CloseTerminal ==> terminal > LAST_STREAM
    &&& s is EnterDirectory ==> has_directory
}

impl ChildStep {
    /// The step after this one. `failed` says how it went, `terminal` is the
    /// descriptor that the terminal was inherited under.
    pub fn after(self, failed: bool, terminal: i32, has_directory: bool) -> (next: ChildStep)
        ensures
            match self {
                ChildStep::Quit(_) => next == self,
                ChildStep::Start => next == ChildStep::Quit(START_FAILED),
                _ => {
                    if failed && must_succeed(self) {
                        next == ChildStep::Quit(SETUP_FAILED)
                    } else {
                        // The next one that this child takes.
                        &&& !(next is Quit)
                        &&& progress(self) < progress(next)
                        &&& takes_step(next, terminal, has_directory)
                        &&& forall|s: ChildStep|
                            progress(self) < #[trigger] progress(s) < progress(next)
                                ==> !takes_step(s, terminal, has_directory)
                    }
                },
            },
    {
        match self {
            ChildStep::Quit(_) => self,
            ChildStep::Start => ChildStep::Quit(START_FAILED),
            ChildStep::NewSession => if failed {
                ChildStep::Quit(SETUP_FAILED)
            } else {
                ChildStep::TakeTerminal
            },
            ChildStep::TakeTerminal => if failed {
                ChildStep::Quit(SETUP_FAILED)
            } else {
                ChildStep::Input
            },
            ChildStep::Input => if failed {
                ChildStep::Quit(SETUP_FAILED)
            } else {
                ChildStep::Output
            },
            ChildStep::Output => if failed {
                ChildStep::Quit(SETUP_FAILED)
            } else {
                ChildStep::Errors
            },
            ChildStep::Errors => if failed {
                ChildStep::Quit(SETUP_FAILED)
            } else if terminal > LAST_STREAM {
                ChildStep::CloseTerminal
            } else if has_directory {
                ChildStep::EnterDirectory
            } else {
                ChildStep::ResetSignals
            },
            ChildStep::CloseTerminal => if has_directory {
                ChildStep::EnterDirectory
            } else {
                ChildStep::ResetSignals
            },
            ChildStep::EnterDirectory => if failed {
                ChildStep::Quit(SETUP_FAILED)
            } else {
                ChildStep::ResetSignals
            },
            ChildStep::ResetSignals => ChildStep::Start,
        }
    }
}

/// How a child ended.
#[derive(Debug, Clone, Copy, PartialEq, Eq, Structural)]
pub enum ExitStatus {
    Exited(i32),
    Signaled(i32),
}

impl ExitStatus {
    /// The exit code, unless a signal ended the child.
    pub fn code(self) -> (c: Option<i32>)
        ensures
            c == exit_code(self),
    {
        match self {
            ExitStatus::Exited(c) => Some(c),
            ExitStatus::Signaled(_) => None,
        }
    }
}

/// The exit code of a child, unless a signal ended it.
pub open spec fn exit_code(s: ExitStatus) -> Option<i32> {
    match s {
        ExitStatus::Exited(c) => Some(c),
        ExitStatus::Signaled(_) => None,
    }
}

/// What a wait status says: the low seven bits hold the signal, and where there
/// is none the next byte up holds the code.
pub open spec fn status_of(raw: i32) -> ExitStatus {
    if raw & 0x7f == 0 {
        ExitStatus::Exited((raw >> 8) & 0xff)
    } else {
        ExitStatus::Signaled(raw & 0x7f)
    }
}

pub fn decode_status(raw: i32) -> (s: ExitStatus)
    ensures
        s == status_of(raw),
{
    if raw & 0x7f == 0 {
        ExitStatus::Exited((raw >> 8) & 0xff)
    } else {
        ExitStatus::Signaled(raw & 0x7f)
    }
}

/// A code that a child exits with comes back as it was, and so does the signal
/// that ends one.
pub proof fn law_statuses_come_back(code: i32, signal: i32)
    requires
        0 <= code < 256,
        1 <= signal < 128,
    ensures
        status_of((code << 8) as i32) == ExitStatus::Exited(code),
        status_of(signal) == ExitStatus::Signaled(signal),
{
    assert(((code << 8) as i32) & 0x7f == 0 && (((code << 8) as i32) >> 8) & 0xff == code)
        by (bit_vector)
        requires
            0 <= code < 256,
    ;
    assert(signal & 0x7f == signal) by (bit_vector)
        requires
            1 <= signal < 128,
    ;
}

/// What a call that waits for a child said.
#[derive(Debug, Clone, Copy, PartialEq, Eq, Structural)]
pub enum Waited {
    /// It was interrupted: ask again.
    Again,
    Running,
    Failed,
    Ended(ExitStatus),
}

/// A child, and how it ended once that is known.
#[derive(Debug, Clone, Copy, PartialEq, Eq, Structural)]
pub struct Child {
    pub pid: i32,
    pub reaped: Option<ExitStatus>,
}

impl Child {
    pub fn new(pid: i32) -> (c: Child)
        ensures
            c == (Child { pid, reaped: None }),
    {
        Child { pid, reaped: None }
    }

    /// What a wait says, and what is known of the child after it: `answer` is
    /// what the call returned, `raw` the status.
    pub open spec fn told(self, answer: i32, raw: i32, interrupted: bool, blocks: bool) -> (
        Child,
        Waited,
    ) {
        if self.reaped is Some {
            (self, Waited::Ended(self.reaped->0))
        } else if answer == -1 {
            (
                self,
                if blocks && interrupted {
                    Waited::Again
                } else {
                    Waited::Failed
                },
            )
        } else if !blocks && answer == 0 {
            (self, Waited::Running)
        } else {
            (
                Child { reaped: Some(status_of(raw)), ..self },
                Waited::Ended(status_of(raw)),
            )
        }
    }

    /// What a `waitpid` that does not block came back with: `answer` is what it
    /// returned, `raw` the status. An end is remembered: it is told only once.
    pub fn polled(&mut self, answer: i32, raw: i32) -> (w: Waited)
        ensures
            (*final(self), w) == old(self).told(answer, raw, false, false),
            match old(self).reaped {
                Some(s) => w == Waited::Ended(s) && *final(self) == *old(self),
                None => if answer == 0 {
                    w == Waited::Running && *final(self) == *old(self)
                } else if answer == -1 {
                    w == Waited::Failed && *final(self) == *old(self)
                } else {
                    &&& w == Waited::Ended(status_of(raw))
                    &&& *final(self) == (Child { reaped: Some(status_of(raw)), ..*old(self) })
                },
            },
    {
        match self.reaped {
            Some(s) => Waited::Ended(s),
            None => if answer == 0 {
                Waited::Running
            } else if answer == -1 {
                Waited::Failed
            } else {
                let s = decode_status(raw);
                self.reaped = Some(s);
                Waited::Ended(s)
            },
        }
    }

    /// What a `waitpid` that blocks came back with.
    pub fn waited(&mut self, answer: i32, raw: i32, interrupted: bool) -> (w: Waited)
        ensures
            (*final(self), w) == old(self).told(answer, raw, interrupted, true),
            match old(self).reaped {
                Some(s) => w == Waited::Ended(s) && *final(self) == *old(self),
                None => if answer == -1 {
                    &&& *final(self) == *old(self)
                    &&& w == if interrupted {
                        Waited::Again
                    } else {
                        Waited::Failed
                    }
                } else {
                    &&& w == Waited::Ended(status_of(raw))
                    &&& *final(self) == (Child { reaped: Some(status_of(raw)), ..*old(self) })
                },
            },
    {
        match self.reaped {
            Some(s) => Waited::Ended(s),
            None => if answer == -1 {
                if interrupted {
                    Waited::Again
                } else {
                    Waited::Failed
                }
            } else {
                let s = decode_status(raw);
                self.reaped = Some(s);
                Waited::Ended(s)
            },
        }
    }
}

/// How often a child that was hung up is looked for before it is killed.
pub const ATTEMPTS: u32 = 40;

/// How long to sleep between looks, in milliseconds.
pub const INTERVAL: u64 = 5;

/// What follows a look for a child that was hung up.
#[derive(Debug, Clone, Copy, PartialEq, Eq, Structural)]
pub enum Closing {
    Done,
    /// Look again after the interval.
    Look,
    /// After the interval it still ignored the hangup: kill it, which it cannot
    /// ignore, and wait.
    Kill,
}

/// What to do once `looks` looks were made, the last of which said that.
pub fn closing(looks: u32, last: Waited) -> (c: Closing)
    ensures
        c == if !(last is Running) {
            Closing::Done
        } else if looks < ATTEMPTS {
            Closing::Look
        } else {
            Closing::Kill
        },
{
    match last {
        Waited::Running => if looks < ATTEMPTS {
            Closing::Look
        } else {
            Closing::Kill
        },
        _ => Closing::Done,
    }
}

/// The process group to signal besides the child: the terminal's foreground
/// group, where it has one.
pub fn foreground(group: i32) -> (g: Option<i32>)
    ensures
        g == if group > 0 {
            Some(group)
        } else {
            None
        },
{
    if group > 0 {
        Some(group)
    } else {
        None
    }
}

/// Why a read or a write of the terminal failed.
#[derive(Debug, Clone, Copy, PartialEq, Eq, Structural)]
pub enum Failure {
    Interrupted,
    /// An input/output error: how a closed terminal shows.
    Closed,
    Other,
}

/// What follows a read of the terminal.
#[derive(Debug, Clone, Copy, PartialEq, Eq, Structural)]
pub enum ReadStep {
    /// Hand on that many bytes and read again.
    Output(usize),
    Again,
    /// The child closed the terminal.
    Hangup,
    Error,
}

/// What follows a read that returned `n`; `failure` is why it failed, if it did.
pub fn after_read(n: isize, failure: Failure) -> (s: ReadStep)
    ensures
        s == if n > 0 {
            ReadStep::Output(n as usize)
        } else if n == 0 || failure is Closed {
            ReadStep::Hangup
        } else if failure is Interrupted {
            ReadStep::Again
        } else {
            ReadStep::Error
        },
{
    if n > 0 {
        ReadStep::Output(n as usize)
    } else if n == 0 {
        ReadStep::Hangup
    } else {
        match failure {
            Failure::Interrupted => ReadStep::Again,
            Failure::Closed => ReadStep::Hangup,
            Failure::Other => ReadStep::Error,
        }
    }
}

/// What follows a write to the terminal.
#[derive(Debug, Clone, Copy, PartialEq, Eq, Structural)]
pub enum WriteStep {
    /// Write on from there.
    From(usize),
    Done,
    Error,
}

/// What follows a write of all bytes from `from` on that returned `n`.
pub fn after_write(from: usize, len: usize, n: isize, failure: Failure) -> (s: WriteStep)
    requires
        from <= len,
        n <= len - from,
    ensures
        s == if n < 0 && !(failure is Interrupted) {
            WriteStep::Error
        } else if n < 0 {
            WriteStep::From(from)
        } else if from + n == len {
            WriteStep::Done
        } else {
            WriteStep::From((from + n) as usize)
        },
{
    if n < 0 {
        match failure {
            Failure::Interrupted => WriteStep::From(from),
            _ => WriteStep::Error,
        }
    } else {
        let at: usize = from + n as usize;
        if at == len {
            WriteStep::Done
        } else {
            WriteStep::From(at)
        }
    }
}

/// What the reader tells the session.
#[derive(Debug, Clone, PartialEq, Eq)]
pub enum PtyEvent {
    Output(Vec<u8>),
    /// The child closed the terminal.
    Hangup,
    /// Reading failed, for that reason.
    Error(String),
}

/// Where a program may be: at its own path, if that starts at the root, else in
/// the directories of the search path.
pub open spec fn places(name: Seq<u8>, path: Option<Seq<u8>>) -> Seq<Seq<u8>> {
    if absolute(name) {
        seq![name]
    } else {
        match path {
            Some(p) => divided(p, COLON).map_values(|d: Seq<u8>| joined(d, name)),
            None => Seq::empty(),
        }
    }
}

/// Where a program may be, best first. `path` is the search path, where the
/// environment has one.
pub fn candidates(name: &[u8], path: &Option<Vec<u8>>) -> (v: Vec<Vec<u8>>)
    ensures
        byte_views(v@) == places(name@, bytes_view(*path)),
{
    let mut v: Vec<Vec<u8>> = Vec::new();
    if is_absolute(name) {
        v.push(slice_to_vec(name));
        assert(byte_views(v@) =~= seq![name@]);
        return v;
    }
    match path {
        None => {
            assert(byte_views(v@) =~= Seq::empty());
            v
        },
        Some(p) => {
            let dirs = divide(p.as_slice(), COLON);
            let ghost views = byte_views(dirs@);
            let n: usize = dirs.len();
            let mut i: usize = 0;
            while i < n
                invariant
                    i <= n == dirs@.len(),
                    views == byte_views(dirs@),
                    v@.len() == i,
                    forall|k: int| 0 <= k < i ==> (#[trigger] v@[k])@ == joined(views[k], name@),
                decreases n - i,
            {
                assert(views[i as int] == dirs@[i as int]@);
                v.push(join(dirs[i].as_slice(), name));
                i += 1;
            }
            assert(byte_views(v@) =~= views.map_values(|d: Seq<u8>| joined(d, name@)));
            v
        },
    }
}

/// Whether the caller may say that about a path.
pub open spec fn may_say<F: Fn(&Vec<u8>) -> bool>(is_file: F, p: Seq<u8>, yes: bool) -> bool {
    exists|v: Vec<u8>| v@ == p && #[trigger] call_ensures(is_file, (&v,), yes)
}

/// The path of a program, so that nothing has to be looked up once the process
/// has forked: the first place where there is a file.
pub fn resolve_program<F: Fn(&Vec<u8>) -> bool>(
    name: &[u8],
    path: &Option<Vec<u8>>,
    is_file: F,
) -> (found: Option<Vec<u8>>)
    requires
        forall|v: &Vec<u8>| #[trigger] call_requires(is_file, (v,)),
    ensures
        match found {
            Some(p) => exists|i: int|
                {
                    &&& 0 <= i < places(name@, bytes_view(*path)).len()
                    &&& p@ == #[trigger] places(name@, bytes_view(*path))[i]
                    &&& may_say(is_file, p@, true)
                    &&& forall|k: int|
                        0 <= k < i ==> may_say(
                            is_file,
                            #[trigger] places(name@, bytes_view(*path))[k],
                            false,
                        )
                },
            None => forall|k: int|
                0 <= k < places(name@, bytes_view(*path)).len() ==> may_say(
                    is_file,
                    #[trigger] places(name@, bytes_view(*path))[k],
                    false,
                ),
        },
{
    let ghost all = places(name@, bytes_view(*path));
    let found = candidates(name, path);
    let n: usize = found.len();
    let mut i: usize = 0;
    while i < n
        invariant
            i <= n == found@.len(),
            all == byte_views(found@),
            all == places(name@, bytes_view(*path)),
            forall|v: &Vec<u8>| #[trigger] call_requires(is_file, (v,)),
            forall|k: int| 0 <= k < i ==> may_say(is_file, #[trigger] all[k], false),
        decreases n - i,
    {
        assert(all[i as int] == found@[i as int]@);
        let yes = is_file(&found[i]);
        assert(may_say(is_file, all[i as int], yes));
        if yes {
            return Some(slice_to_vec(found[i].as_slice()));
        }
        i += 1;
    }
    None
}

/// A login shell is the one that the environment names by a path from the root,
/// else the root shell. It is told that it is a login shell by a dash before its
/// name, inherits everything, and has at least one column and one row.
pub proof fn law_a_login_shell_is_started(
    cols: u16,
    rows: u16,
    shell: Option<Vec<u8>>,
    c: PtyConfig,
)
    requires
        call_ensures(PtyConfig::for_login_shell, (cols, rows, shell), c),
    ensures
        shell matches Some(p) ==> p@.len() > 0 && p@[0] == 47 ==> c.program@ == p@,
        shell matches Some(p) ==> !(p@.len() > 0 && p@[0] == 47) ==> c.program@ == encode_utf8(
            "/bin/sh"@,
        ),
        shell is None ==> c.program@ == encode_utf8("/bin/sh"@),
        c.args@.len() == 1,
        c.args@[0]@.len() > 0 && c.args@[0]@[0] == 45,
        last_name(c.program@, c.program@.len() as int) matches Some(name) ==> c.args@[0]@.skip(1)
            == name,
        c.cwd is None,
        c.env@.len() == 0,
        c.env_remove@.len() == 0,
        cols > 0 ==> c.cols == cols,
        rows > 0 ==> c.rows == rows,
        cols == 0 ==> c.cols == 1,
        rows == 0 ==> c.rows == 1,
{
    let v = c@;
    assert(v.args.len() == c.args@.len());
    assert(v.args[0] == c.args@[0]@);
    assert(v.args[0].skip(1) =~= name_of(c.program@));
    assert(v.env.len() == c.env@.len());
    assert(v.env_remove.len() == c.env_remove@.len());
}

/// The settings' program is started, under its own name, exactly where it is
/// named from the root and is there. Their directory is started in exactly where
/// it is one.
pub proof fn law_the_settings_choose_the_shell(
    cols: u16,
    rows: u16,
    settings: ShellSettings,
    shell: Option<Vec<u8>>,
    home: Option<Vec<u8>>,
    there: bool,
    is_dir: bool,
    c: PtyConfig,
    plain: PtyConfig,
)
    requires
        call_ensures(
            PtyConfig::for_shell_settings,
            (cols, rows, &settings, shell, &home, there, is_dir),
            c,
        ),
        call_ensures(PtyConfig::for_login_shell, (cols, rows, shell), plain),
    ensures
        settings.program is None || !there ==> c.program@ == plain.program@,
        settings.program matches Some(p) ==> there && encode_utf8(p@).len() > 0 && encode_utf8(
            p@,
        )[0] == 47 ==> c.program@ == encode_utf8(p@),
        settings.program matches Some(p) ==> encode_utf8(p@).len() == 0 || encode_utf8(p@)[0] != 47
            ==> c.program@ == plain.program@,
        c.args@.len() == 1 && c.args@[0]@.len() > 0 && c.args@[0]@[0] == 45,
        last_name(c.program@, c.program@.len() as int) matches Some(name) ==> c.args@[0]@.skip(1)
            == name,
        c.cwd is Some <==> settings.starting_dir is Some && is_dir,
        settings.starting_dir matches Some(d) ==> is_dir && home is None ==> c.cwd->0@
            == encode_utf8(d@),
        c.env@.len() == 0 && c.env_remove@.len() == 0,
        c.cols == plain.cols && c.rows == plain.rows,
{
    let v = c@;
    assert(v.args.len() == c.args@.len());
    assert(v.args[0] == c.args@[0]@);
    assert(v.args[0].skip(1) =~= name_of(c.program@));
    assert(v.env.len() == c.env@.len());
    assert(v.env_remove.len() == c.env_remove@.len());
}

/// A tilde alone is the home directory, one before a slash the home directory
/// before the rest, and nothing else is expanded.
pub proof fn law_tildes_stand_for_home(home: Seq<u8>, rest: Seq<u8>, text: Seq<u8>)
    ensures
        untilded(seq![126u8], Some(home)) == home,
        untilded(seq![126u8, 47u8] + rest, Some(home)) == joined(home, rest),
        untilded(text, None) == text,
        text.len() == 0 || text[0] != 126 ==> untilded(text, Some(home)) == text,
        text.len() >= 2 && text[1] != 47 ==> untilded(text, Some(home)) == text,
{
    let t = seq![126u8, 47u8] + rest;
    assert(t.skip(2) =~= rest);
    assert(t.len() >= 2);
    assert(seq![126u8].len() == 1);
    assert(seq![126u8][0] == 126);
}

/// The variables that a child gets are those that are neither removed nor set
/// anew, each with its value behind an equals sign.
pub proof fn law_what_is_not_touched_is_inherited(
    c: ConfigView,
    inherited: Seq<(Seq<u8>, Seq<u8>)>,
    n: int,
    k: int,
)
    requires
        0 <= k < n <= inherited.len(),
        !c.env_remove.contains(inherited[k].0),
        forall|i: int| 0 <= i < c.env.len() ==> (#[trigger] c.env[i]).0 != inherited[k].0,
    ensures
        kept(c, inherited, n).contains(inherited[k].0.push(61) + inherited[k].1),
        n == inherited.len() ==> environment(c, inherited).contains(
            inherited[k].0.push(61) + inherited[k].1,
        ),
    decreases n,
{
    let text = inherited[k].0.push(61) + inherited[k].1;
    assert(assignment(inherited[k]) =~= text);
    if k == n - 1 {
        assert(kept(c, inherited, n).last() == text);
    } else {
        law_what_is_not_touched_is_inherited(c, inherited, n - 1, k);
        let before = kept(c, inherited, n - 1);
        let i = choose|i: int| 0 <= i < before.len() && before[i] == text;
        assert(kept(c, inherited, n)[i] == text);
    }
    if n == inherited.len() {
        let all = kept(c, inherited, n);
        let i = choose|i: int| 0 <= i < all.len() && all[i] == text;
        assert(environment(c, inherited)[i] == text);
    }
}

/// Whatever a child gets was set for it, or inherited and neither removed nor
/// replaced.
pub proof fn law_nothing_else_is_inherited(
    c: ConfigView,
    inherited: Seq<(Seq<u8>, Seq<u8>)>,
    n: int,
    text: Seq<u8>,
) -> (k: int)
    requires
        0 <= n <= inherited.len(),
        kept(c, inherited, n).contains(text),
    ensures
        0 <= k < n,
        text == inherited[k].0.push(61) + inherited[k].1,
        !c.env_remove.contains(inherited[k].0),
        forall|i: int| 0 <= i < c.env.len() ==> (#[trigger] c.env[i]).0 != inherited[k].0,
    decreases n,
{
    let all = kept(c, inherited, n);
    let i = choose|i: int| 0 <= i < all.len() && all[i] == text;
    if n <= 0 {
        0
    } else if inherits(c, inherited[n - 1].0) && i == all.len() - 1 {
        assert(assignment(inherited[n - 1]) =~= inherited[n - 1].0.push(61) + inherited[n - 1].1);
        n - 1
    } else {
        let before = kept(c, inherited, n - 1);
        assert(before[i] == text);
        law_nothing_else_is_inherited(c, inherited, n - 1, text)
    }
}

/// What is set for a child comes last, in its order, as a name, an equals sign
/// and a value.
pub proof fn law_what_is_set_comes_last(
    c: ConfigView,
    inherited: Seq<(Seq<u8>, Seq<u8>)>,
    i: int,
)
    requires
        0 <= i < c.env.len(),
    ensures
        ({
            let all = environment(c, inherited);
            &&& all.len() >= c.env.len()
            &&& all[all.len() - c.env.len() + i] == c.env[i].0.push(61) + c.env[i].1
        }),
{
    assert(assignment(c.env[i]) =~= c.env[i].0.push(61) + c.env[i].1);
    let added = c.env.map_values(|p: (Seq<u8>, Seq<u8>)| assignment(p));
    assert(added[i] == assignment(c.env[i]));
}

/// A child is started with what it was configured with, and refused exactly
/// where a text of it holds a NUL: the program first, then arguments and
/// variables, then the directory.
pub proof fn law_what_is_configured_is_started(
    config: PtyConfig,
    inherited: Vec<(Vec<u8>, Vec<u8>)>,
    r: Result<Launch, PtyError>,
)
    requires
        call_ensures(prepare, (&config, &inherited), r),
    ensures
        r matches Ok(l) ==> l.program@ == config.program@ && l.cols == config.cols && l.rows
            == config.rows,
        r matches Ok(l) ==> (l.cwd is Some <==> config.cwd is Some),
        r matches Ok(l) ==> config.cwd matches Some(d) ==> l.cwd->0@ == d@ && !d@.contains(0),
        r matches Ok(l) ==> config.args@.len() > 0 ==> l.argv@.len() == config.args@.len() && (
        forall|i: int| 0 <= i < config.args@.len() ==> (#[trigger] l.argv@[i])@ == config.args@[i]@),
        r matches Ok(l) ==> config.args@.len() == 0 ==> l.argv@.len() == 1,
        r matches Ok(l) ==> forall|i: int|
            0 <= i < l.argv@.len() ==> !(#[trigger] l.argv@[i])@.contains(0),
        r matches Ok(l) ==> forall|i: int|
            0 <= i < l.envp@.len() ==> !(#[trigger] l.envp@[i])@.contains(0),
        config.program@.contains(0) <==> r == Err::<Launch, PtyError>(PtyError::Program),
        r == Err::<Launch, PtyError>(PtyError::Directory) ==> config.cwd is Some
            && config.cwd->0@.contains(0),
{
    let c = config@;
    let from = variables(inherited@);
    assert(c.args.len() == config.args@.len());
    if let Ok(l) = r {
        let argv = byte_views(l.argv@);
        let envp = byte_views(l.envp@);
        assert(argv.len() == l.argv@.len());
        assert forall|i: int| 0 <= i < l.argv@.len() implies !(#[trigger] l.argv@[i])@.contains(
            0,
        ) by {
            assert(argv[i] == l.argv@[i]@);
        }
        assert forall|i: int| 0 <= i < l.envp@.len() implies !(#[trigger] l.envp@[i])@.contains(
            0,
        ) by {
            assert(envp[i] == l.envp@[i]@);
        }
        if config.args@.len() > 0 {
            assert forall|i: int| 0 <= i < config.args@.len() implies (#[trigger] l.argv@[i])@
                == config.args@[i]@ by {
                assert(argv[i] == l.argv@[i]@);
                assert(c.args[i] == config.args@[i]@);
            }
        }
    }
}

/// A child sets itself up in one order: a session, the terminal, the streams,
/// the directory if there is one, the signals, the program. The terminal's own
/// descriptor is closed unless it is a stream.
pub proof fn law_the_order_after_the_fork(
    s: ChildStep,
    failed: bool,
    terminal: i32,
    directory: bool,
    next: ChildStep,
)
    requires
        call_ensures(ChildStep::after, (s, failed, terminal, directory), next),
    ensures
        s is NewSession && !failed ==> next is TakeTerminal,
        s is TakeTerminal && !failed ==> next is Input,
        s is Input && !failed ==> next is Output,
        s is Output && !failed ==> next is Errors,
        s is Errors && !failed && terminal > 2 ==> next is CloseTerminal,
        s is Errors && !failed && terminal <= 2 && directory ==> next is EnterDirectory,
        s is Errors && !failed && terminal <= 2 && !directory ==> next is ResetSignals,
        s is CloseTerminal && directory ==> next is EnterDirectory,
        s is CloseTerminal && !directory ==> next is ResetSignals,
        s is EnterDirectory && !failed ==> next is ResetSignals,
        s is ResetSignals ==> next is Start,
        s is Start ==> next == ChildStep::Quit(127),
        failed && (s is NewSession || s is TakeTerminal || s is Input || s is Output || s is Errors
            || s is EnterDirectory) ==> next == ChildStep::Quit(126),
        s is Quit ==> next == s,
{
    assert(progress(ChildStep::NewSession) == 0);
    assert(progress(ChildStep::TakeTerminal) == 1);
    assert(progress(ChildStep::Input) == 2);
    assert(progress(ChildStep::Output) == 3);
    assert(progress(ChildStep::Errors) == 4);
    assert(progress(ChildStep::CloseTerminal) == 5);
    assert(progress(ChildStep::EnterDirectory) == 6);
    assert(progress(ChildStep::ResetSignals) == 7);
    assert(progress(ChildStep::Start) == 8);
}

/// A child that exited has its code, one that a signal ended has none.
pub proof fn law_only_an_exit_has_a_code(n: i32, c: Option<i32>, d: Option<i32>)
    requires
        call_ensures(ExitStatus::code, (ExitStatus::Exited(n),), c),
        call_ensures(ExitStatus::code, (ExitStatus::Signaled(n),), d),
    ensures
        c == Some(n),
        d is None,
{
}

/// A read hands on what it got. Nothing, or a closed terminal, is a hangup, an
/// interruption is read again, and anything else is an error.
pub proof fn law_what_a_read_means(n: isize, f: Failure, s: ReadStep)
    requires
        call_ensures(after_read, (n, f), s),
    ensures
        n > 0 ==> s == ReadStep::Output(n as usize),
        n == 0 ==> s is Hangup,
        n < 0 && f is Closed ==> s is Hangup,
        n < 0 && f is Interrupted ==> s is Again,
        n < 0 && f is Other ==> s is Error,
{
}

/// Writing goes on behind what was written until all is. An interruption writes
/// nothing.
pub proof fn law_what_a_write_means(from: usize, len: usize, n: isize, f: Failure, s: WriteStep)
    requires
        from <= len,
        n <= len - from,
        call_ensures(after_write, (from, len, n, f), s),
    ensures
        n >= 0 && from + n == len ==> s is Done,
        n >= 0 && from + n < len ==> s is From && s->0 == from + n,
        n < 0 && f is Interrupted ==> s == WriteStep::From(from),
        n < 0 && !(f is Interrupted) ==> s is Error,
{
}

/// A child that was hung up is looked for forty times at most before it is
/// killed, and never where it does not run.
pub proof fn law_a_child_is_killed_last(looks: u32, last: Waited, c: Closing)
    requires
        call_ensures(closing, (looks, last), c),
    ensures
        c is Kill <==> last is Running && looks >= 40,
        c is Look <==> last is Running && looks < 40,
        c is Done <==> !(last is Running),
{
}

/// A fork is answered with a failure, as the child, or with the child's number.
pub proof fn law_forks_are_told_apart(pid: i32, f: Forked, group: i32, g: Option<i32>)
    requires
        call_ensures(forked, (pid,), f),
        call_ensures(foreground, (group,), g),
    ensures
        f is Failed <==> pid == -1,
        f is Child <==> pid == 0,
        pid != -1 && pid != 0 ==> f == Forked::Parent(pid),
        group > 0 ==> g == Some(group),
        group <= 0 ==> g is None,
{
}

/// A program named from the root is looked for there alone; another in each
/// directory of the search path, in its order, and nowhere without one.
pub proof fn law_programs_are_looked_for_in_order(name: Seq<u8>, dir: Seq<u8>, rest: Seq<u8>)
    requires
        forall|i: int| 0 <= i < dir.len() ==> #[trigger] dir[i] != 58,
    ensures
        name.len() > 0 && name[0] == 47 ==> places(name, Some(rest)) == seq![name] && places(
            name,
            None,
        ) == seq![name],
        !(name.len() > 0 && name[0] == 47) ==> places(name, None).len() == 0,
        !(name.len() > 0 && name[0] == 47) ==> places(name, Some(dir)) == seq![joined(dir, name)],
        !(name.len() > 0 && name[0] == 47) ==> places(name, Some(dir.push(58) + rest))
            == seq![joined(dir, name)] + places(name, Some(rest)),
{
    crate::path::law_pieces_stand_between_their_bytes(dir, rest, 58);
    if !absolute(name) {
        assert(places(name, Some(dir)) =~= seq![joined(dir, name)]);
        assert(places(name, Some(dir.push(58) + rest)) =~= seq![joined(dir, name)] + places(
            name,
            Some(rest),
        ));
    }
}

/// A NUL in an argument or a variable is refused as such where the program has
/// none; one in the directory where nothing else has any. Without one anywhere
/// the child is started.
pub proof fn law_a_nul_is_refused(
    config: PtyConfig,
    inherited: Vec<(Vec<u8>, Vec<u8>)>,
    r: Result<Launch, PtyError>,
    i: int,
)
    requires
        call_ensures(prepare, (&config, &inherited), r),
        !config.program@.contains(0),
        0 <= i < config.args@.len(),
    ensures
        config.args@[i]@.contains(0) ==> r == Err::<Launch, PtyError>(PtyError::Text),
        (forall|k: int| 0 <= k < config.args@.len() ==> !(#[trigger] config.args@[k])@.contains(0))
            && (forall|k: int|
            0 <= k < environment(config@, variables(inherited@)).len() ==> !(#[trigger] environment(
                config@,
                variables(inherited@),
            )[k]).contains(0)) ==> {
            &&& config.cwd is None ==> r is Ok
            &&& config.cwd matches Some(d) ==> (d@.contains(0) <==> r == Err::<Launch, PtyError>(
                PtyError::Directory,
            )) && (!d@.contains(0) <==> r is Ok)
        },
{
    let c = config@;
    let args = arguments(c);
    assert(c.args.len() == config.args@.len());
    assert(args[i] == config.args@[i]@);
    if forall|k: int| 0 <= k < config.args@.len() ==> !(#[trigger] config.args@[k])@.contains(0) {
        assert forall|k: int| 0 <= k < args.len() implies !(#[trigger] args[k]).contains(0) by {
            assert(args[k] == config.args@[k]@);
        }
    }
}

/// A child that ended is reported with how it ended, then and ever after,
/// whatever a later wait says. One that has not is running, and a wait that
/// failed says nothing of it; one that was interrupted is repeated.
pub proof fn law_an_end_is_remembered(
    c: Child,
    answer: i32,
    raw: i32,
    interrupted: bool,
    blocks: bool,
    later: i32,
    other: i32,
)
    requires
        c.reaped is None,
    ensures
        answer > 0 ==> {
            let (after, w) = c.told(answer, raw, interrupted, blocks);
            &&& w == Waited::Ended(status_of(raw))
            &&& after.reaped == Some(status_of(raw))
            &&& after.pid == c.pid
            &&& after.told(later, other, interrupted, blocks) == (after, w)
        },
        answer == 0 && !blocks ==> c.told(answer, raw, interrupted, blocks) == (c, Waited::Running),
        answer == -1 && !blocks ==> c.told(answer, raw, interrupted, blocks) == (c, Waited::Failed),
        answer == -1 && blocks && interrupted ==> c.told(answer, raw, interrupted, blocks) == (
            c,
            Waited::Again,
        ),
        answer == -1 && blocks && !interrupted ==> c.told(answer, raw, interrupted, blocks) == (
            c,
            Waited::Failed,
        ),
{
}

} // verus!
