//! The agent-facing command line: argument dispatch and the rules that read
//! and change the configuration. Everything here is pure: reading and
//! writing `config.json`, resolving paths and rendering JSON are done by the
//! caller, which hands in what it read and performs the write asked for.

use vstd::prelude::*;
use vstd::string::*;
use global_hotkey::hotkey::HotKey;
use crate::config::{Config, ConfigView, clone_strings, default_config, texts, validation_error};
use crate::text::{chars_of, push_char, same_text};
use crate::path::{norm_path, same_path};

verus! {

/// The result of a CLI invocation: text for stdout, text for stderr, exit code.
pub struct CliOutcome {
    pub stdout: String,
    pub stderr: String,
    pub code: i32,
}

impl CliOutcome {
    /// Success: `stdout`, exit code 0.
    pub fn ok(stdout: String) -> (r: Self)
        ensures
            r.stdout@ == stdout@,
            r.stderr@.len() == 0,
            r.code == 0,
    {
        CliOutcome { stdout, stderr: String::new(), code: 0 }
    }

    /// Failure: `msg` on stderr, exit code 2.
    pub fn err(msg: String) -> (r: Self)
        ensures
            r.stdout@.len() == 0,
            r.stderr@ == msg@,
            r.code == 2,
    {
        CliOutcome { stdout: String::new(), stderr: msg, code: 2 }
    }
}

/// A parsed command line.
pub enum Command {
    /// `--version` / `-V`
    Version,
    /// `--help` / `-h`
    Help,
    /// `describe`
    Describe,
    /// `describe --human`
    DescribeHuman,
    /// `add [PATH]`
    AddFolder(Option<String>),
    /// `config`, `config get [KEY]`
    Get(Option<String>),
    /// `config set KEY VALUE`
    SetValue(String, String),
    /// `config add KEY VALUE`
    AddValue(String, String),
    /// `config remove KEY VALUE`
    RemoveValue(String, String),
    /// More than four arguments (the arguments, joined by spaces).
    TooMany(String),
    /// Anything else (the arguments, joined by spaces).
    Unknown(String),
}

pub enum CommandView {
    Version,
    Help,
    Describe,
    DescribeHuman,
    AddFolder(Option<Seq<char>>),
    Get(Option<Seq<char>>),
    SetValue(Seq<char>, Seq<char>),
    AddValue(Seq<char>, Seq<char>),
    RemoveValue(Seq<char>, Seq<char>),
    TooMany(Seq<char>),
    Unknown(Seq<char>),
}

pub open spec fn opt_text(s: Option<String>) -> Option<Seq<char>> {
    match s {
        Some(t) => Some(t@),
        None => None,
    }
}

impl View for Command {
    type V = CommandView;

    open spec fn view(&self) -> CommandView {
        match self {
            Command::Version => CommandView::Version,
            Command::Help => CommandView::Help,
            Command::Describe => CommandView::Describe,
            Command::DescribeHuman => CommandView::DescribeHuman,
            Command::AddFolder(p) => CommandView::AddFolder(opt_text(*p)),
            Command::Get(k) => CommandView::Get(opt_text(*k)),
            Command::SetValue(k, v) => CommandView::SetValue(k@, v@),
            Command::AddValue(k, v) => CommandView::AddValue(k@, v@),
            Command::RemoveValue(k, v) => CommandView::RemoveValue(k@, v@),
            Command::TooMany(a) => CommandView::TooMany(a@),
            Command::Unknown(a) => CommandView::Unknown(a@),
        }
    }
}

/// The arguments joined by single spaces.
pub open spec fn joined(args: Seq<Seq<char>>) -> Seq<char>
    decreases args.len(),
{
    if args.len() == 0 {
        Seq::empty()
    } else if args.len() == 1 {
        args[0]
    } else {
        joined(args.drop_last()) + " "@ + args.last()
    }
}

/// Join the arguments with single spaces.
pub fn join_args(args: &[String]) -> (r: String)
    ensures
        r@ == joined(texts(args@)),
{
    let mut out = String::new();
    let mut i: usize = 0;
    while i < args.len()
        invariant
            i <= args@.len(),
            out@ == joined(texts(args@).take(i as int)),
        decreases args@.len() - i,
    {
        assert(texts(args@).take(i + 1).drop_last() =~= texts(args@).take(i as int));
        assert(texts(args@).take(i + 1).last() == args@[i as int]@);
        if i > 0 {
            out.append(" ");
        } else {
            assert(out@ =~= Seq::<char>::empty());
        }
        out.append(args[i].as_str());
        i += 1;
    }
    assert(texts(args@).take(args@.len() as int) =~= texts(args@));
    out
}

/// The command an argument list (the program name excluded) asks for.
pub open spec fn command_of(args: Seq<Seq<char>>) -> CommandView {
    let n = args.len();
    if n > 4 {
        CommandView::TooMany(joined(args))
    } else if n == 1 && (args[0] == "--version"@ || args[0] == "-V"@) {
        CommandView::Version
    } else if n == 1 && (args[0] == "--help"@ || args[0] == "-h"@) {
        CommandView::Help
    } else if n == 1 && args[0] == "describe"@ {
        CommandView::Describe
    } else if n == 2 && args[0] == "describe"@ && args[1] == "--human"@ {
        CommandView::DescribeHuman
    } else if 1 <= n <= 2 && args[0] == "add"@ {
        CommandView::AddFolder(if n == 2 { Some(args[1]) } else { None })
    } else if args.len() >= 1 && args[0] == "config"@ && (n == 1 || (n == 2 && args[1] == "get"@)) {
        CommandView::Get(None)
    } else if n == 3 && args[0] == "config"@ && args[1] == "get"@ {
        CommandView::Get(Some(args[2]))
    } else if n == 4 && args[0] == "config"@ && args[1] == "set"@ {
        CommandView::SetValue(args[2], args[3])
    } else if n == 4 && args[0] == "config"@ && args[1] == "add"@ {
        CommandView::AddValue(args[2], args[3])
    } else if n == 4 && args[0] == "config"@ && args[1] == "remove"@ {
        CommandView::RemoveValue(args[2], args[3])
    } else {
        CommandView::Unknown(joined(args))
    }
}

/// Dispatch on the argument list (everything after the program name).
pub fn parse_args(args: &[String]) -> (c: Command)
    ensures
        c@ == command_of(texts(args@)),
{
    let ghost a = texts(args@);
    proof {
        reveal_strlit("--version");
        reveal_strlit("-V");
        reveal_strlit("--help");
        reveal_strlit("-h");
        reveal_strlit("describe");
        reveal_strlit("--human");
        reveal_strlit("add");
        reveal_strlit("config");
        reveal_strlit("get");
        reveal_strlit("set");
        reveal_strlit("remove");
    }
    let n = args.len();
    if n > 4 {
        return Command::TooMany(join_args(args));
    }
    if n == 0 {
        return Command::Unknown(join_args(args));
    }
    assert(a[0] == args@[0]@);
    let a0 = args[0].as_str();
    if n == 1 && (same_text(a0, "--version") || same_text(a0, "-V")) {
        return Command::Version;
    }
    if n == 1 && (same_text(a0, "--help") || same_text(a0, "-h")) {
        return Command::Help;
    }
    if n == 1 && same_text(a0, "describe") {
        return Command::Describe;
    }
    if n == 2 && same_text(a0, "describe") {
        assert(a[1] == args@[1]@);
        if same_text(args[1].as_str(), "--human") {
            return Command::DescribeHuman;
        }
        return Command::Unknown(join_args(args));
    }
    if n <= 2 && same_text(a0, "add") {
        if n == 2 {
            assert(a[1] == args@[1]@);
            return Command::AddFolder(Some(args[1].clone()));
        }
        return Command::AddFolder(None);
    }
    if !same_text(a0, "config") {
        return Command::Unknown(join_args(args));
    }
    if n == 1 {
        return Command::Get(None);
    }
    assert(a[1] == args@[1]@);
    let a1 = args[1].as_str();
    if n == 2 {
        if same_text(a1, "get") {
            return Command::Get(None);
        }
        return Command::Unknown(join_args(args));
    }
    assert(a[2] == args@[2]@);
    if n == 3 {
        if same_text(a1, "get") {
            return Command::Get(Some(args[2].clone()));
        }
        return Command::Unknown(join_args(args));
    }
    assert(a[3] == args@[3]@);
    let k = args[2].clone();
    let v = args[3].clone();
    if same_text(a1, "set") {
        Command::SetValue(k, v)
    } else if same_text(a1, "add") {
        Command::AddValue(k, v)
    } else if same_text(a1, "remove") {
        Command::RemoveValue(k, v)
    } else {
        Command::Unknown(join_args(args))
    }
}


// --- running a command -------------------------------------------------------------

/// What `HotKey::from_str` (global-hotkey) reports for `s`: `None` when it
/// parses, otherwise the text of its error.
pub uninterp spec fn chord_parse_error(s: Seq<char>) -> Option<Seq<char>>;

/// `s.parse::<global_hotkey::hotkey::HotKey>()` (global-hotkey). Claimed: it
/// fails exactly when the named `chord_parse_error` is `Some`, with that
/// error text; the parsed key itself is dropped.
#[verifier::external_body]
fn parse_chord(s: &str) -> (r: Option<String>)
    ensures
        opt_text(r) == chord_parse_error(s@),
{
    match s.parse::<HotKey>() {
        Ok(_) => None,
        Err(e) => Some(e.to_string()),
    }
}

/// What reading `config.json` gave.
pub enum Loaded {
    /// There is no file: the first-run default applies.
    Missing,
    /// The file parsed as JSON of the right shape.
    Parsed(Config),
    /// The file could not be read or parsed (the message).
    Failed(String),
}

pub enum LoadedView {
    Missing,
    Parsed(ConfigView),
    Failed(Seq<char>),
}

impl View for Loaded {
    type V = LoadedView;

    open spec fn view(&self) -> LoadedView {
        match self {
            Loaded::Missing => LoadedView::Missing,
            Loaded::Parsed(c) => LoadedView::Parsed(c@),
            Loaded::Failed(e) => LoadedView::Failed(e@),
        }
    }
}

/// What the caller read or resolved before running a command.
pub struct Inputs {
    /// The configuration file, when the command reads it.
    pub config: Loaded,
    /// The current directory, when the command needs it.
    pub cwd: Result<String, String>,
    /// The absolute form of [`path_to_resolve`], when there is one.
    pub absolute: Result<String, String>,
}

pub open spec fn res_text(r: Result<String, String>) -> Result<Seq<char>, Seq<char>> {
    match r {
        Ok(t) => Ok(t@),
        Err(e) => Err(e@),
    }
}

/// What the command prints.
pub enum Reply {
    /// Text for stdout, as it is.
    Text(String),
    /// The whole configuration, as JSON.
    WholeConfig(Config),
    /// A list field, as a JSON array.
    Strings(Vec<String>),
    /// A string field, as JSON.
    Str(String),
    /// A boolean field, as JSON.
    Flag(bool),
    /// A mutation's report: action, key, resulting value, whether anything
    /// changed.
    Change(String, String, String, bool),
    /// An error for stderr (exit code 2).
    Failed(String),
}

pub enum ReplyView {
    Text(Seq<char>),
    WholeConfig(ConfigView),
    Strings(Seq<Seq<char>>),
    Str(Seq<char>),
    Flag(bool),
    Change(Seq<char>, Seq<char>, Seq<char>, bool),
    Failed(Seq<char>),
}

impl View for Reply {
    type V = ReplyView;

    open spec fn view(&self) -> ReplyView {
        match self {
            Reply::Text(t) => ReplyView::Text(t@),
            Reply::WholeConfig(c) => ReplyView::WholeConfig(c@),
            Reply::Strings(v) => ReplyView::Strings(texts(v@)),
            Reply::Str(t) => ReplyView::Str(t@),
            Reply::Flag(b) => ReplyView::Flag(*b),
            Reply::Change(a, k, v, c) => ReplyView::Change(a@, k@, v@, *c),
            Reply::Failed(e) => ReplyView::Failed(e@),
        }
    }
}

/// A command's outcome: what to print, and the configuration to write
/// atomically first, if any.
pub struct Execution {
    pub reply: Reply,
    pub write: Option<Config>,
}

pub struct ExecutionView {
    pub reply: ReplyView,
    pub write: Option<ConfigView>,
}

impl View for Execution {
    type V = ExecutionView;

    open spec fn view(&self) -> ExecutionView {
        ExecutionView {
            reply: self.reply@,
            write: match self.write {
                Some(c) => Some(c@),
                None => None,
            },
        }
    }
}

pub open spec fn fail(e: Seq<char>) -> ExecutionView {
    ExecutionView { reply: ReplyView::Failed(e), write: None }
}

pub open spec fn print(r: ReplyView) -> ExecutionView {
    ExecutionView { reply: r, write: None }
}

/// The configuration a command works on: the file's, once validated, or the
/// first-run default when there is no file.
pub open spec fn current_config(l: LoadedView, home: Seq<char>) -> Result<ConfigView, Seq<char>> {
    match l {
        LoadedView::Missing => Ok(default_config(home)),
        LoadedView::Parsed(c) => match validation_error(c) {
            Some(e) => Err(e),
            None => Ok(c),
        },
        LoadedView::Failed(e) => Err(e),
    }
}

pub open spec fn unknown_key_text(k: Seq<char>) -> Seq<char> {
    "unknown config key '"@ + k + "'; valid keys: folders, exclude, chord, git_aware"@
}

pub open spec fn is_list_key(k: Seq<char>) -> bool {
    k == "folders"@ || k == "exclude"@
}

pub open spec fn is_scalar_key(k: Seq<char>) -> bool {
    k == "chord"@ || k == "git_aware"@
}

pub open spec fn list_key_text(k: Seq<char>) -> Seq<char> {
    "`"@ + k + "` is a list \u{2014} use `config add "@ + k + " <value>` / `config remove "@ + k
        + " <value>`"@
}

pub open spec fn scalar_key_text(k: Seq<char>) -> Seq<char> {
    "`"@ + k + "` is a scalar \u{2014} use `config set "@ + k + " <value>`"@
}

pub open spec fn last_folder_text() -> Seq<char> {
    "refusing to remove the last folder \u{2014} `folders` must list at least one directory"@
}

/// Validate the changed configuration and ask for its write; report.
pub open spec fn commit_spec(
    cfg: ConfigView,
    action: Seq<char>,
    key: Seq<char>,
    value: Seq<char>,
    changed: bool,
) -> ExecutionView {
    if changed {
        match validation_error(cfg) {
            Some(e) => fail(e),
            None => ExecutionView {
                reply: ReplyView::Change(action, key, value, true),
                write: Some(cfg),
            },
        }
    } else {
        print(ReplyView::Change(action, key, value, false))
    }
}

pub open spec fn get_spec(key: Option<Seq<char>>, cfg: ConfigView) -> ExecutionView {
    match key {
        None => print(ReplyView::WholeConfig(cfg)),
        Some(k) => if k == "folders"@ {
            print(ReplyView::Strings(cfg.folders))
        } else if k == "exclude"@ {
            print(ReplyView::Strings(cfg.exclude))
        } else if k == "chord"@ {
            print(ReplyView::Str(cfg.chord))
        } else if k == "git_aware"@ {
            print(ReplyView::Flag(cfg.git_aware))
        } else {
            fail(unknown_key_text(k))
        },
    }
}

pub open spec fn set_spec(key: Seq<char>, value: Seq<char>, cfg: ConfigView) -> ExecutionView {
    if key == "chord"@ {
        match chord_parse_error(value) {
            Some(e) => fail("invalid chord '"@ + value + "': "@ + e),
            None => commit_spec(ConfigView { chord: value, ..cfg }, "set"@, key, value, true),
        }
    } else if key == "git_aware"@ {
        if value == "true"@ {
            commit_spec(ConfigView { git_aware: true, ..cfg }, "set"@, key, value, true)
        } else if value == "false"@ {
            commit_spec(ConfigView { git_aware: false, ..cfg }, "set"@, key, value, true)
        } else {
            fail("`git_aware` must be true or false, got '"@ + value + "'"@)
        }
    } else if is_list_key(key) {
        fail(list_key_text(key))
    } else {
        fail(unknown_key_text(key))
    }
}

pub open spec fn add_spec(
    key: Seq<char>,
    value: Seq<char>,
    cfg: ConfigView,
    absolute: Result<Seq<char>, Seq<char>>,
) -> ExecutionView {
    if key == "folders"@ {
        match absolute {
            Err(e) => fail(e),
            Ok(abs) => if has_path(cfg.folders, abs) {
                commit_spec(cfg, "add"@, key, abs, false)
            } else {
                commit_spec(
                    ConfigView { folders: cfg.folders.push(abs), ..cfg },
                    "add"@,
                    key,
                    abs,
                    true,
                )
            },
        }
    } else if key == "exclude"@ {
        if cfg.exclude.contains(value) {
            commit_spec(cfg, "add"@, key, value, false)
        } else {
            commit_spec(
                ConfigView { exclude: cfg.exclude.push(value), ..cfg },
                "add"@,
                key,
                value,
                true,
            )
        }
    } else if is_scalar_key(key) {
        fail(scalar_key_text(key))
    } else {
        fail(unknown_key_text(key))
    }
}

/// `s` without any occurrence of `x`.
pub open spec fn without(s: Seq<Seq<char>>, x: Seq<char>) -> Seq<Seq<char>> {
    s.filter(|y: Seq<char>| y != x)
}

/// Some path of `s` is the same path as `x` (see [`norm_path`]).
pub open spec fn has_path(s: Seq<Seq<char>>, x: Seq<char>) -> bool {
    exists|i: int| 0 <= i < s.len() && norm_path(#[trigger] s[i]) == norm_path(x)
}

/// `s` without the paths that are the same path as `x`.
pub open spec fn without_path(s: Seq<Seq<char>>, x: Seq<char>) -> Seq<Seq<char>> {
    s.filter(|y: Seq<char>| norm_path(y) != norm_path(x))
}

pub open spec fn remove_spec(
    key: Seq<char>,
    value: Seq<char>,
    cfg: ConfigView,
    absolute: Result<Seq<char>, Seq<char>>,
) -> ExecutionView {
    if key == "folders"@ {
        match absolute {
            Err(e) => fail(e),
            Ok(abs) => if !has_path(cfg.folders, abs) {
                commit_spec(cfg, "remove"@, key, abs, false)
            } else if cfg.folders.len() == 1 {
                fail(last_folder_text())
            } else {
                commit_spec(
                    ConfigView { folders: without_path(cfg.folders, abs), ..cfg },
                    "remove"@,
                    key,
                    abs,
                    true,
                )
            },
        }
    } else if key == "exclude"@ {
        if !cfg.exclude.contains(value) {
            commit_spec(cfg, "remove"@, key, value, false)
        } else {
            commit_spec(
                ConfigView { exclude: without(cfg.exclude, value), ..cfg },
                "remove"@,
                key,
                value,
                true,
            )
        }
    } else if is_scalar_key(key) {
        fail(scalar_key_text(key))
    } else {
        fail(unknown_key_text(key))
    }
}

/// A command that works on the configuration, once it is available.
pub open spec fn with_config(
    l: LoadedView,
    home: Seq<char>,
    f: spec_fn(ConfigView) -> ExecutionView,
) -> ExecutionView {
    match current_config(l, home) {
        Err(e) => fail(e),
        Ok(c) => f(c),
    }
}

pub open spec fn help_spec(config_path: Seq<char>) -> Seq<char> {
    help_head() + config_path
}

/// A hex digit (`0`-`9`, `a`-`f`) of a value below 16.
pub open spec fn hex_digit(v: int) -> char {
    if v < 10 {
        (48 + v) as char
    } else {
        (87 + v) as char
    }
}

/// How a JSON string (as serde_json writes it) spells the character `c`:
/// `"` and `\` and the control characters escaped, everything else as is.
pub open spec fn json_char(c: char) -> Seq<char> {
    if c == '"' {
        seq!['\\', '"']
    } else if c == '\\' {
        seq!['\\', '\\']
    } else if c == '\u{8}' {
        seq!['\\', 'b']
    } else if c == '\t' {
        seq!['\\', 't']
    } else if c == '\n' {
        seq!['\\', 'n']
    } else if c == '\u{c}' {
        seq!['\\', 'f']
    } else if c == '\r' {
        seq!['\\', 'r']
    } else if (c as u32) < 0x20 {
        seq!['\\', 'u', '0', '0', hex_digit((c as u32) as int / 16), hex_digit((c as u32) as int % 16)]
    } else {
        seq![c]
    }
}

/// The characters of `s`, each as a JSON string spells it.
pub open spec fn json_escaped(s: Seq<char>) -> Seq<char>
    decreases s.len(),
{
    if s.len() == 0 {
        Seq::empty()
    } else {
        json_escaped(s.drop_last()) + json_char(s.last())
    }
}

/// `s` as a JSON string literal.
pub open spec fn json_string_spec(s: Seq<char>) -> Seq<char> {
    seq!['"'] + json_escaped(s) + seq!['"']
}

/// The command and configuration schema that `describe` prints: pretty JSON
/// (two-space indent, keys in order) naming the tool, its usage, every
/// command, every configuration field with its kind, type, default and
/// validation rule, and the configuration file's path.
pub open spec fn describe_json_spec(config_path: Seq<char>) -> Seq<char> {
    describe_json_head() + json_string_spec(config_path) + describe_json_tail()
}

pub open spec fn describe_json_head() -> Seq<char> {
    "{\n  \"commands\": {\n    \"(no args)\": \"Launch the tray app.\",\n    \"add [PATH]\": \"Shortcut: add PATH (default: current directory) to folders.\",\n    \"config add <KEY> <VALUE>\": \"Add to a list field (folders, exclude); idempotent.\",\n    \"config get [KEY]\": \"Print the whole config, or one KEY, as JSON.\",\n    \"config remove <KEY> <VALUE>\": \"Remove from a list field (folders, exclude); idempotent.\",\n    \"config set <KEY> <VALUE>\": \"Set a scalar field (chord, git_aware).\",\n    \"describe\": \"Print this schema as JSON; `describe --human` prints it as readable text.\"\n  },\n  \"config_path\": "@
}

pub open spec fn describe_json_tail() -> Seq<char> {
    ",\n  \"description\": \"Global file-reference picker; CLI to configure it for agents.\",\n  \"fields\": {\n    \"chord\": {\n      \"default\": \"Control+Space\",\n      \"kind\": \"scalar\",\n      \"type\": \"string\",\n      \"validation\": \"must parse as a global-hotkey chord\"\n    },\n    \"exclude\": {\n      \"default\": [\n        \".git\",\n        \"node_modules\",\n        \"target\"\n      ],\n      \"kind\": \"list\",\n      \"type\": \"string\"\n    },\n    \"folders\": {\n      \"default\": \"[home]\",\n      \"kind\": \"list\",\n      \"type\": \"absolute path\",\n      \"validation\": \"must stay non-empty; values normalized to absolute\"\n    },\n    \"git_aware\": {\n      \"default\": true,\n      \"kind\": \"scalar\",\n      \"type\": \"bool\"\n    }\n  },\n  \"name\": \"atref\",\n  \"usage\": \"atref <command> [args] [--human]\"\n}"@
}

/// The readable form of the command and configuration schema, ending with
/// the configuration file's path.
pub open spec fn describe_human_spec(config_path: Seq<char>) -> Seq<char> {
    describe_human_head() + config_path
}

pub open spec fn describe_human_head() -> Seq<char> {
    "atref \u{2014} global file-reference picker; CLI to configure it for agents.\n\nusage: atref <command> [args]\n\ncommands:\n  describe [--human]           print this schema as JSON (--human: as this text)\n  config get [KEY]             print the whole config, or one KEY, as JSON\n  config set <KEY> <VALUE>     set a scalar field (chord, git_aware)\n  config add <KEY> <VALUE>     add to a list field (folders, exclude); idempotent\n  config remove <KEY> <VALUE>  remove from a list field (folders, exclude); idempotent\n  add [PATH]                   add PATH (default: current directory) to folders\n  (no args)                    launch the tray app\n\nfields:\n  folders    list    absolute path  default: [home]  validation: must stay non-empty; values normalized to absolute\n  exclude    list    string         default: [\".git\", \"node_modules\", \"target\"]\n  chord      scalar  string         default: \"Control+Space\"  validation: must parse as a global-hotkey chord\n  git_aware  scalar  bool           default: true\n\nconfig: "@
}

pub open spec fn help_head() -> Seq<char> {
    "atref \u{2014} global file-reference picker.\n\nUSAGE:\n  atref                            launch the tray app\n  atref describe [--human]         print the command + config schema as JSON\n  atref config get [KEY]           print the whole config, or one KEY, as JSON\n  atref config set <KEY> <VALUE>   set a scalar field (chord, git_aware)\n  atref config add <KEY> <VALUE>   add to a list field (folders, exclude)\n  atref config remove <KEY> <VALUE>  remove from a list field\n  atref add [PATH]                 add PATH (default: current dir) to folders\n  atref --version | -V             print version\n  atref --help | -h                print this help\n\nconfig: "@
}

/// What running `cmd` does, given what was read and resolved.
pub open spec fn run_spec(
    cmd: CommandView,
    version: Seq<char>,
    config_path: Seq<char>,
    home: Seq<char>,
    l: LoadedView,
    cwd: Result<Seq<char>, Seq<char>>,
    absolute: Result<Seq<char>, Seq<char>>,
) -> ExecutionView {
    match cmd {
        CommandView::TooMany(a) => fail("too many arguments: "@ + a),
        CommandView::Unknown(a) => fail(
            "unknown command: "@ + a + "\nrun `atref describe` (JSON) or `atref --help`."@,
        ),
        CommandView::Version => print(ReplyView::Text("atref "@ + version)),
        CommandView::Help => print(ReplyView::Text(help_spec(config_path))),
        CommandView::Describe => print(ReplyView::Text(describe_json_spec(config_path))),
        CommandView::DescribeHuman => print(ReplyView::Text(describe_human_spec(config_path))),
        CommandView::AddFolder(p) => match (p, cwd) {
            (None, Err(e)) => fail("cannot resolve current directory: "@ + e),
            (None, Ok(d)) => with_config(l, home, |c: ConfigView| add_spec("folders"@, d, c, absolute)),
            (Some(q), _) => with_config(l, home, |c: ConfigView| add_spec("folders"@, q, c, absolute)),
        },
        CommandView::Get(k) => with_config(l, home, |c: ConfigView| get_spec(k, c)),
        CommandView::SetValue(k, v) => with_config(l, home, |c: ConfigView| set_spec(k, v, c)),
        CommandView::AddValue(k, v) => with_config(l, home, |c: ConfigView| add_spec(k, v, c, absolute)),
        CommandView::RemoveValue(k, v) => with_config(
            l,
            home,
            |c: ConfigView| remove_spec(k, v, c, absolute),
        ),
    }
}


/// Whether the command reads the configuration.
pub open spec fn needs_config_spec(cmd: CommandView) -> bool {
    match cmd {
        CommandView::AddFolder(_) | CommandView::Get(_) | CommandView::SetValue(_, _)
        | CommandView::AddValue(_, _) | CommandView::RemoveValue(_, _) => true,
        _ => false,
    }
}

/// The path the command stores as an absolute folder, if any.
pub open spec fn path_to_resolve_spec(cmd: CommandView, cwd: Result<Seq<char>, Seq<char>>) -> Option<
    Seq<char>,
> {
    match cmd {
        CommandView::AddFolder(Some(p)) => Some(p),
        CommandView::AddFolder(None) => match cwd {
            Ok(d) => Some(d),
            Err(_) => None,
        },
        CommandView::AddValue(k, v) => if k == "folders"@ {
            Some(v)
        } else {
            None
        },
        CommandView::RemoveValue(k, v) => if k == "folders"@ {
            Some(v)
        } else {
            None
        },
        _ => None,
    }
}

/// Whether the command reads `config.json`.
pub fn needs_config(cmd: &Command) -> (r: bool)
    ensures
        r == needs_config_spec(cmd@),
{
    match cmd {
        Command::AddFolder(_) | Command::Get(_) | Command::SetValue(_, _) | Command::AddValue(_, _)
        | Command::RemoveValue(_, _) => true,
        _ => false,
    }
}

/// Whether the command needs the current directory (a bare `add`).
pub fn needs_cwd(cmd: &Command) -> (r: bool)
    ensures
        r == (cmd@ == CommandView::AddFolder(None)),
{
    match cmd {
        Command::AddFolder(None) => true,
        _ => false,
    }
}

/// The path the command stores as an absolute folder, if any: the caller
/// resolves it and hands the result in as [`Inputs::absolute`].
pub fn path_to_resolve(cmd: &Command, cwd: &Result<String, String>) -> (r: Option<String>)
    ensures
        opt_text(r) == path_to_resolve_spec(cmd@, res_text(*cwd)),
{
    proof {
        reveal_strlit("folders");
    }
    match cmd {
        Command::AddFolder(Some(p)) => Some(p.clone()),
        Command::AddFolder(None) => match cwd {
            Ok(d) => Some(d.clone()),
            Err(_) => None,
        },
        Command::AddValue(k, v) => if same_text(k.as_str(), "folders") {
            Some(v.clone())
        } else {
            None
        },
        Command::RemoveValue(k, v) => if same_text(k.as_str(), "folders") {
            Some(v.clone())
        } else {
            None
        },
        _ => None,
    }
}

fn contains_text(v: &Vec<String>, x: &str) -> (r: bool)
    ensures
        r == texts(v@).contains(x@),
{
    let mut i: usize = 0;
    while i < v.len()
        invariant
            i <= v@.len(),
            forall|j: int| 0 <= j < i ==> (#[trigger] v@[j])@ != x@,
        decreases v@.len() - i,
    {
        if same_text(v[i].as_str(), x) {
            assert(texts(v@)[i as int] == x@);
            return true;
        }
        i += 1;
    }
    assert forall|j: int| 0 <= j < texts(v@).len() implies #[trigger] texts(v@)[j] != x@ by {
        assert(texts(v@)[j] == v@[j]@);
    }
    false
}

fn contains_path(v: &Vec<String>, x: &str) -> (r: bool)
    ensures
        r == has_path(texts(v@), x@),
{
    let mut i: usize = 0;
    while i < v.len()
        invariant
            i <= v@.len(),
            forall|j: int| 0 <= j < i ==> norm_path((#[trigger] v@[j])@) != norm_path(x@),
        decreases v@.len() - i,
    {
        if same_path(v[i].as_str(), x) {
            assert(norm_path(texts(v@)[i as int]) == norm_path(x@));
            return true;
        }
        i += 1;
    }
    assert forall|j: int| 0 <= j < texts(v@).len() implies norm_path(#[trigger] texts(v@)[j]) != norm_path(x@) by {
        assert(texts(v@)[j] == v@[j]@);
    }
    false
}

fn without_path_text(v: &Vec<String>, x: &str) -> (r: Vec<String>)
    ensures
        texts(r@) == without_path(texts(v@), x@),
{
    let mut out: Vec<String> = Vec::new();
    let mut i: usize = 0;
    while i < v.len()
        invariant
            i <= v@.len(),
            texts(out@) == without_path(texts(v@).take(i as int), x@),
        decreases v@.len() - i,
    {
        let ghost prev = texts(v@).take(i as int);
        assert(texts(v@).take(i + 1) =~= prev.push(v@[i as int]@));
        assert(texts(v@).take(i + 1).drop_last() =~= prev);
        let ghost cur = texts(v@).take(i + 1);
        assert(cur.last() == v@[i as int]@);
        proof {
            reveal_with_fuel(Seq::<_>::filter, 1);
        }
        assert(cur.filter(|y: Seq<char>| norm_path(y) != norm_path(x@)) == if norm_path(v@[i as int]@)
            != norm_path(x@) {
            prev.filter(|y: Seq<char>| norm_path(y) != norm_path(x@)).push(v@[i as int]@)
        } else {
            prev.filter(|y: Seq<char>| norm_path(y) != norm_path(x@))
        });
        if !same_path(v[i].as_str(), x) {
            out.push(v[i].clone());
            assert(texts(out@) =~= without_path(prev, x@).push(v@[i as int]@));
        }
        i += 1;
    }
    assert(texts(v@).take(v@.len() as int) =~= texts(v@));
    out
}

fn without_text(v: &Vec<String>, x: &str) -> (r: Vec<String>)
    ensures
        texts(r@) == without(texts(v@), x@),
{
    let mut out: Vec<String> = Vec::new();
    let mut i: usize = 0;
    while i < v.len()
        invariant
            i <= v@.len(),
            texts(out@) == without(texts(v@).take(i as int), x@),
        decreases v@.len() - i,
    {
        let ghost prev = texts(v@).take(i as int);
        assert(texts(v@).take(i + 1) =~= prev.push(v@[i as int]@));
        assert(texts(v@).take(i + 1).drop_last() =~= prev);
        let ghost cur = texts(v@).take(i + 1);
        assert(cur.last() == v@[i as int]@);
        proof {
            reveal_with_fuel(Seq::<_>::filter, 1);
        }
        assert(cur.filter(|y: Seq<char>| y != x@) == if v@[i as int]@ != x@ {
            prev.filter(|y: Seq<char>| y != x@).push(v@[i as int]@)
        } else {
            prev.filter(|y: Seq<char>| y != x@)
        });
        if !same_text(v[i].as_str(), x) {
            out.push(v[i].clone());
            assert(texts(out@) =~= without(prev, x@).push(v@[i as int]@));
        }
        i += 1;
    }
    assert(texts(v@).take(v@.len() as int) =~= texts(v@));
    out
}

fn text2(a: &str, b: &str) -> (r: String)
    ensures
        r@ == a@ + b@,
{
    let mut s = String::from_str(a);
    s.append(b);
    s
}

fn text3(a: &str, b: &str, c: &str) -> (r: String)
    ensures
        r@ == a@ + b@ + c@,
{
    let mut s = String::from_str(a);
    s.append(b);
    s.append(c);
    s
}

/// The error for a key that is not a configuration field.
pub fn unknown_key(k: &str) -> (r: String)
    ensures
        r@ == unknown_key_text(k@),
{
    text3("unknown config key '", k, "'; valid keys: folders, exclude, chord, git_aware")
}

fn push_json_char(out: &mut String, c: char)
    ensures
        final(out)@ == old(out)@ + json_char(c),
{
    let ghost before = out@;
    if c == '"' {
        push_char(out, '\\');
        push_char(out, '"');
    } else if c == '\\' {
        push_char(out, '\\');
        push_char(out, '\\');
    } else if c == '\u{8}' {
        push_char(out, '\\');
        push_char(out, 'b');
    } else if c == '\t' {
        push_char(out, '\\');
        push_char(out, 't');
    } else if c == '\n' {
        push_char(out, '\\');
        push_char(out, 'n');
    } else if c == '\u{c}' {
        push_char(out, '\\');
        push_char(out, 'f');
    } else if c == '\r' {
        push_char(out, '\\');
        push_char(out, 'r');
    } else if (c as u32) < 0x20 {
        let v = c as u32;
        let hi = (v / 16) as u8;
        let lo = (v % 16) as u8;
        push_char(out, '\\');
        push_char(out, 'u');
        push_char(out, '0');
        push_char(out, '0');
        push_char(out, (48 + hi) as char);
        if lo < 10 {
            push_char(out, (48 + lo) as char);
        } else {
            push_char(out, (87 + lo) as char);
        }
    } else {
        push_char(out, c);
    }
    assert(out@ =~= before + json_char(c));
}

/// `s` as a JSON string literal, escaped as serde_json escapes it.
pub fn json_string(s: &str) -> (r: String)
    ensures
        r@ == json_string_spec(s@),
{
    let cs = chars_of(s);
    let mut out = String::new();
    push_char(&mut out, '"');
    let mut i: usize = 0;
    while i < cs.len()
        invariant
            i <= cs@.len(),
            cs@ == s@,
            out@ == seq!['"'] + json_escaped(cs@.take(i as int)),
        decreases cs@.len() - i,
    {
        assert(cs@.take(i + 1).drop_last() =~= cs@.take(i as int));
        assert(cs@.take(i + 1).last() == cs@[i as int]);
        push_json_char(&mut out, cs[i]);
        i += 1;
        assert(out@ =~= seq!['"'] + json_escaped(cs@.take(i as int)));
    }
    assert(cs@.take(cs@.len() as int) =~= cs@);
    push_char(&mut out, '"');
    assert(out@ =~= json_string_spec(s@));
    out
}

/// The schema that `describe` prints (see [`describe_json_spec`]).
pub fn describe_json(config_path: &str) -> (r: String)
    ensures
        r@ == describe_json_spec(config_path@),
{
    let path = json_string(config_path);
    let mut s = String::from_str("{\n  \"commands\": {\n    \"(no args)\": \"Launch the tray app.\",\n    \"add [PATH]\": \"Shortcut: add PATH (default: current directory) to folders.\",\n    \"config add <KEY> <VALUE>\": \"Add to a list field (folders, exclude); idempotent.\",\n    \"config get [KEY]\": \"Print the whole config, or one KEY, as JSON.\",\n    \"config remove <KEY> <VALUE>\": \"Remove from a list field (folders, exclude); idempotent.\",\n    \"config set <KEY> <VALUE>\": \"Set a scalar field (chord, git_aware).\",\n    \"describe\": \"Print this schema as JSON; `describe --human` prints it as readable text.\"\n  },\n  \"config_path\": ");
    s.append(path.as_str());
    s.append(",\n  \"description\": \"Global file-reference picker; CLI to configure it for agents.\",\n  \"fields\": {\n    \"chord\": {\n      \"default\": \"Control+Space\",\n      \"kind\": \"scalar\",\n      \"type\": \"string\",\n      \"validation\": \"must parse as a global-hotkey chord\"\n    },\n    \"exclude\": {\n      \"default\": [\n        \".git\",\n        \"node_modules\",\n        \"target\"\n      ],\n      \"kind\": \"list\",\n      \"type\": \"string\"\n    },\n    \"folders\": {\n      \"default\": \"[home]\",\n      \"kind\": \"list\",\n      \"type\": \"absolute path\",\n      \"validation\": \"must stay non-empty; values normalized to absolute\"\n    },\n    \"git_aware\": {\n      \"default\": true,\n      \"kind\": \"scalar\",\n      \"type\": \"bool\"\n    }\n  },\n  \"name\": \"atref\",\n  \"usage\": \"atref <command> [args] [--human]\"\n}");
    s
}

/// The readable schema that `describe --human` prints, ending with the
/// configuration file's path.
pub fn describe_human(config_path: &str) -> (r: String)
    ensures
        r@ == describe_human_spec(config_path@),
{
    text2(
        "atref \u{2014} global file-reference picker; CLI to configure it for agents.\n\nusage: atref <command> [args]\n\ncommands:\n  describe [--human]           print this schema as JSON (--human: as this text)\n  config get [KEY]             print the whole config, or one KEY, as JSON\n  config set <KEY> <VALUE>     set a scalar field (chord, git_aware)\n  config add <KEY> <VALUE>     add to a list field (folders, exclude); idempotent\n  config remove <KEY> <VALUE>  remove from a list field (folders, exclude); idempotent\n  add [PATH]                   add PATH (default: current directory) to folders\n  (no args)                    launch the tray app\n\nfields:\n  folders    list    absolute path  default: [home]  validation: must stay non-empty; values normalized to absolute\n  exclude    list    string         default: [\".git\", \"node_modules\", \"target\"]\n  chord      scalar  string         default: \"Control+Space\"  validation: must parse as a global-hotkey chord\n  git_aware  scalar  bool           default: true\n\nconfig: ",
        config_path,
    )
}

/// The `--help` text, ending with the configuration file's path.
pub fn help_text(config_path: &str) -> (r: String)
    ensures
        r@ == help_spec(config_path@),
{
    text2(
        "atref \u{2014} global file-reference picker.\n\nUSAGE:\n  atref                            launch the tray app\n  atref describe [--human]         print the command + config schema as JSON\n  atref config get [KEY]           print the whole config, or one KEY, as JSON\n  atref config set <KEY> <VALUE>   set a scalar field (chord, git_aware)\n  atref config add <KEY> <VALUE>   add to a list field (folders, exclude)\n  atref config remove <KEY> <VALUE>  remove from a list field\n  atref add [PATH]                 add PATH (default: current dir) to folders\n  atref --version | -V             print version\n  atref --help | -h                print this help\n\nconfig: ",
        config_path,
    )
}

fn failed(e: String) -> (r: Execution)
    ensures
        r@ == fail(e@),
{
    Execution { reply: Reply::Failed(e), write: None }
}

fn printed(reply: Reply) -> (r: Execution)
    ensures
        r@ == print(reply@),
{
    Execution { reply, write: None }
}

fn commit(cfg: Config, action: &str, key: &str, value: &str, changed: bool) -> (r: Execution)
    ensures
        r@ == commit_spec(cfg@, action@, key@, value@, changed),
{
    let report = Reply::Change(
        String::from_str(action),
        String::from_str(key),
        String::from_str(value),
        changed,
    );
    if changed {
        match cfg.validate() {
            Err(e) => failed(e),
            Ok(()) => Execution { reply: report, write: Some(cfg) },
        }
    } else {
        printed(report)
    }
}

fn current(l: &Loaded, home: &str) -> (r: Result<Config, String>)
    ensures
        match r {
            Ok(c) => current_config(l@, home@) == Ok::<ConfigView, Seq<char>>(c@),
            Err(e) => current_config(l@, home@) == Err::<ConfigView, Seq<char>>(e@),
        },
{
    match l {
        Loaded::Missing => Ok(Config::default_with_home(String::from_str(home))),
        Loaded::Parsed(c) => match c.validate() {
            Err(e) => Err(e),
            Ok(()) => Ok(c.clone()),
        },
        Loaded::Failed(e) => Err(e.clone()),
    }
}

fn get(key: &Option<String>, cfg: Config) -> (r: Execution)
    ensures
        r@ == get_spec(opt_text(*key), cfg@),
{
    proof {
        reveal_strlit("folders");
        reveal_strlit("exclude");
        reveal_strlit("chord");
        reveal_strlit("git_aware");
    }
    match key {
        None => printed(Reply::WholeConfig(cfg)),
        Some(k) => {
            let k = k.as_str();
            if same_text(k, "folders") {
                printed(Reply::Strings(cfg.folders))
            } else if same_text(k, "exclude") {
                printed(Reply::Strings(cfg.exclude))
            } else if same_text(k, "chord") {
                printed(Reply::Str(cfg.chord))
            } else if same_text(k, "git_aware") {
                printed(Reply::Flag(cfg.git_aware))
            } else {
                failed(unknown_key(k))
            }
        },
    }
}

fn set(key: &str, value: &str, cfg: Config) -> (r: Execution)
    ensures
        r@ == set_spec(key@, value@, cfg@),
{
    proof {
        reveal_strlit("folders");
        reveal_strlit("exclude");
        reveal_strlit("chord");
        reveal_strlit("git_aware");
        reveal_strlit("true");
        reveal_strlit("false");
    }
    let mut cfg = cfg;
    if same_text(key, "chord") {
        match parse_chord(value) {
            Some(e) => {
                let mut m = text3("invalid chord '", value, "': ");
                m.append(e.as_str());
                failed(m)
            },
            None => {
                cfg.chord = String::from_str(value);
                commit(cfg, "set", key, value, true)
            },
        }
    } else if same_text(key, "git_aware") {
        if same_text(value, "true") {
            cfg.git_aware = true;
            commit(cfg, "set", key, value, true)
        } else if same_text(value, "false") {
            cfg.git_aware = false;
            commit(cfg, "set", key, value, true)
        } else {
            failed(text3("`git_aware` must be true or false, got '", value, "'"))
        }
    } else if same_text(key, "folders") || same_text(key, "exclude") {
        let mut m = text3("`", key, "` is a list \u{2014} use `config add ");
        m.append(key);
        m.append(" <value>` / `config remove ");
        m.append(key);
        m.append(" <value>`");
        failed(m)
    } else {
        failed(unknown_key(key))
    }
}

fn scalar_key_error(key: &str) -> (r: String)
    ensures
        r@ == scalar_key_text(key@),
{
    let mut m = text3("`", key, "` is a scalar \u{2014} use `config set ");
    m.append(key);
    m.append(" <value>`");
    m
}

fn add_list(key: &str, value: &str, cfg: Config, absolute: &Result<String, String>) -> (r: Execution)
    ensures
        r@ == add_spec(key@, value@, cfg@, res_text(*absolute)),
{
    proof {
        reveal_strlit("folders");
        reveal_strlit("exclude");
        reveal_strlit("chord");
        reveal_strlit("git_aware");
    }
    let mut cfg = cfg;
    if same_text(key, "folders") {
        match absolute {
            Err(e) => failed(e.clone()),
            Ok(abs) => {
                if contains_path(&cfg.folders, abs.as_str()) {
                    commit(cfg, "add", key, abs.as_str(), false)
                } else {
                    let ghost before = texts(cfg.folders@);
                    cfg.folders.push(abs.clone());
                    assert(texts(cfg.folders@) =~= before.push(abs@));
                    commit(cfg, "add", key, abs.as_str(), true)
                }
            },
        }
    } else if same_text(key, "exclude") {
        if contains_text(&cfg.exclude, value) {
            commit(cfg, "add", key, value, false)
        } else {
            let ghost before = texts(cfg.exclude@);
            cfg.exclude.push(String::from_str(value));
            assert(texts(cfg.exclude@) =~= before.push(value@));
            commit(cfg, "add", key, value, true)
        }
    } else if same_text(key, "chord") || same_text(key, "git_aware") {
        failed(scalar_key_error(key))
    } else {
        failed(unknown_key(key))
    }
}


fn remove_list(key: &str, value: &str, cfg: Config, absolute: &Result<String, String>) -> (r:
    Execution)
    ensures
        r@ == remove_spec(key@, value@, cfg@, res_text(*absolute)),
{
    proof {
        reveal_strlit("folders");
        reveal_strlit("exclude");
        reveal_strlit("chord");
        reveal_strlit("git_aware");
    }
    let mut cfg = cfg;
    if same_text(key, "folders") {
        match absolute {
            Err(e) => failed(e.clone()),
            Ok(abs) => {
                if !contains_path(&cfg.folders, abs.as_str()) {
                    commit(cfg, "remove", key, abs.as_str(), false)
                } else if cfg.folders.len() == 1 {
                    failed(
                        String::from_str(
                            "refusing to remove the last folder \u{2014} `folders` must list at least one directory",
                        ),
                    )
                } else {
                    cfg.folders = without_path_text(&cfg.folders, abs.as_str());
                    commit(cfg, "remove", key, abs.as_str(), true)
                }
            },
        }
    } else if same_text(key, "exclude") {
        if !contains_text(&cfg.exclude, value) {
            commit(cfg, "remove", key, value, false)
        } else {
            cfg.exclude = without_text(&cfg.exclude, value);
            commit(cfg, "remove", key, value, true)
        }
    } else if same_text(key, "chord") || same_text(key, "git_aware") {
        failed(scalar_key_error(key))
    } else {
        failed(unknown_key(key))
    }
}

/// Run a parsed command, given what the caller read (`config.json`, the
/// current directory, the absolute form of [`path_to_resolve`]): what to
/// print, and the configuration to write first, if any. A change is written
/// only once the resulting configuration validates.
pub fn run(cmd: &Command, version: &str, config_path: &str, home: &str, inputs: &Inputs) -> (r:
    Execution)
    ensures
        r@ == run_spec(
            cmd@,
            version@,
            config_path@,
            home@,
            inputs.config@,
            res_text(inputs.cwd),
            res_text(inputs.absolute),
        ),
{
    match cmd {
        Command::TooMany(a) => failed(text2("too many arguments: ", a.as_str())),
        Command::Unknown(a) => failed(
            text3(
                "unknown command: ",
                a.as_str(),
                "\nrun `atref describe` (JSON) or `atref --help`.",
            ),
        ),
        Command::Version => printed(Reply::Text(text2("atref ", version))),
        Command::Help => printed(Reply::Text(help_text(config_path))),
        Command::Describe => printed(Reply::Text(describe_json(config_path))),
        Command::DescribeHuman => printed(Reply::Text(describe_human(config_path))),
        Command::AddFolder(p) => {
            let path = match p {
                Some(q) => q.clone(),
                None => match &inputs.cwd {
                    Err(e) => return failed(text2("cannot resolve current directory: ", e.as_str())),
                    Ok(d) => d.clone(),
                },
            };
            match current(&inputs.config, home) {
                Err(e) => failed(e),
                Ok(c) => add_list("folders", path.as_str(), c, &inputs.absolute),
            }
        },
        Command::Get(k) => match current(&inputs.config, home) {
            Err(e) => failed(e),
            Ok(c) => get(k, c),
        },
        Command::SetValue(k, v) => match current(&inputs.config, home) {
            Err(e) => failed(e),
            Ok(c) => set(k.as_str(), v.as_str(), c),
        },
        Command::AddValue(k, v) => match current(&inputs.config, home) {
            Err(e) => failed(e),
            Ok(c) => add_list(k.as_str(), v.as_str(), c, &inputs.absolute),
        },
        Command::RemoveValue(k, v) => match current(&inputs.config, home) {
            Err(e) => failed(e),
            Ok(c) => remove_list(k.as_str(), v.as_str(), c, &inputs.absolute),
        },
    }
}

/// The reply once the requested write is done: a failed write replaces it
/// with the write's error.
pub fn after_write(reply: Reply, written: Result<(), String>) -> (r: Reply)
    ensures
        r@ == match written {
            Ok(()) => reply@,
            Err(e) => ReplyView::Failed(e@),
        },
{
    match written {
        Ok(()) => reply,
        Err(e) => Reply::Failed(e),
    }
}


// --- laws ----------------------------------------------------------------------------

/// Only a valid configuration is ever written, only when something changed,
/// and a failed command writes nothing.
pub proof fn law_writes_are_valid_changes(
    cmd: CommandView,
    version: Seq<char>,
    config_path: Seq<char>,
    home: Seq<char>,
    l: LoadedView,
    cwd: Result<Seq<char>, Seq<char>>,
    absolute: Result<Seq<char>, Seq<char>>,
)
    ensures
        ({
            let r = run_spec(cmd, version, config_path, home, l, cwd, absolute);
            &&& (r.write matches Some(c) ==> validation_error(c) is None)
            &&& (r.write is Some ==> (r.reply matches ReplyView::Change(_, _, _, true)))
            &&& (r.reply is Failed ==> r.write is None)
        }),
{
}

/// Adding is idempotent: once an add has changed the configuration, the same
/// add again reports no change and writes nothing.
pub proof fn law_add_is_idempotent(
    key: Seq<char>,
    value: Seq<char>,
    cfg: ConfigView,
    absolute: Result<Seq<char>, Seq<char>>,
)
    requires
        add_spec(key, value, cfg, absolute).write is Some,
    ensures
        ({
            let c2 = add_spec(key, value, cfg, absolute).write->Some_0;
            &&& add_spec(key, value, c2, absolute).write is None
            &&& (add_spec(key, value, c2, absolute).reply matches ReplyView::Change(_, _, _, false))
        }),
{
    let c2 = add_spec(key, value, cfg, absolute).write->Some_0;
    if key == "folders"@ {
        let abs = absolute->Ok_0;
        assert(c2.folders == cfg.folders.push(abs));
        assert(c2.folders[c2.folders.len() - 1] == abs);
        assert(norm_path(c2.folders[c2.folders.len() - 1]) == norm_path(abs));
    } else {
        assert(c2.exclude == cfg.exclude.push(value));
        assert(c2.exclude[c2.exclude.len() - 1] == value);
    }
}

/// Removing a value that is not there succeeds, reports no change and
/// writes nothing.
pub proof fn law_remove_absent_is_noop(value: Seq<char>, cfg: ConfigView, abs: Seq<char>)
    ensures
        !cfg.exclude.contains(value) ==> remove_spec("exclude"@, value, cfg, Ok(abs)) == print(
            ReplyView::Change("remove"@, "exclude"@, value, false),
        ),
        !has_path(cfg.folders, abs) ==> remove_spec("folders"@, value, cfg, Ok(abs)) == print(
            ReplyView::Change("remove"@, "folders"@, abs, false),
        ),
{
    reveal_strlit("exclude");
    reveal_strlit("folders");
    assert("exclude"@[0] != "folders"@[0]);
}

/// The last folder cannot be removed: the command fails and writes nothing.
pub proof fn law_last_folder_is_kept(value: Seq<char>, cfg: ConfigView, abs: Seq<char>)
    requires
        cfg.folders == seq![abs],
    ensures
        remove_spec("folders"@, value, cfg, Ok(abs)) == fail(last_folder_text()),
{
    assert(cfg.folders[0] == abs);
    assert(norm_path(cfg.folders[0]) == norm_path(abs));
}

proof fn lemma_without_absent(s: Seq<Seq<char>>, x: Seq<char>)
    requires
        !s.contains(x),
    ensures
        without(s, x) == s,
    decreases s.len(),
{
    reveal_with_fuel(Seq::<_>::filter, 1);
    if s.len() > 0 {
        assert(!s.drop_last().contains(x)) by {
            if s.drop_last().contains(x) {
                let k = choose|k: int| 0 <= k < s.drop_last().len() && s.drop_last()[k] == x;
                assert(s[k] == x);
            }
        }
        lemma_without_absent(s.drop_last(), x);
        assert(s.last() != x) by {
            if s.last() == x {
                assert(s[s.len() - 1] == x);
            }
        }
        assert(s.drop_last().push(s.last()) =~= s);
    }
}

/// Adding an exclude that was absent and then removing it restores the
/// configuration written before.
pub proof fn law_add_then_remove_restores(value: Seq<char>, cfg: ConfigView, absolute: Result<Seq<char>, Seq<char>>)
    requires
        !cfg.exclude.contains(value),
        validation_error(cfg) is None,
    ensures
        ({
            let c2 = add_spec("exclude"@, value, cfg, absolute).write->Some_0;
            &&& add_spec("exclude"@, value, cfg, absolute).write is Some
            &&& remove_spec("exclude"@, value, c2, absolute).write == Some(cfg)
        }),
{
    reveal_strlit("exclude");
    reveal_strlit("folders");
    reveal_with_fuel(Seq::<_>::filter, 1);
    assert("exclude"@[0] != "folders"@[0]);
    let pushed = cfg.exclude.push(value);
    let c2 = ConfigView { exclude: pushed, ..cfg };
    assert(validation_error(c2) is None);
    assert(pushed.contains(value)) by {
        assert(pushed[pushed.len() - 1] == value);
    }
    assert(pushed.drop_last() =~= cfg.exclude);
    lemma_without_absent(cfg.exclude, value);
    assert(pushed[pushed.len() - 1] == value);
    assert(without(pushed, value) == cfg.exclude);
}

proof fn lemma_without_path_absent(s: Seq<Seq<char>>, x: Seq<char>)
    requires
        !has_path(s, x),
    ensures
        without_path(s, x) == s,
    decreases s.len(),
{
    reveal_with_fuel(Seq::<_>::filter, 1);
    if s.len() > 0 {
        assert(!has_path(s.drop_last(), x)) by {
            if has_path(s.drop_last(), x) {
                let k = choose|k: int| 0 <= k < s.drop_last().len() && norm_path(#[trigger] s.drop_last()[k]) == norm_path(x);
                assert(s[k] == s.drop_last()[k]);
            }
        }
        lemma_without_path_absent(s.drop_last(), x);
        assert(norm_path(s.last()) != norm_path(x)) by {
            assert(s[s.len() - 1] == s.last());
        }
        assert(s.drop_last().push(s.last()) =~= s);
    }
}

/// Adding a folder that was absent and then removing it restores the
/// configuration written before.
pub proof fn law_add_then_remove_folder_restores(value: Seq<char>, cfg: ConfigView, abs: Seq<char>)
    requires
        !has_path(cfg.folders, abs),
        validation_error(cfg) is None,
    ensures
        ({
            let c2 = add_spec("folders"@, value, cfg, Ok(abs)).write->Some_0;
            &&& add_spec("folders"@, value, cfg, Ok(abs)).write is Some
            &&& remove_spec("folders"@, value, c2, Ok(abs)).write == Some(cfg)
        }),
{
    reveal_with_fuel(Seq::<_>::filter, 1);
    let pushed = cfg.folders.push(abs);
    let c2 = ConfigView { folders: pushed, ..cfg };
    assert(validation_error(c2) is None);
    assert(has_path(pushed, abs)) by {
        assert(norm_path(pushed[pushed.len() - 1]) == norm_path(abs));
    }
    assert(pushed.len() >= 2);
    assert(pushed.drop_last() =~= cfg.folders);
    lemma_without_path_absent(cfg.folders, abs);
    assert(pushed[pushed.len() - 1] == abs);
    assert(without_path(pushed, abs) == cfg.folders);
}

/// `config set git_aware true|false` on a valid configuration writes that
/// configuration with `git_aware` set to the given value and every other
/// field as it was, and reports the change.
pub proof fn law_set_git_aware_writes_the_value(
    version: Seq<char>,
    config_path: Seq<char>,
    home: Seq<char>,
    cfg: ConfigView,
    value: Seq<char>,
    cwd: Result<Seq<char>, Seq<char>>,
    absolute: Result<Seq<char>, Seq<char>>,
)
    requires
        validation_error(cfg) is None,
        value == "true"@ || value == "false"@,
    ensures
        ({
            let r = run_spec(
                CommandView::SetValue("git_aware"@, value),
                version,
                config_path,
                home,
                LoadedView::Parsed(cfg),
                cwd,
                absolute,
            );
            &&& r.write matches Some(c) && {
                &&& c.git_aware == (value == "true"@)
                &&& c.folders == cfg.folders
                &&& c.exclude == cfg.exclude
                &&& c.chord == cfg.chord
            }
            &&& r.reply == ReplyView::Change("set"@, "git_aware"@, value, true)
        }),
{
    reveal_strlit("git_aware");
    reveal_strlit("chord");
    reveal_strlit("true");
    reveal_strlit("false");
    assert("git_aware"@ != "chord"@) by {
        assert("git_aware"@[0] != "chord"@[0]);
    }
    assert("true"@ != "false"@) by {
        assert("true"@[0] != "false"@[0]);
    }
}

/// The help flags: an argument list that starts with `--help` or `-h` asks
/// for the help text exactly when that flag is the only argument, and the
/// help text printed is the one that ends with the configuration path.
pub proof fn law_help_flags_ask_for_help(
    args: Seq<Seq<char>>,
    version: Seq<char>,
    config_path: Seq<char>,
    home: Seq<char>,
    l: LoadedView,
    cwd: Result<Seq<char>, Seq<char>>,
    absolute: Result<Seq<char>, Seq<char>>,
)
    requires
        args.len() >= 1,
        args[0] == "--help"@ || args[0] == "-h"@,
    ensures
        (command_of(args) == CommandView::Help) == (args.len() == 1),
        args.len() == 1 ==> run_spec(command_of(args), version, config_path, home, l, cwd, absolute)
            == print(ReplyView::Text(help_head() + config_path)),
{
    reveal_strlit("--help");
    reveal_strlit("-h");
    reveal_strlit("--version");
    reveal_strlit("-V");
    assert("--help"@ != "--version"@) by {
        assert("--help"@[2] != "--version"@[2]);
    }
    assert("--help"@ != "-V"@) by {
        assert("--help"@.len() != "-V"@.len());
    }
    assert("-h"@ != "--version"@) by {
        assert("-h"@.len() != "--version"@.len());
    }
    assert("-h"@ != "-V"@) by {
        assert("-h"@[1] != "-V"@[1]);
    }
}

} // verus!
