//! AI-agent launcher: the agent catalog, the argv that opens an agent
//! pane in the hosting terminal multiplexer, and the prompts handed to an
//! agent.

use vstd::prelude::*;

use crate::text::{
    ascii_alnum, char_is_ascii_alnum, clone_strings, push_str, str_chars, str_views, string_push,
};

verus! {

/// Placeholder substituted with the prompt text in [`AgentSpec::prompt_args`].
pub const PROMPT_PLACEHOLDER: &'static str = "{prompt}";

/// A launchable AI agent: a display name plus the command line to run.
#[derive(Debug, Clone, PartialEq, Eq)]
pub struct AgentSpec {
    /// Catalog key.
    pub name: String,
    /// Executable to launch (looked up on `PATH`).
    pub command: String,
    /// Extra arguments passed to `command`.
    pub args: Vec<String>,
    /// Template argv for handing the agent an initial prompt, appended
    /// after `args`, with every `{prompt}` replaced by the prompt text.
    pub prompt_args: Vec<String>,
}

/// Default `prompt_args`: the prompt as a single positional argument.
pub fn default_prompt_args() -> (r: Vec<String>)
    ensures
        str_views(r@) == seq!["{prompt}"@],
{
    let mut v: Vec<String> = Vec::new();
    v.push("{prompt}".to_string());
    assert(str_views(v@) =~= seq!["{prompt}"@]);
    v
}

fn agent(name: &str, prompt_args: Vec<String>) -> (r: AgentSpec)
    ensures
        r.name@ == name@,
        r.command@ == name@,
        r.args@.len() == 0,
        r.prompt_args == prompt_args,
{
    AgentSpec { name: name.to_string(), command: name.to_string(), args: Vec::new(), prompt_args }
}

/// Built-in agent catalog: codex and gemini take the prompt
/// positionally; aider gets it via `--message`.
pub fn builtin_agents() -> (r: Vec<AgentSpec>)
    ensures
        r@.len() == 3,
        r@[0].name@ == "codex"@ && r@[0].command@ == "codex"@,
        r@[1].name@ == "gemini"@ && r@[1].command@ == "gemini"@,
        r@[2].name@ == "aider"@ && r@[2].command@ == "aider"@,
        forall|i: int| 0 <= i < 3 ==> r@[i].args@.len() == 0,
        forall|i: int| 0 <= i < 2 ==> str_views(#[trigger] r@[i].prompt_args@) == seq!["{prompt}"@],
        str_views(r@[2].prompt_args@) == seq!["--message"@, "{prompt}"@],
{
    let mut v: Vec<AgentSpec> = Vec::new();
    v.push(agent("codex", default_prompt_args()));
    v.push(agent("gemini", default_prompt_args()));
    let mut aider_args: Vec<String> = Vec::new();
    aider_args.push("--message".to_string());
    aider_args.push("{prompt}".to_string());
    assert(str_views(aider_args@) =~= seq!["--message"@, "{prompt}"@]);
    v.push(agent("aider", aider_args));
    v
}

// ────────────────────────────────────────────────────────────────────────
// Shell quoting
// ────────────────────────────────────────────────────────────────────────

/// Chars that need no quoting in a POSIX shell word.
pub open spec fn shell_safe_char(c: char) -> bool {
    ascii_alnum(c) || c == '-' || c == '_' || c == '.' || c == '/' || c == '=' || c == ':' || c == '@'
        || c == '%' || c == '+' || c == ','
}

pub open spec fn shell_safe(s: Seq<char>) -> bool {
    s.len() > 0 && forall|i: int| 0 <= i < s.len() ==> shell_safe_char(#[trigger] s[i])
}

/// `s` with every `'` written as `'\''`.
pub open spec fn escape_single_quotes(s: Seq<char>) -> Seq<char>
    decreases s.len(),
{
    if s.len() == 0 {
        s
    } else {
        escape_single_quotes(s.drop_last()) + (if s.last() == '\'' {
            seq!['\'', '\\', '\'', '\'']
        } else {
            seq![s.last()]
        })
    }
}

/// POSIX shell quoting: safe words stay bare, anything else is wrapped in
/// single quotes with embedded quotes escaped.
pub open spec fn spec_shell_quote(s: Seq<char>) -> Seq<char> {
    if shell_safe(s) {
        s
    } else {
        seq!['\''] + escape_single_quotes(s) + seq!['\'']
    }
}

fn is_shell_safe_char(c: char) -> (r: bool)
    ensures
        r == shell_safe_char(c),
{
    char_is_ascii_alnum(c) || c == '-' || c == '_' || c == '.' || c == '/' || c == '=' || c == ':' || c == '@'
        || c == '%' || c == '+' || c == ','
}

/// Quote `s` for a POSIX shell.
pub fn shell_quote(s: &str) -> (r: String)
    ensures
        r@ == spec_shell_quote(s@),
{
    let cs = str_chars(s);
    let mut safe = cs.len() > 0;
    let mut i: usize = 0;
    while i < cs.len()
        invariant
            i <= cs@.len(),
            safe == (cs@.len() > 0 && forall|k: int| 0 <= k < i ==> shell_safe_char(#[trigger] cs@[k])),
        decreases cs@.len() - i,
    {
        if !is_shell_safe_char(cs[i]) {
            safe = false;
        }
        i = i + 1;
    }
    if safe {
        return s.to_string();
    }
    let mut out = String::new();
    string_push(&mut out, '\'');
    let mut j: usize = 0;
    while j < cs.len()
        invariant
            j <= cs@.len(),
            out@ == seq!['\''] + escape_single_quotes(cs@.take(j as int)),
        decreases cs@.len() - j,
    {
        let c = cs[j];
        assert(cs@.take(j + 1).drop_last() =~= cs@.take(j as int));
        if c == '\'' {
            string_push(&mut out, '\'');
            string_push(&mut out, '\\');
            string_push(&mut out, '\'');
            string_push(&mut out, '\'');
        } else {
            string_push(&mut out, c);
        }
        assert(out@ =~= seq!['\''] + escape_single_quotes(cs@.take(j + 1)));
        j = j + 1;
    }
    string_push(&mut out, '\'');
    assert(cs@.take(cs@.len() as int) =~= cs@);
    out
}

/// Words joined with single spaces.
pub open spec fn join_spaces(ws: Seq<Seq<char>>) -> Seq<char>
    decreases ws.len(),
{
    if ws.len() == 0 {
        Seq::empty()
    } else if ws.len() == 1 {
        ws[0]
    } else {
        join_spaces(ws.drop_last()) + seq![' '] + ws.last()
    }
}

/// A command and its args as one POSIX shell-command line, each token
/// quoted with [`spec_shell_quote`].
pub open spec fn spec_shell_join(command: Seq<char>, args: Seq<Seq<char>>) -> Seq<char> {
    join_spaces(seq![command].add(args).map_values(|a: Seq<char>| spec_shell_quote(a)))
}

pub fn shell_join(command: &str, args: &[String]) -> (r: String)
    ensures
        r@ == spec_shell_join(command@, str_views(args@)),
{
    let ghost toks = seq![command@].add(str_views(args@)).map_values(|a: Seq<char>| spec_shell_quote(a));
    let mut out = shell_quote(command);
    assert(toks.take(1) =~= seq![spec_shell_quote(command@)]);
    let mut i: usize = 0;
    while i < args.len()
        invariant
            i <= args@.len(),
            toks == seq![command@].add(str_views(args@)).map_values(|a: Seq<char>| spec_shell_quote(a)),
            toks.len() == args@.len() + 1,
            out@ == join_spaces(toks.take(i + 1)),
        decreases args@.len() - i,
    {
        let q = shell_quote(args[i].as_str());
        assert(toks[i + 1] == q@);
        assert(toks.take(i + 2).drop_last() =~= toks.take(i + 1));
        string_push(&mut out, ' ');
        push_str(&mut out, q.as_str());
        assert(out@ =~= join_spaces(toks.take(i + 2)));
        i = i + 1;
    }
    assert(toks.take(args@.len() + 1 as int) =~= toks);
    out
}

// ────────────────────────────────────────────────────────────────────────
// Multiplexer backends
// ────────────────────────────────────────────────────────────────────────

/// A terminal multiplexer that can host an agent pane alongside the
/// editor. Spawning and focusing panes is process I/O and lives with the
/// application; the library builds the command lines.
pub trait Multiplexer {
    /// Backend name, for status messages.
    fn name(&self) -> &'static str;

    /// The argv that opens a new pane running `agent` in `cwd`.
    fn open_argv(&self, agent: &AgentSpec, cwd: &str) -> Vec<String>;
}

/// tmux backend: `split-window` beside the editor.
pub struct Tmux;

/// zellij backend: `zellij action new-pane`.
pub struct Zellij;

/// tmux's argv: split to the right in `cwd`, print the new pane id, and
/// pass the agent invocation as one shell-command string.
pub open spec fn spec_tmux_argv(agent: AgentSpec, cwd: Seq<char>) -> Seq<Seq<char>> {
    seq!["tmux"@, "split-window"@, "-h"@, "-P"@, "-F"@, "#{pane_id}"@, "-c"@, cwd,
        spec_shell_join(agent.command@, str_views(agent.args@))]
}

/// zellij's argv: a new pane to the right in `cwd`, command and args as
/// separate argv elements after `--`.
pub open spec fn spec_zellij_argv(agent: AgentSpec, cwd: Seq<char>) -> Seq<Seq<char>> {
    seq!["zellij"@, "action"@, "new-pane"@, "--direction"@, "right"@, "--cwd"@, cwd, "--"@, agent.command@]
        + str_views(agent.args@)
}

impl Tmux {
    pub fn open_argv(&self, agent: &AgentSpec, cwd: &str) -> (r: Vec<String>)
        ensures
            str_views(r@) == spec_tmux_argv(*agent, cwd@),
    {
        let mut v: Vec<String> = Vec::new();
        v.push("tmux".to_string());
        v.push("split-window".to_string());
        v.push("-h".to_string());
        v.push("-P".to_string());
        v.push("-F".to_string());
        v.push("#{pane_id}".to_string());
        v.push("-c".to_string());
        v.push(cwd.to_string());
        v.push(shell_join(agent.command.as_str(), agent.args.as_slice()));
        assert(str_views(v@) =~= spec_tmux_argv(*agent, cwd@));
        v
    }
}

impl Zellij {
    pub fn open_argv(&self, agent: &AgentSpec, cwd: &str) -> (r: Vec<String>)
        ensures
            str_views(r@) == spec_zellij_argv(*agent, cwd@),
    {
        let mut v: Vec<String> = Vec::new();
        v.push("zellij".to_string());
        v.push("action".to_string());
        v.push("new-pane".to_string());
        v.push("--direction".to_string());
        v.push("right".to_string());
        v.push("--cwd".to_string());
        v.push(cwd.to_string());
        v.push("--".to_string());
        v.push(agent.command.clone());
        let ghost head = str_views(v@);
        let mut rest = clone_strings(agent.args.as_slice());
        v.append(&mut rest);
        assert(str_views(v@) =~= head + str_views(agent.args@));
        assert(str_views(v@) =~= spec_zellij_argv(*agent, cwd@));
        v
    }
}

impl Multiplexer for Tmux {
    fn name(&self) -> (r: &'static str)
        ensures
            r@ == "tmux"@,
    {
        "tmux"
    }

    fn open_argv(&self, agent: &AgentSpec, cwd: &str) -> (r: Vec<String>)
        ensures
            str_views(r@) == spec_tmux_argv(*agent, cwd@),
    {
        Tmux::open_argv(self, agent, cwd)
    }
}

impl Multiplexer for Zellij {
    fn name(&self) -> (r: &'static str)
        ensures
            r@ == "zellij"@,
    {
        "zellij"
    }

    fn open_argv(&self, agent: &AgentSpec, cwd: &str) -> (r: Vec<String>)
        ensures
            str_views(r@) == spec_zellij_argv(*agent, cwd@),
    {
        Zellij::open_argv(self, agent, cwd)
    }
}

// ────────────────────────────────────────────────────────────────────────
// Prompts
// ────────────────────────────────────────────────────────────────────────

/// What an `@target` points the agent at.
pub enum AgentContext {
    /// The active file (or a snapshot of an unsaved buffer), by path.
    File(String),
    /// The visual selection, with the file it came from when known.
    Selection { code: String, origin: Option<String> },
}

/// `` from `path` `` when the origin is known, else nothing.
pub open spec fn spec_origin_suffix(origin: Option<Seq<char>>) -> Seq<char> {
    match origin {
        Some(o) => " from `"@ + o + "`"@,
        None => Seq::empty(),
    }
}

/// `code` in a fenced block.
pub open spec fn spec_fence(code: Seq<char>) -> Seq<char> {
    "```\n"@ + code + "\n```"@
}

/// The prompt for `:agent <intent> @target`, for the intents `explain`
/// and `chat`.
pub open spec fn spec_agent_prompt(intent: Seq<char>, file: Option<Seq<char>>, code: Seq<char>, origin: Option<Seq<char>>) -> Seq<char> {
    if intent == "explain"@ {
        match file {
            Some(p) => "Explain the code in `"@ + p + "` — what it does and how it works."@,
            None => "Explain this selection"@ + spec_origin_suffix(origin) + ", what it does and how it works:\n\n"@
                + spec_fence(code),
        }
    } else {
        match file {
            Some(p) => "Let's talk about `"@ + p + "`. Read it first, then wait for my questions."@,
            None => "Let's talk about this selection"@ + spec_origin_suffix(origin)
                + ". Read it, then wait for my questions:\n\n"@ + spec_fence(code),
        }
    }
}

pub open spec fn opt_view(o: Option<String>) -> Option<Seq<char>> {
    match o {
        Some(s) => Some(s@),
        None => None,
    }
}

/// [`spec_agent_prompt`] of a context.
pub open spec fn context_prompt(intent: Seq<char>, ctx: AgentContext) -> Seq<char> {
    match ctx {
        AgentContext::File(p) => spec_agent_prompt(intent, Some(p@), Seq::empty(), None),
        AgentContext::Selection { code, origin } => spec_agent_prompt(intent, None, code@, opt_view(origin)),
    }
}

pub fn origin_suffix(origin: &Option<String>) -> (r: String)
    ensures
        r@ == spec_origin_suffix(opt_view(*origin)),
{
    match origin {
        Some(o) => {
            let mut s = " from `".to_string();
            push_str(&mut s, o.as_str());
            push_str(&mut s, "`");
            s
        },
        None => String::new(),
    }
}

pub fn fence(code: &str) -> (r: String)
    ensures
        r@ == spec_fence(code@),
{
    let mut s = "```\n".to_string();
    push_str(&mut s, code);
    push_str(&mut s, "\n```");
    s
}

/// Render the prompt for an intent already resolved to its canonical name.
pub fn agent_prompt(intent: &str, ctx: &AgentContext) -> (r: String)
    requires
        intent@ == "explain"@ || intent@ == "chat"@,
    ensures
        r@ == context_prompt(intent@, *ctx),
{
    let explain = intent.to_string() == "explain".to_string();
    match ctx {
        AgentContext::File(p) => {
            let mut s = if explain {
                "Explain the code in `".to_string()
            } else {
                "Let's talk about `".to_string()
            };
            push_str(&mut s, p.as_str());
            push_str(
                &mut s,
                if explain {
                    "` — what it does and how it works."
                } else {
                    "`. Read it first, then wait for my questions."
                },
            );
            s
        },
        AgentContext::Selection { code, origin } => {
            let mut s = if explain {
                "Explain this selection".to_string()
            } else {
                "Let's talk about this selection".to_string()
            };
            let o = origin_suffix(origin);
            push_str(&mut s, o.as_str());
            push_str(
                &mut s,
                if explain {
                    ", what it does and how it works:\n\n"
                } else {
                    ". Read it, then wait for my questions:\n\n"
                },
            );
            let f = fence(code.as_str());
            push_str(&mut s, f.as_str());
            s
        },
    }
}

/// What an `:agent` `@target` token names.
#[derive(Debug, Clone, Copy, PartialEq, Eq, Structural)]
pub enum AgentTarget {
    /// The active buffer (`@file`, `@buffer`, or no target at all).
    File,
    /// The visual selection (`@selection`, `@sel`).
    Selection,
}

/// The target a token names, if any.
pub open spec fn spec_agent_target(t: Seq<char>) -> Option<AgentTarget> {
    if t == ""@ || t == "@file"@ || t == "@buffer"@ {
        Some(AgentTarget::File)
    } else if t == "@selection"@ || t == "@sel"@ {
        Some(AgentTarget::Selection)
    } else {
        None
    }
}

/// Resolve the `@target` of `:agent <intent> @target`: an empty target
/// means `@file`; anything unrecognised is rejected with a hint.
pub fn resolve_agent_target(target: &str) -> (r: Result<AgentTarget, String>)
    ensures
        match spec_agent_target(target@) {
            Some(k) => r matches Ok(x) && x == k,
            None => r matches Err(m) && m@ == "unknown agent target: "@ + target@ + " (try @file or @selection)"@,
        },
{
    proof {
        reveal_strlit("");
        reveal_strlit("@file");
        reveal_strlit("@buffer");
        reveal_strlit("@selection");
        reveal_strlit("@sel");
    }
    if target.is_empty() {
        assert(target@ =~= ""@);
        Ok(AgentTarget::File)
    } else if crate::text::str_eq(target, "@file") || crate::text::str_eq(target, "@buffer") {
        Ok(AgentTarget::File)
    } else if crate::text::str_eq(target, "@selection") || crate::text::str_eq(target, "@sel") {
        Ok(AgentTarget::Selection)
    } else {
        let mut m = "unknown agent target: ".to_string();
        push_str(&mut m, target);
        push_str(&mut m, " (try @file or @selection)");
        Err(m)
    }
}

} // verus!
