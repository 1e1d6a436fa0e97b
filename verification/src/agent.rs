//! Agent harnesses: the shell command that starts, restarts or resumes an AI
//! agent inside a task's tmux session, and how the agent's screen shows
//! whether it is working or waiting for input.

use vstd::prelude::*;
use crate::config::{EffectiveConfig, EffectiveConfigView};
use crate::text::{
    chars_of, contains_ci, contains_case_insensitive, join, lemma_join_push, owned, push_char, push_str,
    strings_view, strs_view,
};

verus! {

/// Marker printed after the agent command exits, followed by the exit code.
pub const EXIT_MARKER: &'static str = "AB_AGENT_EXIT:";

/// The agents that Agentboard can drive.
pub const SUPPORTED_AGENTS: [&'static str; 3] = ["kiro-cli", "codex", "copilot"];

// ---------------------------------------------------------------------------
// Shell quoting
// ---------------------------------------------------------------------------

/// The text that stands inside single quotes for one character: a single
/// quote closes the quoted section, is written escaped, and reopens it.
pub open spec fn quote_piece(c: char) -> Seq<char> {
    if c == '\'' {
        seq!['\'', '\\', '\'', '\'']
    } else {
        seq![c]
    }
}

pub open spec fn escape_quotes(s: Seq<char>) -> Seq<char>
    decreases s.len(),
{
    if s.len() == 0 {
        Seq::empty()
    } else {
        quote_piece(s[0]) + escape_quotes(s.drop_first())
    }
}

/// A value quoted as one shell word.
pub open spec fn shell_quoted(s: Seq<char>) -> Seq<char> {
    seq!['\''] + escape_quotes(s) + seq!['\'']
}

proof fn lemma_escape_concat(a: Seq<char>, b: Seq<char>)
    ensures
        escape_quotes(a + b) == escape_quotes(a) + escape_quotes(b),
    decreases a.len(),
{
    if a.len() == 0 {
        assert(a + b =~= b);
    } else {
        assert((a + b).drop_first() =~= a.drop_first() + b);
        lemma_escape_concat(a.drop_first(), b);
    }
}

/// Quote a value for use as one shell argument.
pub fn shell_quote(value: &str) -> (r: String)
    ensures
        r@ == shell_quoted(value@),
{
    let cs = chars_of(value);
    let mut out = String::new();
    push_char(&mut out, '\'');
    let mut i: usize = 0;
    while i < cs.len()
        invariant
            i <= cs.len(),
            out@ == seq!['\''] + escape_quotes(cs@.take(i as int)),
        decreases cs.len() - i,
    {
        let c = cs[i];
        proof {
            assert(cs@.take(i + 1) =~= cs@.take(i as int) + seq![c]);
            lemma_escape_concat(cs@.take(i as int), seq![c]);
            assert(seq![c].drop_first() =~= Seq::<char>::empty());
            assert(escape_quotes(Seq::<char>::empty()) == Seq::<char>::empty());
            assert(escape_quotes(seq![c]) =~= quote_piece(c));
        }
        if c == '\'' {
            push_str(&mut out, "'\\''");
            proof {
                reveal_strlit("'\\''");
            }
        } else {
            push_char(&mut out, c);
        }
        i = i + 1;
        assert(out@ =~= seq!['\''] + escape_quotes(cs@.take(i as int)));
    }
    push_char(&mut out, '\'');
    assert(cs@.take(i as int) =~= cs@);
    out
}

// ---------------------------------------------------------------------------
// How a shell reads a quoted word
// ---------------------------------------------------------------------------

pub open spec fn prepend(c: char, o: Option<Seq<char>>) -> Option<Seq<char>> {
    match o {
        Some(s) => Some(seq![c] + s),
        None => None,
    }
}

/// The value a POSIX shell reads from a word built of single-quoted sections
/// and backslash escapes (`quoted` tells whether a single-quoted section is
/// open). Any other unquoted character is refused (`None`), as is an
/// unterminated section.
pub open spec fn shell_read(w: Seq<char>, quoted: bool) -> Option<Seq<char>>
    decreases w.len(),
{
    if w.len() == 0 {
        if quoted {
            None
        } else {
            Some(Seq::empty())
        }
    } else if quoted {
        if w[0] == '\'' {
            shell_read(w.drop_first(), false)
        } else {
            prepend(w[0], shell_read(w.drop_first(), true))
        }
    } else if w[0] == '\'' {
        shell_read(w.drop_first(), true)
    } else if w[0] == '\\' && w.len() >= 2 {
        prepend(w[1], shell_read(w.drop_first().drop_first(), false))
    } else {
        None
    }
}

pub open spec fn prefix_opt(s: Seq<char>, o: Option<Seq<char>>) -> Option<Seq<char>> {
    match o {
        Some(r) => Some(s + r),
        None => None,
    }
}

proof fn lemma_read_escaped(s: Seq<char>, t: Seq<char>)
    ensures
        shell_read(escape_quotes(s) + t, true) == prefix_opt(s, shell_read(t, true)),
    decreases s.len(),
{
    if s.len() == 0 {
        assert(escape_quotes(s) + t =~= t);
        match shell_read(t, true) {
            Some(r) => assert(s + r =~= r),
            None => {},
        }
    } else {
        let c = s[0];
        let rest = s.drop_first();
        let x = escape_quotes(rest) + t;
        lemma_read_escaped(rest, t);
        assert(escape_quotes(s) + t =~= quote_piece(c) + x);
        let w = quote_piece(c) + x;
        if c == '\'' {
            let w1 = w.drop_first();
            let w2 = w1.drop_first().drop_first();
            assert(w[0] == '\'');
            assert(w1 =~= seq!['\\', '\'', '\''] + x);
            assert(w1[0] == '\\' && w1[1] == '\'' && w1.len() >= 2);
            assert(w2 =~= seq!['\''] + x);
            assert(w2[0] == '\'');
            assert(w2.drop_first() =~= x);
            assert(shell_read(w2, false) == shell_read(x, true));
            assert(shell_read(w1, false) == prepend('\'', shell_read(x, true)));
            assert(shell_read(w, true) == prepend('\'', shell_read(x, true)));
        } else {
            assert(w[0] == c);
            assert(w.drop_first() =~= x);
            assert(shell_read(w, true) == prepend(c, shell_read(x, true)));
        }
        match shell_read(t, true) {
            Some(r) => assert(seq![c] + (rest + r) =~= s + r),
            None => {},
        }
    }
}

/// A shell reads back exactly the quoted value: quoting keeps every
/// character of a prompt (quotes, `$`, backticks, newlines) literal.
pub proof fn law_shell_quote_reads_back(s: Seq<char>)
    ensures
        shell_read(shell_quoted(s), false) == Some(s),
{
    let w = shell_quoted(s);
    assert(w[0] == '\'');
    assert(w.drop_first() =~= escape_quotes(s) + seq!['\'']);
    lemma_read_escaped(s, seq!['\'']);
    let close = seq!['\''];
    assert(close[0] == '\'');
    assert(close.drop_first() =~= Seq::<char>::empty());
    assert(shell_read(Seq::<char>::empty(), false) == Some(Seq::<char>::empty()));
    assert(shell_read(close, true) == Some(Seq::<char>::empty()));
    assert(s + Seq::<char>::empty() =~= s);
}

// ---------------------------------------------------------------------------
// Commands
// ---------------------------------------------------------------------------

pub open spec fn exit_marker_suffix() -> Seq<char> {
    "; __ab_ec=$?; echo ''; echo 'AB_AGENT_EXIT:'$__ab_ec; (exit $__ab_ec)"@
}

/// Wrap a command so that, when it exits, it prints the exit marker and its
/// exit code, then keeps that exit code.
pub fn wrap_with_exit_marker(cmd: &str) -> (r: String)
    ensures
        r@ == cmd@ + exit_marker_suffix(),
{
    let mut out = owned(cmd);
    push_str(&mut out, "; __ab_ec=$?; echo ''; echo 'AB_AGENT_EXIT:'$__ab_ec; (exit $__ab_ec)");
    out
}

/// The words of an agent command line: program, arguments, then the prompt.
pub open spec fn command_words(cfg: EffectiveConfigView, resume: bool, prompt: Option<Seq<char>>) -> Seq<Seq<char>> {
    seq![cfg.program] + (if resume {
        cfg.resume_args
    } else {
        cfg.args
    }) + match prompt {
        Some(p) => seq![p],
        None => Seq::empty(),
    }
}

pub open spec fn quote_all(words: Seq<Seq<char>>) -> Seq<Seq<char>> {
    words.map_values(|w: Seq<char>| shell_quoted(w))
}

/// The command line that `format_command` builds: each word quoted, words
/// separated by one space.
pub open spec fn command_line(cfg: EffectiveConfigView, resume: bool, prompt: Option<Seq<char>>) -> Seq<char> {
    join(quote_all(command_words(cfg, resume, prompt)), " "@)
}

pub open spec fn opt_str(o: Option<&str>) -> Option<Seq<char>> {
    match o {
        Some(s) => Some(s@),
        None => None,
    }
}

/// Build the shell command from a resolved configuration: the program, then
/// the start (or resume) arguments, then the prompt if any, each quoted.
pub fn format_command(cfg: &EffectiveConfig, resume: bool, prompt: Option<&str>) -> (r: String)
    ensures
        r@ == command_line(cfg@, resume, opt_str(prompt)),
{
    let args = if resume {
        &cfg.resume_args
    } else {
        &cfg.args
    };
    let ghost words = command_words(cfg@, resume, opt_str(prompt));
    let ghost quoted = quote_all(words);
    let mut out = shell_quote(cfg.program.as_str());
    proof {
        reveal_strlit(" ");
        assert(quoted.take(1) =~= seq![quoted[0]]);
    }
    let mut i: usize = 0;
    while i < args.len()
        invariant
            i <= args.len(),
            words == command_words(cfg@, resume, opt_str(prompt)),
            quoted == quote_all(words),
            strings_view(args@) == (if resume { cfg@.resume_args } else { cfg@.args }),
            out@ == join(quoted.take(i + 1), " "@),
        decreases args.len() - i,
    {
        let q = shell_quote(args[i].as_str());
        proof {
            assert(quoted[i + 1] == shell_quoted(args@[i as int]@));
            assert(quoted.take(i + 2) =~= quoted.take(i + 1).push(quoted[i + 1]));
            lemma_join_push(quoted.take(i + 1), " "@, quoted[i + 1]);
        }
        push_str(&mut out, " ");
        push_str(&mut out, q.as_str());
        i = i + 1;
    }
    if let Some(p) = prompt {
        let q = shell_quote(p);
        proof {
            assert(quoted.take(i + 2) =~= quoted.take(i + 1).push(quoted[i + 1]));
            lemma_join_push(quoted.take(i + 1), " "@, quoted[i + 1]);
            assert(quoted.take(i + 2) =~= quoted);
        }
        push_str(&mut out, " ");
        push_str(&mut out, q.as_str());
    } else {
        assert(quoted.take(i + 1) =~= quoted);
    }
    out
}

} // verus!

verus! {

// ---------------------------------------------------------------------------
// Harnesses
// ---------------------------------------------------------------------------

/// The supported agent CLIs.
#[derive(Clone, Copy, Debug, PartialEq, Eq, Structural)]
pub enum AgentKind {
    KiroCli,
    Codex,
    Copilot,
}

pub open spec fn agent_name(k: AgentKind) -> Seq<char> {
    match k {
        AgentKind::KiroCli => "kiro-cli"@,
        AgentKind::Codex => "codex"@,
        AgentKind::Copilot => "copilot"@,
    }
}

/// The process name that identifies a running agent in the process tree.
pub open spec fn process_name_of(k: AgentKind) -> Seq<char> {
    agent_name(k)
}

/// Text that the agent shows when it has finished and waits for input.
pub open spec fn idle_patterns_of(k: AgentKind) -> Seq<Seq<char>> {
    match k {
        AgentKind::KiroCli => seq!["ask a question or describe a task"@],
        _ => Seq::empty(),
    }
}

/// Text that the agent shows while it is working.
pub open spec fn active_patterns_of(k: AgentKind) -> Seq<Seq<char>> {
    match k {
        AgentKind::KiroCli => seq!["Kiro is working"@],
        AgentKind::Codex => seq!["Working ("@, "esc to interrupt"@],
        AgentKind::Copilot => seq!["Working"@, "esc to interrupt"@],
    }
}

/// Whether any of the patterns occurs in the text, ignoring case.
pub open spec fn any_pattern(text: Seq<char>, patterns: Seq<Seq<char>>) -> bool {
    exists|i: int| 0 <= i < patterns.len() && contains_ci(text, #[trigger] patterns[i])
}

/// Whether the visible pane shows the agent waiting for input. An active
/// pattern always means busy. Kiro is idle when it shows its idle prompt;
/// Codex and Copilot keep their composer on screen, so for them the absence
/// of the working status is what shows they are idle.
pub open spec fn is_idle_spec(k: AgentKind, visible: Seq<char>) -> bool {
    match k {
        AgentKind::KiroCli => !any_pattern(visible, active_patterns_of(k)) && any_pattern(visible, idle_patterns_of(k)),
        _ => !any_pattern(visible, active_patterns_of(k)),
    }
}

/// The start arguments without the flags that demand a prompt.
pub open spec fn without_prompt_flags(args: Seq<Seq<char>>) -> Seq<Seq<char>>
    decreases args.len(),
{
    if args.len() == 0 {
        Seq::empty()
    } else if args.last() == "--interactive"@ || args.last() == "-i"@ {
        without_prompt_flags(args.drop_last())
    } else {
        without_prompt_flags(args.drop_last()).push(args.last())
    }
}

/// The command that starts the agent without a task, ready for a
/// follow-up message. Copilot's `--interactive` needs a prompt, so it is
/// left out.
pub open spec fn start_command_spec(k: AgentKind, cfg: EffectiveConfigView) -> Seq<char> {
    match k {
        AgentKind::Copilot => command_line(
            EffectiveConfigView { args: without_prompt_flags(cfg.args), ..cfg },
            false,
            None,
        ) + exit_marker_suffix(),
        _ => command_line(cfg, false, None) + exit_marker_suffix(),
    }
}

fn kind_name(k: AgentKind) -> (r: &'static str)
    ensures
        r@ == agent_name(k),
{
    match k {
        AgentKind::KiroCli => "kiro-cli",
        AgentKind::Codex => "codex",
        AgentKind::Copilot => "copilot",
    }
}

fn kind_idle_patterns(k: AgentKind) -> (r: Vec<&'static str>)
    ensures
        strs_view(r@) == idle_patterns_of(k),
{
    match k {
        AgentKind::KiroCli => {
            let v = vec!["ask a question or describe a task"];
            assert(strs_view(v@) =~= idle_patterns_of(k));
            v
        },
        _ => {
            let v: Vec<&'static str> = Vec::new();
            assert(strs_view(v@) =~= idle_patterns_of(k));
            v
        },
    }
}

fn kind_active_patterns(k: AgentKind) -> (r: Vec<&'static str>)
    ensures
        strs_view(r@) == active_patterns_of(k),
{
    match k {
        AgentKind::KiroCli => {
            let v = vec!["Kiro is working"];
            assert(strs_view(v@) =~= active_patterns_of(k));
            v
        },
        AgentKind::Codex => {
            let v = vec!["Working (", "esc to interrupt"];
            assert(strs_view(v@) =~= active_patterns_of(k));
            v
        },
        AgentKind::Copilot => {
            let v = vec!["Working", "esc to interrupt"];
            assert(strs_view(v@) =~= active_patterns_of(k));
            v
        },
    }
}

/// Whether any of the patterns occurs in the text, ignoring case.
pub fn any_pattern_in(text: &str, patterns: &Vec<&'static str>) -> (r: bool)
    ensures
        r == any_pattern(text@, strs_view(patterns@)),
{
    let mut i: usize = 0;
    while i < patterns.len()
        invariant
            i <= patterns.len(),
            forall|j: int| 0 <= j < i ==> !contains_ci(text@, #[trigger] strs_view(patterns@)[j]),
        decreases patterns.len() - i,
    {
        if contains_case_insensitive(text, patterns[i]) {
            assert(contains_ci(text@, strs_view(patterns@)[i as int]));
            return true;
        }
        i = i + 1;
    }
    false
}

fn kind_is_idle(k: AgentKind, visible: &str) -> (r: bool)
    ensures
        r == is_idle_spec(k, visible@),
{
    let active = any_pattern_in(visible, &kind_active_patterns(k));
    match k {
        AgentKind::KiroCli => !active && any_pattern_in(visible, &kind_idle_patterns(k)),
        _ => !active,
    }
}

fn drop_prompt_flags(args: &Vec<String>) -> (r: Vec<String>)
    ensures
        strings_view(r@) == without_prompt_flags(strings_view(args@)),
{
    let interactive = owned("--interactive");
    let short = owned("-i");
    let mut out: Vec<String> = Vec::new();
    let mut i: usize = 0;
    while i < args.len()
        invariant
            i <= args.len(),
            interactive@ == "--interactive"@,
            short@ == "-i"@,
            strings_view(out@) == without_prompt_flags(strings_view(args@).take(i as int)),
        decreases args.len() - i,
    {
        let ghost before = strings_view(args@).take(i as int);
        proof {
            assert(strings_view(args@).take(i + 1).drop_last() =~= before);
            assert(strings_view(args@).take(i + 1).last() == args@[i as int]@);
        }
        if !(args[i] == interactive) && !(args[i] == short) {
            out.push(args[i].clone());
            assert(strings_view(out@) =~= without_prompt_flags(before).push(args@[i as int]@));
        }
        i = i + 1;
    }
    assert(strings_view(args@).take(i as int) =~= strings_view(args@));
    out
}

fn kind_start_command(k: AgentKind, cfg: &EffectiveConfig) -> (r: String)
    ensures
        r@ == start_command_spec(k, cfg@),
{
    match k {
        AgentKind::Copilot => {
            let trimmed = EffectiveConfig {
                agent: cfg.agent.clone(),
                profile: cfg.profile.clone(),
                program: cfg.program.clone(),
                args: drop_prompt_flags(&cfg.args),
                resume_args: crate::text::copy_strings(&cfg.resume_args),
            };
            assert(trimmed@ == EffectiveConfigView { args: without_prompt_flags(cfg@.args), ..cfg@ });
            wrap_with_exit_marker(format_command(&trimmed, false, None).as_str())
        },
        _ => wrap_with_exit_marker(format_command(cfg, false, None).as_str()),
    }
}

/// An agent backend: how to launch it in a tmux pane and how to read its
/// state from the pane. The configuration passed to the command builders is
/// the one resolved for this harness's agent.
pub trait AgentHarness {
    spec fn agent(&self) -> AgentKind;

    fn kind(&self) -> (k: AgentKind)
        ensures
            k == self.agent(),
    ;

    /// Name of this harness (e.g. `"kiro-cli"`).
    fn name(&self) -> (r: &'static str)
        ensures
            r@ == agent_name(self.agent()),
    {
        kind_name(self.kind())
    }

    /// The command that spawns the agent on a task prompt, wrapped so that it
    /// prints the exit marker and its exit code when it ends.
    fn spawn_command(&self, cfg: &EffectiveConfig, prompt: &str) -> (r: String)
        ensures
            r@ == command_line(cfg@, false, Some(prompt@)) + exit_marker_suffix(),
    {
        wrap_with_exit_marker(format_command(cfg, false, Some(prompt)).as_str())
    }

    /// The command that starts the interactive agent without a task.
    fn start_command(&self, cfg: &EffectiveConfig) -> (r: String)
        ensures
            r@ == start_command_spec(self.agent(), cfg@),
    {
        kind_start_command(self.kind(), cfg)
    }

    /// The command that re-launches the agent to continue its previous
    /// conversation: the resume arguments, without the original prompt.
    fn resume_command(&self, cfg: &EffectiveConfig, original_prompt: &str) -> (r: String)
        ensures
            r@ == command_line(cfg@, true, None) + exit_marker_suffix(),
    {
        wrap_with_exit_marker(format_command(cfg, true, None).as_str())
    }

    /// Patterns that show the agent is idle, waiting for new input.
    fn idle_patterns(&self) -> (r: Vec<&'static str>)
        ensures
            strs_view(r@) == idle_patterns_of(self.agent()),
    {
        kind_idle_patterns(self.kind())
    }

    /// Patterns that show the agent is working.
    fn active_patterns(&self) -> (r: Vec<&'static str>)
        ensures
            strs_view(r@) == active_patterns_of(self.agent()),
    {
        kind_active_patterns(self.kind())
    }

    /// Whether the visible pane shows the agent waiting for input.
    fn is_idle(&self, visible: &str) -> (r: bool)
        ensures
            r == is_idle_spec(self.agent(), visible@),
    {
        kind_is_idle(self.kind(), visible)
    }

    /// The process name to look for in the pane's process tree.
    fn process_name(&self) -> (r: &'static str)
        ensures
            r@ == process_name_of(self.agent()),
    {
        kind_name(self.kind())
    }
}

impl AgentHarness for AgentKind {
    open spec fn agent(&self) -> AgentKind {
        *self
    }

    fn kind(&self) -> (k: AgentKind) {
        *self
    }
}

/// Harness for the `kiro-cli chat` interface.
pub struct KiroCliHarness;

impl AgentHarness for KiroCliHarness {
    open spec fn agent(&self) -> AgentKind {
        AgentKind::KiroCli
    }

    fn kind(&self) -> (k: AgentKind) {
        AgentKind::KiroCli
    }
}

/// Harness for the OpenAI Codex CLI.
pub struct CodexHarness;

impl AgentHarness for CodexHarness {
    open spec fn agent(&self) -> AgentKind {
        AgentKind::Codex
    }

    fn kind(&self) -> (k: AgentKind) {
        AgentKind::Codex
    }
}

/// Harness for the GitHub Copilot CLI.
pub struct CopilotHarness;

impl AgentHarness for CopilotHarness {
    open spec fn agent(&self) -> AgentKind {
        AgentKind::Copilot
    }

    fn kind(&self) -> (k: AgentKind) {
        AgentKind::Copilot
    }
}

/// The supported agent of a name, if any.
pub open spec fn named_agent(a: Seq<char>) -> Option<AgentKind> {
    if a == "kiro-cli"@ {
        Some(AgentKind::KiroCli)
    } else if a == "codex"@ {
        Some(AgentKind::Codex)
    } else if a == "copilot"@ {
        Some(AgentKind::Copilot)
    } else {
        None
    }
}

/// The agent used where a task names none: the configured one, else the
/// one named by the environment, else Kiro (also when the name is not a
/// supported agent).
pub fn default_agent(configured: Option<&str>, env_agent: Option<&str>) -> (r: AgentKind)
    ensures
        r == match (match configured {
            Some(c) => Some(c@),
            None => match env_agent {
                Some(e) => Some(e@),
                None => None,
            },
        }) {
            Some(name) => match named_agent(name) {
                Some(k) => k,
                None => AgentKind::KiroCli,
            },
            None => AgentKind::KiroCli,
        },
{
    let chosen = match configured {
        Some(c) => Some(c),
        None => env_agent,
    };
    match chosen {
        Some(name) => match harness_for(name) {
            Some(k) => k,
            None => AgentKind::KiroCli,
        },
        None => AgentKind::KiroCli,
    }
}

/// The harness for a supported agent name.
pub fn harness_for(agent: &str) -> (r: Option<AgentKind>)
    ensures
        r == named_agent(agent@),
        match r {
            Some(k) => agent_name(k) == agent@,
            None => agent@ != "kiro-cli"@ && agent@ != "codex"@ && agent@ != "copilot"@,
        },
{
    proof {
        law_agent_names_distinct(AgentKind::KiroCli, AgentKind::Codex);
        law_agent_names_distinct(AgentKind::KiroCli, AgentKind::Copilot);
        law_agent_names_distinct(AgentKind::Codex, AgentKind::Copilot);
    }
    if crate::text::str_eq(agent, "kiro-cli") {
        Some(AgentKind::KiroCli)
    } else if crate::text::str_eq(agent, "codex") {
        Some(AgentKind::Codex)
    } else if crate::text::str_eq(agent, "copilot") {
        Some(AgentKind::Copilot)
    } else {
        None
    }
}

} // verus!

verus! {

// ---------------------------------------------------------------------------
// Laws
// ---------------------------------------------------------------------------

/// A working agent is never reported idle, whatever else its screen shows.
pub proof fn law_active_agent_is_not_idle(k: AgentKind, visible: Seq<char>, i: int)
    requires
        0 <= i < active_patterns_of(k).len(),
        contains_ci(visible, active_patterns_of(k)[i]),
    ensures
        !is_idle_spec(k, visible),
{
}

/// The supported agents have distinct names, so a name selects one harness.
pub proof fn law_agent_names_distinct(a: AgentKind, b: AgentKind)
    ensures
        agent_name(a) == agent_name(b) ==> a == b,
{
    reveal_strlit("kiro-cli");
    reveal_strlit("codex");
    reveal_strlit("copilot");
    if a != b {
        match (a, b) {
            (AgentKind::KiroCli, _) => assert(agent_name(a).len() != agent_name(b).len() || agent_name(a)[0] != agent_name(b)[0]),
            (AgentKind::Codex, AgentKind::Copilot) => assert(agent_name(a)[2] != agent_name(b)[2]),
            (AgentKind::Copilot, AgentKind::Codex) => assert(agent_name(a)[2] != agent_name(b)[2]),
            (_, AgentKind::KiroCli) => assert(agent_name(a).len() != agent_name(b).len() || agent_name(a)[0] != agent_name(b)[0]),
            _ => {},
        }
    }
}

/// The start arguments used to reopen Copilot without a prompt never pass
/// `--interactive` or `-i`, and keep every other argument.
pub proof fn law_prompt_flags_removed(args: Seq<Seq<char>>)
    ensures
        !without_prompt_flags(args).contains("--interactive"@),
        !without_prompt_flags(args).contains("-i"@),
        forall|a: Seq<char>| args.contains(a) && a != "--interactive"@ && a != "-i"@ ==> without_prompt_flags(args).contains(a),
    decreases args.len(),
{
    if args.len() > 0 {
        law_prompt_flags_removed(args.drop_last());
        let rest = without_prompt_flags(args.drop_last());
        assert forall|a: Seq<char>| args.contains(a) && a != "--interactive"@ && a != "-i"@ implies without_prompt_flags(args).contains(a) by {
            let j = choose|j: int| 0 <= j < args.len() && args[j] == a;
            if j < args.len() - 1 {
                assert(args.drop_last()[j] == a);
                assert(args.drop_last().contains(a));
                assert(rest.contains(a));
                let k = choose|k: int| 0 <= k < rest.len() && rest[k] == a;
                if !(args.last() == "--interactive"@ || args.last() == "-i"@) {
                    assert(rest.push(args.last())[k] == a);
                }
            } else {
                assert(rest.push(args.last())[rest.len() as int] == a);
            }
        }
        if !(args.last() == "--interactive"@ || args.last() == "-i"@) {
            assert forall|a: Seq<char>| rest.push(args.last()).contains(a) implies a != "--interactive"@ && a != "-i"@ by {
                let k = choose|k: int| 0 <= k < rest.len() + 1 && rest.push(args.last())[k] == a;
                if k < rest.len() {
                    assert(rest.contains(a));
                }
            }
        }
    }
}

} // verus!
