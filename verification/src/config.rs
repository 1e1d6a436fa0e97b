//! User configuration for agent command selection and safety profiles.
//!
//! The configuration file is parsed outside the library; here it is a plain
//! value (`FileConfig`) and the library resolves it, together with the
//! built-in defaults and the per-invocation overrides, into the command line
//! that starts or resumes an agent.

use vstd::prelude::*;
use crate::text::{contains_string, copy_opt_string, copy_opt_strings, copy_string, copy_strings, either, opt_strings_view, opt_view, owned, strings_view};

verus! {

/// The configuration template written by `ab config init`. The built-in
/// defaults (`builtin_config`) hold exactly the values it sets.
pub const TEMPLATE: &'static str = "# Agentboard configuration
# This file is user-owned and is never read from a repository.
agent = \"kiro-cli\"
profile = \"interactive\"

[agents.kiro-cli]
program = \"kiro-cli\"

[agents.codex]
program = \"codex\"
# model = \"gpt-5-codex\"

[agents.copilot]
program = \"copilot\"
# model = \"auto\"

# The prompt is appended automatically. These are complete argument lists.
[profiles.interactive.kiro-cli]
args = [\"chat\"]
resume_args = [\"chat\", \"--resume\"]

[profiles.interactive.codex]
args = [\"--cd\", \".\", \"--ask-for-approval\", \"on-request\", \"--sandbox\", \"workspace-write\"]
resume_args = [\"resume\", \"--last\"]

[profiles.interactive.copilot]
args = [\"-C\", \".\", \"--interactive\"]
resume_args = [\"-C\", \".\", \"--continue\"]

# Use \"unattended\" only when you explicitly trust the agent and repository.
[profiles.unattended.kiro-cli]
args = [\"chat\", \"--trust-all-tools\"]
resume_args = [\"chat\", \"--trust-all-tools\", \"--resume\"]

[profiles.unattended.codex]
args = [\"--cd\", \".\", \"--ask-for-approval\", \"never\", \"--sandbox\", \"danger-full-access\"]
resume_args = [\"resume\", \"--last\"]

[profiles.unattended.copilot]
args = [\"-C\", \".\", \"--allow-all\", \"--no-ask-user\", \"--interactive\"]
resume_args = [\"-C\", \".\", \"--allow-all\", \"--no-ask-user\", \"--continue\"]
";

/// Options for one agent, either at the top level (`[agents.<name>]`) or
/// inside a profile (`[profiles.<profile>.<name>]`).
pub struct AgentOptions {
    pub program: Option<String>,
    pub args: Option<Vec<String>>,
    pub resume_args: Option<Vec<String>>,
    pub model: Option<String>,
}

pub struct AgentOptionsView {
    pub program: Option<Seq<char>>,
    pub args: Option<Seq<Seq<char>>>,
    pub resume_args: Option<Seq<Seq<char>>>,
    pub model: Option<Seq<char>>,
}

impl View for AgentOptions {
    type V = AgentOptionsView;

    open spec fn view(&self) -> AgentOptionsView {
        AgentOptionsView {
            program: opt_view(self.program),
            args: opt_strings_view(self.args),
            resume_args: opt_strings_view(self.resume_args),
            model: opt_view(self.model),
        }
    }
}

/// Options that set nothing.
pub open spec fn no_options() -> AgentOptionsView {
    AgentOptionsView { program: None, args: None, resume_args: None, model: None }
}

/// The options of one agent, under its name.
pub struct AgentEntry {
    pub agent: String,
    pub options: AgentOptions,
}

/// The options of the agents of one profile, under the profile's name.
pub struct ProfileEntry {
    pub profile: String,
    pub agents: Vec<AgentEntry>,
}

/// The parsed user configuration file.
pub struct FileConfig {
    pub agent: Option<String>,
    pub profile: Option<String>,
    pub agents: Vec<AgentEntry>,
    pub profiles: Vec<ProfileEntry>,
}

pub struct FileConfigView {
    pub agent: Option<Seq<char>>,
    pub profile: Option<Seq<char>>,
    pub agents: Seq<(Seq<char>, AgentOptionsView)>,
    pub profiles: Seq<(Seq<char>, Seq<(Seq<char>, AgentOptionsView)>)>,
}

pub open spec fn entries_view(v: Seq<AgentEntry>) -> Seq<(Seq<char>, AgentOptionsView)> {
    v.map_values(|e: AgentEntry| (e.agent@, e.options@))
}

pub open spec fn profiles_view(v: Seq<ProfileEntry>) -> Seq<(Seq<char>, Seq<(Seq<char>, AgentOptionsView)>)> {
    v.map_values(|p: ProfileEntry| (p.profile@, entries_view(p.agents@)))
}

impl View for FileConfig {
    type V = FileConfigView;

    open spec fn view(&self) -> FileConfigView {
        FileConfigView {
            agent: opt_view(self.agent),
            profile: opt_view(self.profile),
            agents: entries_view(self.agents@),
            profiles: profiles_view(self.profiles@),
        }
    }
}

/// Each key of an association list occurs once, as in the TOML tables that
/// the configuration is read from.
pub open spec fn keys_unique<V>(entries: Seq<(Seq<char>, V)>) -> bool {
    forall|i: int, j: int| 0 <= i < j < entries.len() ==> entries[i].0 != entries[j].0
}

/// A configuration as a file can hold it: every agent and every profile
/// named once, and every agent named once within each profile.
pub open spec fn config_wf(c: FileConfigView) -> bool {
    &&& keys_unique(c.agents)
    &&& keys_unique(c.profiles)
    &&& forall|k: int| 0 <= k < c.profiles.len() ==> keys_unique(#[trigger] c.profiles[k].1)
}

fn entry_keys_unique(v: &Vec<AgentEntry>) -> (r: bool)
    ensures
        r == keys_unique(entries_view(v@)),
{
    let ghost e = entries_view(v@);
    let mut i: usize = 0;
    while i < v.len()
        invariant
            e == entries_view(v@),
            0 <= i <= v@.len(),
            forall|a: int, b: int| 0 <= a < b < v@.len() && a < i ==> e[a].0 != e[b].0,
        decreases v@.len() - i,
    {
        let mut j: usize = i + 1;
        while j < v.len()
            invariant
                e == entries_view(v@),
                0 <= i < j <= v@.len(),
                forall|a: int, b: int| 0 <= a < b < v@.len() && a < i ==> e[a].0 != e[b].0,
                forall|b: int| i < b < j ==> e[i as int].0 != e[b].0,
            decreases v@.len() - j,
        {
            if crate::text::str_eq(v[i].agent.as_str(), v[j].agent.as_str()) {
                assert(e[i as int].0 == v@[i as int].agent@ && e[j as int].0 == v@[j as int].agent@);
                return false;
            }
            j = j + 1;
        }
        i = i + 1;
    }
    true
}

impl FileConfig {
    /// Whether the configuration names every agent and profile once (see
    /// [`config_wf`]).
    pub fn has_unique_keys(&self) -> (r: bool)
        ensures
            r == config_wf(self@),
    {
        if !entry_keys_unique(&self.agents) {
            return false;
        }
        let ghost p = self@.profiles;
        let mut i: usize = 0;
        while i < self.profiles.len()
            invariant
                p == self@.profiles,
                0 <= i <= self.profiles@.len(),
                keys_unique(self@.agents),
                forall|a: int, b: int| 0 <= a < b < p.len() && a < i ==> p[a].0 != p[b].0,
                forall|k: int| 0 <= k < i ==> keys_unique(#[trigger] p[k].1),
            decreases self.profiles@.len() - i,
        {
            if !entry_keys_unique(&self.profiles[i].agents) {
                assert(!keys_unique(p[i as int].1));
                return false;
            }
            let mut j: usize = i + 1;
            while j < self.profiles.len()
                invariant
                    p == self@.profiles,
                    0 <= i < j <= self.profiles@.len(),
                    forall|a: int, b: int| 0 <= a < b < p.len() && a < i ==> p[a].0 != p[b].0,
                    forall|b: int| i < b < j ==> p[i as int].0 != p[b].0,
                decreases self.profiles@.len() - j,
            {
                if crate::text::str_eq(self.profiles[i].profile.as_str(), self.profiles[j].profile.as_str()) {
                    assert(p[i as int].0 == self.profiles@[i as int].profile@);
                    assert(p[j as int].0 == self.profiles@[j as int].profile@);
                    return false;
                }
                j = j + 1;
            }
            i = i + 1;
        }
        true
    }
}

/// The value stored under `key` in an association list: the first entry
/// with that key, as a table lookup gives it.
pub open spec fn lookup<V>(entries: Seq<(Seq<char>, V)>, key: Seq<char>) -> Option<V>
    decreases entries.len(),
{
    if entries.len() == 0 {
        None
    } else if entries[0].0 == key {
        Some(entries[0].1)
    } else {
        lookup(entries.drop_first(), key)
    }
}

/// The options configured for `agent` at the top level, or none.
pub open spec fn agent_options(cfg: FileConfigView, agent: Seq<char>) -> AgentOptionsView {
    match lookup(cfg.agents, agent) {
        Some(o) => o,
        None => no_options(),
    }
}

/// The options configured for `agent` inside `profile`, or none.
pub open spec fn profile_options(cfg: FileConfigView, profile: Seq<char>, agent: Seq<char>) -> AgentOptionsView {
    match lookup(cfg.profiles, profile) {
        Some(agents) => match lookup(agents, agent) {
            Some(o) => o,
            None => no_options(),
        },
        None => no_options(),
    }
}

/// The resolved configuration for one agent and profile.
pub struct EffectiveConfig {
    pub agent: String,
    pub profile: String,
    pub program: String,
    pub args: Vec<String>,
    pub resume_args: Vec<String>,
}

pub struct EffectiveConfigView {
    pub agent: Seq<char>,
    pub profile: Seq<char>,
    pub program: Seq<char>,
    pub args: Seq<Seq<char>>,
    pub resume_args: Seq<Seq<char>>,
}

impl View for EffectiveConfig {
    type V = EffectiveConfigView;

    open spec fn view(&self) -> EffectiveConfigView {
        EffectiveConfigView {
            agent: self.agent@,
            profile: self.profile@,
            program: self.program@,
            args: strings_view(self.args@),
            resume_args: strings_view(self.resume_args@),
        }
    }
}

/// What the configuration lacks for an agent and profile.
pub enum ConfigError {
    MissingArguments { agent: String, profile: String },
    MissingResumeArguments { agent: String, profile: String },
    MissingProgram { agent: String, profile: String },
}

pub enum ConfigErrorView {
    MissingArguments { agent: Seq<char>, profile: Seq<char> },
    MissingResumeArguments { agent: Seq<char>, profile: Seq<char> },
    MissingProgram { agent: Seq<char>, profile: Seq<char> },
}

impl View for ConfigError {
    type V = ConfigErrorView;

    open spec fn view(&self) -> ConfigErrorView {
        match self {
            ConfigError::MissingArguments { agent, profile } =>
                ConfigErrorView::MissingArguments { agent: agent@, profile: profile@ },
            ConfigError::MissingResumeArguments { agent, profile } =>
                ConfigErrorView::MissingResumeArguments { agent: agent@, profile: profile@ },
            ConfigError::MissingProgram { agent, profile } =>
                ConfigErrorView::MissingProgram { agent: agent@, profile: profile@ },
        }
    }
}

/// The message of a configuration error.
pub open spec fn error_message(e: ConfigErrorView) -> Seq<char> {
    match e {
        ConfigErrorView::MissingArguments { agent, profile } => "no arguments configured for agent/profile "@
            + agent + "/"@ + profile,
        ConfigErrorView::MissingResumeArguments { agent, profile } =>
            "no resume arguments configured for agent/profile "@ + agent + "/"@ + profile,
        ConfigErrorView::MissingProgram { agent, profile } => "no program configured for agent/profile "@
            + agent + "/"@ + profile,
    }
}

impl ConfigError {
    /// The error's message.
    pub fn message(&self) -> (r: String)
        ensures
            r@ == error_message(self@),
    {
        let (head, agent, profile) = match self {
            ConfigError::MissingArguments { agent, profile } => (
                "no arguments configured for agent/profile ",
                agent,
                profile,
            ),
            ConfigError::MissingResumeArguments { agent, profile } => (
                "no resume arguments configured for agent/profile ",
                agent,
                profile,
            ),
            ConfigError::MissingProgram { agent, profile } => (
                "no program configured for agent/profile ",
                agent,
                profile,
            ),
        };
        let mut s = owned(head);
        crate::text::push_str(&mut s, agent.as_str());
        crate::text::push_str(&mut s, "/");
        crate::text::push_str(&mut s, profile.as_str());
        s
    }
}

pub open spec fn result_view(r: Result<EffectiveConfig, ConfigError>) -> Result<EffectiveConfigView, ConfigErrorView> {
    match r {
        Ok(c) => Ok(c@),
        Err(e) => Err(e@),
    }
}

/// The choices made for one invocation outside the configuration file: the
/// `--agent` and `--model` flags and the `AGENTBOARD_AGENT` and
/// `AGENTBOARD_PROFILE` environment variables.
pub struct Overrides {
    pub cli_agent: Option<String>,
    pub cli_model: Option<String>,
    pub env_agent: Option<String>,
    pub env_profile: Option<String>,
}

pub struct OverridesView {
    pub cli_agent: Option<Seq<char>>,
    pub cli_model: Option<Seq<char>>,
    pub env_agent: Option<Seq<char>>,
    pub env_profile: Option<Seq<char>>,
}

impl View for Overrides {
    type V = OverridesView;

    open spec fn view(&self) -> OverridesView {
        OverridesView {
            cli_agent: opt_view(self.cli_agent),
            cli_model: opt_view(self.cli_model),
            env_agent: opt_view(self.env_agent),
            env_profile: opt_view(self.env_profile),
        }
    }
}

// ---------------------------------------------------------------------------
// Built-in defaults
// ---------------------------------------------------------------------------

pub open spec fn strs1(a: &str) -> Seq<Seq<char>> {
    seq![a@]
}

pub open spec fn opts_program(p: &str) -> AgentOptionsView {
    AgentOptionsView { program: Some(p@), args: None, resume_args: None, model: None }
}

pub open spec fn opts_args(args: Seq<Seq<char>>, resume: Seq<Seq<char>>) -> AgentOptionsView {
    AgentOptionsView { program: None, args: Some(args), resume_args: Some(resume), model: None }
}

/// The built-in defaults: the values that `TEMPLATE` sets.
pub open spec fn builtin_view() -> FileConfigView {
    FileConfigView {
        agent: Some("kiro-cli"@),
        profile: Some("interactive"@),
        agents: seq![
            ("kiro-cli"@, opts_program("kiro-cli")),
            ("codex"@, opts_program("codex")),
            ("copilot"@, opts_program("copilot")),
        ],
        profiles: seq![
            ("interactive"@, seq![
                ("kiro-cli"@, opts_args(seq!["chat"@], seq!["chat"@, "--resume"@])),
                ("codex"@, opts_args(
                    seq!["--cd"@, "."@, "--ask-for-approval"@, "on-request"@, "--sandbox"@, "workspace-write"@],
                    seq!["resume"@, "--last"@])),
                ("copilot"@, opts_args(
                    seq!["-C"@, "."@, "--interactive"@],
                    seq!["-C"@, "."@, "--continue"@])),
            ]),
            ("unattended"@, seq![
                ("kiro-cli"@, opts_args(
                    seq!["chat"@, "--trust-all-tools"@],
                    seq!["chat"@, "--trust-all-tools"@, "--resume"@])),
                ("codex"@, opts_args(
                    seq!["--cd"@, "."@, "--ask-for-approval"@, "never"@, "--sandbox"@, "danger-full-access"@],
                    seq!["resume"@, "--last"@])),
                ("copilot"@, opts_args(
                    seq!["-C"@, "."@, "--allow-all"@, "--no-ask-user"@, "--interactive"@],
                    seq!["-C"@, "."@, "--allow-all"@, "--no-ask-user"@, "--continue"@])),
            ]),
        ],
    }
}

fn list(items: Vec<&str>) -> (r: Vec<String>)
    ensures
        r@.len() == items@.len(),
        forall|j: int| 0 <= j < items@.len() ==> #[trigger] r@[j]@ == items@[j]@,
{
    let mut out: Vec<String> = Vec::new();
    let mut i: usize = 0;
    while i < items.len()
        invariant
            i <= items.len(),
            out@.len() == i,
            forall|j: int| 0 <= j < i ==> #[trigger] out@[j]@ == items@[j]@,
        decreases items.len() - i,
    {
        out.push(owned(items[i]));
        i = i + 1;
    }
    out
}

fn program_entry(name: &str) -> (r: AgentEntry)
    ensures
        r.agent@ == name@,
        r.options@ == opts_program(name),
{
    AgentEntry {
        agent: owned(name),
        options: AgentOptions { program: Some(owned(name)), args: None, resume_args: None, model: None },
    }
}

fn args_entry(name: &str, args: Vec<String>, resume: Vec<String>) -> (r: AgentEntry)
    ensures
        r.agent@ == name@,
        r.options@ == opts_args(strings_view(args@), strings_view(resume@)),
{
    AgentEntry {
        agent: owned(name),
        options: AgentOptions { program: None, args: Some(args), resume_args: Some(resume), model: None },
    }
}

/// The built-in defaults, which `effective` falls back to.
pub fn builtin_config() -> (r: FileConfig)
    ensures
        r@ == builtin_view(),
        config_wf(r@),
{
    let mut agents: Vec<AgentEntry> = Vec::new();
    agents.push(program_entry("kiro-cli"));
    agents.push(program_entry("codex"));
    agents.push(program_entry("copilot"));

    let a1 = list(vec!["chat"]);
    let r1 = list(vec!["chat", "--resume"]);
    let a2 = list(vec!["--cd", ".", "--ask-for-approval", "on-request", "--sandbox", "workspace-write"]);
    let r2 = list(vec!["resume", "--last"]);
    let a3 = list(vec!["-C", ".", "--interactive"]);
    let r3 = list(vec!["-C", ".", "--continue"]);
    let a4 = list(vec!["chat", "--trust-all-tools"]);
    let r4 = list(vec!["chat", "--trust-all-tools", "--resume"]);
    let a5 = list(vec!["--cd", ".", "--ask-for-approval", "never", "--sandbox", "danger-full-access"]);
    let r5 = list(vec!["resume", "--last"]);
    let a6 = list(vec!["-C", ".", "--allow-all", "--no-ask-user", "--interactive"]);
    let r6 = list(vec!["-C", ".", "--allow-all", "--no-ask-user", "--continue"]);
    proof {
        assert(strings_view(a1@) =~= seq!["chat"@]);
        assert(strings_view(r1@) =~= seq!["chat"@, "--resume"@]);
        assert(strings_view(a2@) =~= seq!["--cd"@, "."@, "--ask-for-approval"@, "on-request"@, "--sandbox"@, "workspace-write"@]);
        assert(strings_view(r2@) =~= seq!["resume"@, "--last"@]);
        assert(strings_view(a3@) =~= seq!["-C"@, "."@, "--interactive"@]);
        assert(strings_view(r3@) =~= seq!["-C"@, "."@, "--continue"@]);
        assert(strings_view(a4@) =~= seq!["chat"@, "--trust-all-tools"@]);
        assert(strings_view(r4@) =~= seq!["chat"@, "--trust-all-tools"@, "--resume"@]);
        assert(strings_view(a5@) =~= seq!["--cd"@, "."@, "--ask-for-approval"@, "never"@, "--sandbox"@, "danger-full-access"@]);
        assert(strings_view(r5@) =~= seq!["resume"@, "--last"@]);
        assert(strings_view(a6@) =~= seq!["-C"@, "."@, "--allow-all"@, "--no-ask-user"@, "--interactive"@]);
        assert(strings_view(r6@) =~= seq!["-C"@, "."@, "--allow-all"@, "--no-ask-user"@, "--continue"@]);
    }

    let mut interactive: Vec<AgentEntry> = Vec::new();
    interactive.push(args_entry("kiro-cli", a1, r1));
    interactive.push(args_entry("codex", a2, r2));
    interactive.push(args_entry("copilot", a3, r3));

    let mut unattended: Vec<AgentEntry> = Vec::new();
    unattended.push(args_entry("kiro-cli", a4, r4));
    unattended.push(args_entry("codex", a5, r5));
    unattended.push(args_entry("copilot", a6, r6));

    let mut profiles: Vec<ProfileEntry> = Vec::new();
    profiles.push(ProfileEntry { profile: owned("interactive"), agents: interactive });
    profiles.push(ProfileEntry { profile: owned("unattended"), agents: unattended });

    let r = FileConfig {
        agent: Some(owned("kiro-cli")),
        profile: Some(owned("interactive")),
        agents,
        profiles,
    };
    assert(r@.agents =~= builtin_view().agents);
    assert(entries_view(r.profiles@[0].agents@) =~= builtin_view().profiles[0].1);
    assert(entries_view(r.profiles@[1].agents@) =~= builtin_view().profiles[1].1);
    assert(r@.profiles =~= builtin_view().profiles);
    proof {
        reveal_strlit("kiro-cli");
        reveal_strlit("codex");
        reveal_strlit("copilot");
        reveal_strlit("interactive");
        reveal_strlit("unattended");
        assert("kiro-cli"@[0] != "codex"@[0] && "kiro-cli"@[0] != "copilot"@[0] && "codex"@[2] != "copilot"@[2]);
        assert("interactive"@[0] != "unattended"@[0]);
        let b = builtin_view();
        assert(keys_unique(b.agents));
        assert(keys_unique(b.profiles));
        assert(keys_unique(b.profiles[0].1));
        assert(keys_unique(b.profiles[1].1));
    }
    r
}

// ---------------------------------------------------------------------------
// Resolution
// ---------------------------------------------------------------------------

/// The view of an optional string slice.
pub open spec fn opt_str_view(o: Option<&str>) -> Option<Seq<char>> {
    match o {
        Some(s) => Some(s@),
        None => None,
    }
}

/// The options behind an optional reference, or none.
pub open spec fn opts_view(o: Option<&AgentOptions>) -> AgentOptionsView {
    match o {
        Some(x) => x@,
        None => no_options(),
    }
}

/// The agent an invocation uses: the one asked for, else `--agent`, else
/// `AGENTBOARD_AGENT`, else the file's `agent`, else `kiro-cli`.
pub open spec fn resolved_agent(cfg: FileConfigView, requested: Option<Seq<char>>, ov: OverridesView) -> Seq<char> {
    match either(requested, either(ov.cli_agent, either(ov.env_agent, cfg.agent))) {
        Some(a) => a,
        None => "kiro-cli"@,
    }
}

/// The profile an invocation uses: `AGENTBOARD_PROFILE`, else the file's
/// `profile`, else `interactive`.
pub open spec fn resolved_profile(cfg: FileConfigView, ov: OverridesView) -> Seq<char> {
    match either(ov.env_profile, cfg.profile) {
        Some(p) => p,
        None => "interactive"@,
    }
}

/// An argument list with `--model <model>` appended when a model is chosen
/// and the list does not already name one.
pub open spec fn with_model(args: Seq<Seq<char>>, model: Option<Seq<char>>) -> Seq<Seq<char>> {
    match model {
        Some(m) => if args.contains("--model"@) {
            args
        } else {
            args + seq!["--model"@, m]
        },
        None => args,
    }
}

/// The result of resolving a configuration, as `effective` computes it.
///
/// Each setting comes from the first of, in order: the file's
/// `[agents.<agent>]`, the file's `[profiles.<profile>.<agent>]`, the
/// built-in `[agents.<agent>]` and the built-in
/// `[profiles.<profile>.<agent>]`. The model comes from `--model`, else the
/// file's agent options, else its profile options.
pub open spec fn effective_spec(cfg: FileConfigView, requested: Option<Seq<char>>, ov: OverridesView) -> Result<EffectiveConfigView, ConfigErrorView> {
    let agent = resolved_agent(cfg, requested, ov);
    let profile = resolved_profile(cfg, ov);
    let b = builtin_view();
    let ao = agent_options(cfg, agent);
    let po = profile_options(cfg, profile, agent);
    let bao = agent_options(b, agent);
    let bpo = profile_options(b, profile, agent);
    let args = either(ao.args, either(po.args, either(bao.args, bpo.args)));
    let resume = either(ao.resume_args, either(po.resume_args, either(bao.resume_args, bpo.resume_args)));
    let program = either(ao.program, either(po.program, either(bao.program, bpo.program)));
    let model = either(ov.cli_model, either(ao.model, po.model));
    if args is None {
        Err(ConfigErrorView::MissingArguments { agent, profile })
    } else if resume is None {
        Err(ConfigErrorView::MissingResumeArguments { agent, profile })
    } else if program is None {
        Err(ConfigErrorView::MissingProgram { agent, profile })
    } else {
        Ok(EffectiveConfigView {
            agent,
            profile,
            program: program->0,
            args: with_model(args->0, model),
            resume_args: with_model(resume->0, model),
        })
    }
}

/// The result of resolving an agent and profile from the built-in defaults
/// alone, as `builtin_effective` computes it.
pub open spec fn builtin_effective_spec(agent: Seq<char>, profile: Seq<char>) -> Result<EffectiveConfigView, ConfigErrorView> {
    let b = builtin_view();
    let ao = agent_options(b, agent);
    let po = profile_options(b, profile, agent);
    let args = either(ao.args, po.args);
    let resume = either(ao.resume_args, po.resume_args);
    let program = either(ao.program, po.program);
    if args is None {
        Err(ConfigErrorView::MissingArguments { agent, profile })
    } else if resume is None {
        Err(ConfigErrorView::MissingResumeArguments { agent, profile })
    } else if program is None {
        Err(ConfigErrorView::MissingProgram { agent, profile })
    } else {
        Ok(EffectiveConfigView { agent, profile, program: program->0, args: args->0, resume_args: resume->0 })
    }
}

proof fn lemma_lookup_skip<V>(entries: Seq<(Seq<char>, V)>, key: Seq<char>, i: int)
    requires
        0 <= i < entries.len(),
        entries[i].0 != key,
    ensures
        lookup(entries.skip(i), key) == lookup(entries.skip(i + 1), key),
{
    assert(entries.skip(i).drop_first() =~= entries.skip(i + 1));
}

fn find_agent<'a>(entries: &'a Vec<AgentEntry>, agent: &String) -> (r: Option<&'a AgentOptions>)
    ensures
        match r {
            Some(o) => lookup(entries_view(entries@), agent@) == Some(o@),
            None => lookup(entries_view(entries@), agent@) is None,
        },
{
    let ghost v = entries_view(entries@);
    let mut i: usize = 0;
    assert(v.skip(0) =~= v);
    while i < entries.len()
        invariant
            i <= entries.len(),
            v == entries_view(entries@),
            lookup(v, agent@) == lookup(v.skip(i as int), agent@),
        decreases entries.len() - i,
    {
        if entries[i].agent == *agent {
            return Some(&entries[i].options);
        }
        proof {
            lemma_lookup_skip(v, agent@, i as int);
        }
        i = i + 1;
    }
    None
}

fn find_profile<'a>(entries: &'a Vec<ProfileEntry>, profile: &String) -> (r: Option<&'a Vec<AgentEntry>>)
    ensures
        match r {
            Some(a) => lookup(profiles_view(entries@), profile@) == Some(entries_view(a@)),
            None => lookup(profiles_view(entries@), profile@) is None,
        },
{
    let ghost v = profiles_view(entries@);
    let mut i: usize = 0;
    assert(v.skip(0) =~= v);
    while i < entries.len()
        invariant
            i <= entries.len(),
            v == profiles_view(entries@),
            lookup(v, profile@) == lookup(v.skip(i as int), profile@),
        decreases entries.len() - i,
    {
        if entries[i].profile == *profile {
            return Some(&entries[i].agents);
        }
        proof {
            lemma_lookup_skip(v, profile@, i as int);
        }
        i = i + 1;
    }
    None
}

/// The options configured for `agent` at the top level, if any.
pub fn find_agent_options<'a>(cfg: &'a FileConfig, agent: &String) -> (r: Option<&'a AgentOptions>)
    ensures
        opts_view(r) == agent_options(cfg@, agent@),
{
    find_agent(&cfg.agents, agent)
}

/// The options configured for `agent` inside `profile`, if any.
pub fn find_profile_options<'a>(cfg: &'a FileConfig, profile: &String, agent: &String) -> (r: Option<&'a AgentOptions>)
    ensures
        opts_view(r) == profile_options(cfg@, profile@, agent@),
{
    match find_profile(&cfg.profiles, profile) {
        Some(agents) => find_agent(agents, agent),
        None => None,
    }
}

/// Which list of arguments to take from agent options.
enum ArgList {
    Start,
    Resume,
}

spec fn list_of(o: AgentOptionsView, which: ArgList) -> Option<Seq<Seq<char>>> {
    match which {
        ArgList::Start => o.args,
        ArgList::Resume => o.resume_args,
    }
}

fn list_field<'a>(o: Option<&'a AgentOptions>, which: &ArgList) -> (r: Option<&'a Vec<String>>)
    ensures
        opt_strings_view(match r { Some(v) => Some(*v), None => None }) == list_of(opts_view(o), *which),
{
    match o {
        Some(x) => match which {
            ArgList::Start => match &x.args {
                Some(v) => Some(v),
                None => None,
            },
            ArgList::Resume => match &x.resume_args {
                Some(v) => Some(v),
                None => None,
            },
        },
        None => None,
    }
}

/// The first list set by the given options, in order, copied.
fn first_list(
    a: Option<&AgentOptions>,
    b: Option<&AgentOptions>,
    c: Option<&AgentOptions>,
    d: Option<&AgentOptions>,
    which: ArgList,
) -> (r: Option<Vec<String>>)
    ensures
        opt_strings_view(r) == either(
            list_of(opts_view(a), which),
            either(list_of(opts_view(b), which), either(list_of(opts_view(c), which), list_of(opts_view(d), which))),
        ),
{
    if let Some(v) = list_field(a, &which) {
        return Some(copy_strings(v));
    }
    if let Some(v) = list_field(b, &which) {
        return Some(copy_strings(v));
    }
    if let Some(v) = list_field(c, &which) {
        return Some(copy_strings(v));
    }
    if let Some(v) = list_field(d, &which) {
        return Some(copy_strings(v));
    }
    None
}

fn program_field(o: Option<&AgentOptions>) -> (r: Option<String>)
    ensures
        opt_view(r) == opts_view(o).program,
{
    match o {
        Some(x) => copy_opt_string(&x.program),
        None => None,
    }
}

fn model_field(o: Option<&AgentOptions>) -> (r: Option<String>)
    ensures
        opt_view(r) == opts_view(o).model,
{
    match o {
        Some(x) => copy_opt_string(&x.model),
        None => None,
    }
}

fn first_string(a: Option<String>, b: Option<String>) -> (r: Option<String>)
    ensures
        opt_view(r) == either(opt_view(a), opt_view(b)),
{
    match a {
        Some(x) => Some(x),
        None => b,
    }
}

/// Append `--model <model>` unless the list already names a model.
fn add_model(args: &mut Vec<String>, model: &String)
    ensures
        strings_view(final(args)@) == with_model(strings_view(old(args)@), Some(model@)),
{
    let flag = owned("--model");
    if !contains_string(args, &flag) {
        let ghost before = strings_view(args@);
        args.push(flag);
        args.push(copy_string(model));
        assert(strings_view(args@) =~= before + seq!["--model"@, model@]);
    }
}

fn resolve_name(first: Option<&str>, rest: &Option<String>, more: &Option<String>, last: &Option<String>, default: &str) -> (r: String)
    ensures
        r@ == match either(opt_str_view(first), either(opt_view(*rest), either(opt_view(*more), opt_view(*last)))) {
            Some(a) => a,
            None => default@,
        },
{
    match first {
        Some(a) => owned(a),
        None => match rest {
            Some(a) => copy_string(a),
            None => match more {
                Some(a) => copy_string(a),
                None => match last {
                    Some(a) => copy_string(a),
                    None => owned(default),
                },
            },
        },
    }
}

/// Resolve the configuration for an agent: the file's settings, then the
/// built-in defaults, with the invocation's overrides applied.
pub fn effective(config: &FileConfig, requested_agent: Option<&str>, overrides: &Overrides) -> (r: Result<EffectiveConfig, ConfigError>)
    requires
        config_wf(config@),
    ensures
        result_view(r) == effective_spec(config@, opt_str_view(requested_agent), overrides@),
{
    let agent = resolve_name(requested_agent, &overrides.cli_agent, &overrides.env_agent, &config.agent, "kiro-cli");
    let none: Option<String> = None;
    let profile = resolve_name(None, &overrides.env_profile, &config.profile, &none, "interactive");
    proof {
        assert(agent@ == resolved_agent(config@, opt_str_view(requested_agent), overrides@));
        assert(profile@ == resolved_profile(config@, overrides@));
    }

    let builtin = builtin_config();
    let ao = find_agent_options(config, &agent);
    let po = find_profile_options(config, &profile, &agent);
    let bao = find_agent_options(&builtin, &agent);
    let bpo = find_profile_options(&builtin, &profile, &agent);

    let args = first_list(ao, po, bao, bpo, ArgList::Start);
    let resume_args = first_list(ao, po, bao, bpo, ArgList::Resume);
    let program = first_string(program_field(ao), first_string(program_field(po), first_string(program_field(bao), program_field(bpo))));
    let model = first_string(copy_opt_string(&overrides.cli_model), first_string(model_field(ao), model_field(po)));

    let mut args = match args {
        Some(a) => a,
        None => {
            return Err(ConfigError::MissingArguments { agent, profile });
        },
    };
    let mut resume_args = match resume_args {
        Some(a) => a,
        None => {
            return Err(ConfigError::MissingResumeArguments { agent, profile });
        },
    };
    if let Some(m) = &model {
        add_model(&mut args, m);
        add_model(&mut resume_args, m);
    }
    match program {
        Some(program) => Ok(EffectiveConfig { agent, profile, program, args, resume_args }),
        None => Err(ConfigError::MissingProgram { agent, profile }),
    }
}

/// Resolve an agent and profile from the built-in defaults alone, ignoring
/// any user configuration.
pub fn builtin_effective(agent: &str, profile: &str) -> (r: Result<EffectiveConfig, ConfigError>)
    ensures
        result_view(r) == builtin_effective_spec(agent@, profile@),
{
    let agent = owned(agent);
    let profile = owned(profile);
    let builtin = builtin_config();
    let ao = find_agent_options(&builtin, &agent);
    let po = find_profile_options(&builtin, &profile, &agent);
    let args = first_list(ao, po, None, None, ArgList::Start);
    let resume_args = first_list(ao, po, None, None, ArgList::Resume);
    let program = first_string(program_field(ao), program_field(po));
    let args = match args {
        Some(a) => a,
        None => {
            return Err(ConfigError::MissingArguments { agent, profile });
        },
    };
    let resume_args = match resume_args {
        Some(a) => a,
        None => {
            return Err(ConfigError::MissingResumeArguments { agent, profile });
        },
    };
    match program {
        Some(program) => Ok(EffectiveConfig { agent, profile, program, args, resume_args }),
        None => Err(ConfigError::MissingProgram { agent, profile }),
    }
}

// ---------------------------------------------------------------------------
// Laws
// ---------------------------------------------------------------------------

/// A chosen model is always named on both command lines: either the
/// configured arguments already pass `--model`, or `--model <model>` is
/// appended.
pub proof fn law_model_is_always_passed(cfg: FileConfigView, requested: Option<Seq<char>>, ov: OverridesView)
    requires
        ov.cli_model is Some,
        effective_spec(cfg, requested, ov) is Ok,
    ensures
        effective_spec(cfg, requested, ov)->Ok_0.args.contains("--model"@),
        effective_spec(cfg, requested, ov)->Ok_0.resume_args.contains("--model"@),
{
    let e = effective_spec(cfg, requested, ov)->Ok_0;
    let agent = resolved_agent(cfg, requested, ov);
    let profile = resolved_profile(cfg, ov);
    let b = builtin_view();
    let ao = agent_options(cfg, agent);
    let po = profile_options(cfg, profile, agent);
    let bao = agent_options(b, agent);
    let bpo = profile_options(b, profile, agent);
    let args = either(ao.args, either(po.args, either(bao.args, bpo.args)))->0;
    let resume = either(ao.resume_args, either(po.resume_args, either(bao.resume_args, bpo.resume_args)))->0;
    let m = ov.cli_model->0;
    if !args.contains("--model"@) {
        assert((args + seq!["--model"@, m])[args.len() as int] == "--model"@);
    }
    if !resume.contains("--model"@) {
        assert((resume + seq!["--model"@, m])[resume.len() as int] == "--model"@);
    }
}

/// Arguments that the configuration file sets for the agent itself are used
/// as they stand when no model is chosen: they take precedence over the
/// profile's and the built-in arguments.
pub proof fn law_file_agent_args_are_preserved(
    cfg: FileConfigView,
    requested: Option<Seq<char>>,
    ov: OverridesView,
    args: Seq<Seq<char>>,
)
    requires
        agent_options(cfg, resolved_agent(cfg, requested, ov)).args == Some(args),
        ov.cli_model is None,
        agent_options(cfg, resolved_agent(cfg, requested, ov)).model is None,
        profile_options(cfg, resolved_profile(cfg, ov), resolved_agent(cfg, requested, ov)).model is None,
        effective_spec(cfg, requested, ov) is Ok,
    ensures
        effective_spec(cfg, requested, ov)->Ok_0.args == args,
{
}

/// An explicitly requested agent is the agent the configuration is resolved
/// for, whatever the overrides and the file select.
pub proof fn law_requested_agent_wins(cfg: FileConfigView, agent: Seq<char>, ov: OverridesView)
    ensures
        resolved_agent(cfg, Some(agent), ov) == agent,
        effective_spec(cfg, Some(agent), ov) is Ok ==> effective_spec(cfg, Some(agent), ov)->Ok_0.agent == agent,
        effective_spec(cfg, Some(agent), ov) is Err ==> match effective_spec(cfg, Some(agent), ov)->Err_0 {
            ConfigErrorView::MissingArguments { agent: a, .. } => a == agent,
            ConfigErrorView::MissingResumeArguments { agent: a, .. } => a == agent,
            ConfigErrorView::MissingProgram { agent: a, .. } => a == agent,
        },
{
}

/// A configuration file that sets nothing for the resolved agent and
/// profile resolves exactly as the built-in defaults do.
pub proof fn law_unconfigured_agent_uses_builtin(cfg: FileConfigView, requested: Option<Seq<char>>, ov: OverridesView)
    requires
        lookup(cfg.agents, resolved_agent(cfg, requested, ov)) is None,
        lookup(cfg.profiles, resolved_profile(cfg, ov)) is None,
        ov.cli_model is None,
    ensures
        effective_spec(cfg, requested, ov) == builtin_effective_spec(resolved_agent(cfg, requested, ov), resolved_profile(cfg, ov)),
{
}

/// Every supported agent resolves under both shipped profiles from the
/// built-in defaults alone.
pub proof fn law_builtin_profiles_resolve(agent: Seq<char>, profile: Seq<char>)
    requires
        agent == "kiro-cli"@ || agent == "codex"@ || agent == "copilot"@,
        profile == "interactive"@ || profile == "unattended"@,
    ensures
        builtin_effective_spec(agent, profile) is Ok,
        builtin_effective_spec(agent, profile)->Ok_0.program == agent,
{
    reveal_strlit("kiro-cli");
    reveal_strlit("codex");
    reveal_strlit("copilot");
    reveal_strlit("interactive");
    reveal_strlit("unattended");
    reveal_with_fuel(lookup, 4);
    let b = builtin_view();
    assert(b.agents.drop_first().drop_first().drop_first().len() == 0);
    assert(b.profiles.drop_first().drop_first().len() == 0);
}

} // verus!

verus! {

/// A model set in the configuration file is passed to the agent: with no
/// `--model` flag, the model of the file's `[agents.<agent>]` (else of its
/// `[profiles.<profile>.<agent>]`) is appended as `--model <m>` to both the
/// start and the resume arguments, unless the chosen list already names a
/// model, in which case it is used as it stands.
pub proof fn law_file_model_is_passed(cfg: FileConfigView, requested: Option<Seq<char>>, ov: OverridesView, m: Seq<char>)
    requires
        ov.cli_model is None,
        ({
            let agent = resolved_agent(cfg, requested, ov);
            let ao = agent_options(cfg, agent);
            let po = profile_options(cfg, resolved_profile(cfg, ov), agent);
            ao.model == Some(m) || (ao.model is None && po.model == Some(m))
        }),
        effective_spec(cfg, requested, ov) is Ok,
    ensures
        ({
            let agent = resolved_agent(cfg, requested, ov);
            let profile = resolved_profile(cfg, ov);
            let ao = agent_options(cfg, agent);
            let po = profile_options(cfg, profile, agent);
            let bao = agent_options(builtin_view(), agent);
            let bpo = profile_options(builtin_view(), profile, agent);
            let raw = either(ao.args, either(po.args, either(bao.args, bpo.args)))->0;
            let raw_resume = either(ao.resume_args, either(po.resume_args, either(bao.resume_args, bpo.resume_args)))->0;
            let e = effective_spec(cfg, requested, ov)->Ok_0;
            &&& e.args.contains("--model"@)
            &&& e.resume_args.contains("--model"@)
            &&& !raw.contains("--model"@) ==> e.args == raw + seq!["--model"@, m]
            &&& raw.contains("--model"@) ==> e.args == raw
            &&& !raw_resume.contains("--model"@) ==> e.resume_args == raw_resume + seq!["--model"@, m]
            &&& raw_resume.contains("--model"@) ==> e.resume_args == raw_resume
        }),
{
    let agent = resolved_agent(cfg, requested, ov);
    let profile = resolved_profile(cfg, ov);
    let ao = agent_options(cfg, agent);
    let po = profile_options(cfg, profile, agent);
    let bao = agent_options(builtin_view(), agent);
    let bpo = profile_options(builtin_view(), profile, agent);
    let raw = either(ao.args, either(po.args, either(bao.args, bpo.args)))->0;
    let raw_resume = either(ao.resume_args, either(po.resume_args, either(bao.resume_args, bpo.resume_args)))->0;
    let e = effective_spec(cfg, requested, ov)->Ok_0;
    if !raw.contains("--model"@) {
        let a = raw + seq!["--model"@, m];
        assert(a[raw.len() as int] == "--model"@);
    }
    if !raw_resume.contains("--model"@) {
        let a = raw_resume + seq!["--model"@, m];
        assert(a[raw_resume.len() as int] == "--model"@);
    }
}

} // verus!
