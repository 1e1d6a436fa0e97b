//! Repository setup steps run in a task's worktree before the agent starts.
//! Reading the setup files is left to the caller.

use vstd::prelude::*;
use crate::text::{chars_of, owned, push_str, strings_view};

verus! {

/// The setup steps configured for a repository.
pub struct SetupConfig {
    pub steps: Vec<String>,
}

/// The setup that applies: the repository's own file wins over the
/// per-machine one, and a setup without steps is no setup.
pub open spec fn resolve_spec(repo: Option<Seq<Seq<char>>>, global: Option<Seq<Seq<char>>>) -> Option<Seq<Seq<char>>> {
    match crate::text::either(repo, global) {
        Some(steps) => if steps.len() == 0 {
            None
        } else {
            Some(steps)
        },
        None => None,
    }
}

pub open spec fn setup_view(o: Option<SetupConfig>) -> Option<Seq<Seq<char>>> {
    match o {
        Some(c) => Some(strings_view(c.steps@)),
        None => None,
    }
}

/// Resolve the setup from the repository's config (`.agentboard/setup.toml`)
/// and the per-machine fallback, each `None` when its file is absent.
pub fn resolve(repo_config: Option<SetupConfig>, global_config: Option<SetupConfig>) -> (r: Option<SetupConfig>)
    ensures
        setup_view(r) == resolve_spec(setup_view(repo_config), setup_view(global_config)),
{
    let chosen = match repo_config {
        Some(c) => Some(c),
        None => global_config,
    };
    match chosen {
        Some(c) => if c.steps.len() == 0 {
            None
        } else {
            Some(c)
        },
        None => None,
    }
}

pub open spec fn setup_prefix() -> Seq<char> {
    "mkdir -p .agentboard; touch .agentboard/setup.running; setup_failed=0;"@
}

/// The part of the setup command that runs one step, unless an earlier step
/// failed.
pub open spec fn step_block(step: Seq<char>) -> Seq<char> {
    " if [ \"$setup_failed\" -eq 0 ]; then ( "@ + step + " ) || setup_failed=$?; fi;"@
}

pub open spec fn step_blocks(steps: Seq<Seq<char>>) -> Seq<char>
    decreases steps.len(),
{
    if steps.len() == 0 {
        Seq::empty()
    } else {
        step_blocks(steps.drop_last()) + step_block(steps.last())
    }
}

pub open spec fn setup_suffix() -> Seq<char> {
    " rm -f .agentboard/setup.running; if [ \"$setup_failed\" -ne 0 ]; then echo AB_SETUP_FAILED:$setup_failed; exec bash; fi; "@
}

/// The shell command that runs the setup steps in order, each only if the
/// ones before succeeded, marks setup as running while it lasts, and then
/// launches the agent (or reports the failure and leaves a shell).
pub open spec fn setup_command_spec(steps: Seq<Seq<char>>, agent_command: Seq<char>) -> Seq<char> {
    setup_prefix() + step_blocks(steps) + setup_suffix() + agent_command
}

/// Build the shell command that runs setup in a task's worktree and then
/// launches the agent command.
pub fn command(config: &SetupConfig, agent_command: &str) -> (r: String)
    ensures
        r@ == setup_command_spec(strings_view(config.steps@), agent_command@),
{
    let mut out = owned("mkdir -p .agentboard; touch .agentboard/setup.running; setup_failed=0;");
    let ghost steps = strings_view(config.steps@);
    let mut i: usize = 0;
    while i < config.steps.len()
        invariant
            i <= config.steps.len(),
            steps == strings_view(config.steps@),
            out@ == setup_prefix() + step_blocks(steps.take(i as int)),
        decreases config.steps.len() - i,
    {
        proof {
            assert(steps.take(i + 1).drop_last() =~= steps.take(i as int));
            assert(steps.take(i + 1).last() == config.steps@[i as int]@);
        }
        push_str(&mut out, " if [ \"$setup_failed\" -eq 0 ]; then ( ");
        push_str(&mut out, config.steps[i].as_str());
        push_str(&mut out, " ) || setup_failed=$?; fi;");
        i = i + 1;
        assert(out@ =~= setup_prefix() + step_blocks(steps.take(i as int)));
    }
    assert(steps.take(i as int) =~= steps);
    push_str(
        &mut out,
        " rm -f .agentboard/setup.running; if [ \"$setup_failed\" -ne 0 ]; then echo AB_SETUP_FAILED:$setup_failed; exec bash; fi; ",
    );
    push_str(&mut out, agent_command);
    out
}

/// The command a task's session runs at start: the agent command, behind
/// the setup steps when there are any.
pub fn launch_command(setup: Option<&SetupConfig>, agent_command: &str) -> (r: String)
    ensures
        r@ == match setup {
            Some(c) => setup_command_spec(strings_view(c.steps@), agent_command@),
            None => agent_command@,
        },
{
    match setup {
        Some(c) => command(c, agent_command),
        None => owned(agent_command),
    }
}

/// The text without leading slashes.
pub open spec fn trim_start_slashes(s: Seq<char>) -> Seq<char>
    decreases s.len(),
{
    if s.len() > 0 && s[0] == '/' {
        trim_start_slashes(s.drop_first())
    } else {
        s
    }
}

/// Every slash made `__`.
pub open spec fn double_underscores(s: Seq<char>) -> Seq<char>
    decreases s.len(),
{
    if s.len() == 0 {
        Seq::empty()
    } else {
        double_underscores(s.drop_last()) + if s.last() == '/' {
            seq!['_', '_']
        } else {
            seq![s.last()]
        }
    }
}

/// The name of a repository's per-machine setup file (without `.toml`): its
/// canonical path without the leading slashes, every slash made `__`.
pub open spec fn repo_config_id_spec(canonical: Seq<char>) -> Seq<char> {
    double_underscores(trim_start_slashes(canonical))
}

proof fn lemma_trim_start_slashes_skip(s: Seq<char>, i: int)
    requires
        0 <= i <= s.len(),
        forall|j: int| 0 <= j < i ==> s[j] == '/',
    ensures
        trim_start_slashes(s) == trim_start_slashes(s.skip(i)),
    decreases i,
{
    if i > 0 {
        lemma_trim_start_slashes_skip(s.drop_first(), i - 1);
        assert(s.drop_first().skip(i - 1) =~= s.skip(i));
    } else {
        assert(s.skip(0) =~= s);
    }
}

/// The name of a repository's per-machine setup file, from its canonical
/// path.
pub fn repo_config_id(canonical: &str) -> (r: String)
    ensures
        r@ == repo_config_id_spec(canonical@),
{
    let cs = chars_of(canonical);
    let mut start: usize = 0;
    while start < cs.len() && cs[start] == '/'
        invariant
            start <= cs.len(),
            forall|j: int| 0 <= j < start ==> cs@[j] == '/',
        decreases cs.len() - start,
    {
        start = start + 1;
    }
    proof {
        lemma_trim_start_slashes_skip(cs@, start as int);
        assert(trim_start_slashes(cs@.skip(start as int)) == cs@.skip(start as int));
    }
    let ghost rest = cs@.skip(start as int);
    let mut out = String::new();
    let mut i: usize = start;
    assert(rest.take(0) =~= Seq::<char>::empty());
    while i < cs.len()
        invariant
            start <= i <= cs.len(),
            rest == cs@.skip(start as int),
            out@ == double_underscores(rest.take(i - start)),
        decreases cs.len() - i,
    {
        proof {
            assert(rest.take(i - start + 1).drop_last() =~= rest.take(i - start));
            assert(rest.take(i - start + 1).last() == cs@[i as int]);
        }
        if cs[i] == '/' {
            push_str(&mut out, "__");
            proof {
                reveal_strlit("__");
            }
        } else {
            crate::text::push_char(&mut out, cs[i]);
        }
        i = i + 1;
        assert(out@ =~= double_underscores(rest.take(i - start)));
    }
    assert(rest.take(i - start) =~= rest);
    out
}

} // verus!
