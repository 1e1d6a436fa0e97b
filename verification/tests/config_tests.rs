use agentboard::cli::{cli_profile, set_cli_overrides};
use agentboard::config::{
    builtin_config, builtin_effective, effective, find_agent_options, find_profile_options,
    AgentEntry, AgentOptions, ConfigError, FileConfig, Overrides, TEMPLATE,
};

fn no_overrides() -> Overrides {
    Overrides { cli_agent: None, cli_model: None, env_agent: None, env_profile: None }
}

fn profile_args(config: &FileConfig, profile: &str, agent: &str) -> Vec<String> {
    find_profile_options(config, &profile.to_string(), &agent.to_string())
        .unwrap()
        .args
        .clone()
        .unwrap()
}

#[test]
fn interactive_defaults_keep_approval_and_sandboxing() {
    let config = builtin_config();
    let profile = profile_args(&config, "interactive", "codex");
    assert!(profile.contains(&"on-request".into()));
    assert!(profile.contains(&"workspace-write".into()));
    assert!(!profile.contains(&"danger-full-access".into()));
}

#[test]
fn unattended_profile_is_explicit() {
    let config = builtin_config();
    let profile = profile_args(&config, "unattended", "kiro-cli");
    assert!(profile.contains(&"--trust-all-tools".into()));

    let copilot_profile = profile_args(&config, "unattended", "copilot");
    assert!(copilot_profile.contains(&"--allow-all".into()));
    assert!(copilot_profile.contains(&"--no-ask-user".into()));
}

#[test]
fn custom_arguments_are_preserved() {
    let config = FileConfig {
        agent: Some("codex".into()),
        profile: Some("interactive".into()),
        agents: vec![AgentEntry {
            agent: "codex".into(),
            options: AgentOptions {
                program: None,
                args: Some(vec!["--custom".into(), "value".into()]),
                resume_args: None,
                model: None,
            },
        }],
        profiles: Vec::new(),
    };
    let effective = effective(&config, None, &no_overrides()).ok().unwrap();
    assert_eq!(effective.args, vec!["--custom", "value"]);
}

#[test]
fn shipped_template_parses() {
    let table: toml::Table = toml::from_str(TEMPLATE).unwrap();
    assert_eq!(table["agent"].as_str(), Some("kiro-cli"));
    assert_eq!(table["profile"].as_str(), Some("interactive"));
    let profiles = table["profiles"].as_table().unwrap();
    assert!(profiles.contains_key("interactive"));
    assert!(profiles.contains_key("unattended"));
}

#[test]
fn builtin_defaults_match_the_template() {
    let table: toml::Table = toml::from_str(TEMPLATE).unwrap();
    let config = builtin_config();
    for profile in ["interactive", "unattended"] {
        for agent in ["kiro-cli", "codex", "copilot"] {
            let entry = &table["profiles"][profile][agent];
            let args: Vec<String> = entry["args"]
                .as_array()
                .unwrap()
                .iter()
                .map(|v| v.as_str().unwrap().to_string())
                .collect();
            let resume: Vec<String> = entry["resume_args"]
                .as_array()
                .unwrap()
                .iter()
                .map(|v| v.as_str().unwrap().to_string())
                .collect();
            let opts = find_profile_options(&config, &profile.to_string(), &agent.to_string()).unwrap();
            assert_eq!(opts.args.clone().unwrap(), args);
            assert_eq!(opts.resume_args.clone().unwrap(), resume);
        }
        let program = find_agent_options(&config, &"codex".to_string()).unwrap();
        assert_eq!(program.program.as_deref(), Some("codex"));
    }
}

#[test]
fn model_override_is_appended_once() {
    let config = builtin_config();
    let mut overrides = no_overrides();
    set_cli_overrides(&mut overrides, Some("codex".into()), Some("gpt-5".into()));
    let cfg = effective(&config, None, &overrides).ok().unwrap();
    assert_eq!(cfg.agent, "codex");
    assert_eq!(cfg.profile, "interactive");
    assert_eq!(cfg.program, "codex");
    assert_eq!(&cfg.args[cfg.args.len() - 2..], &["--model", "gpt-5"]);
    assert_eq!(&cfg.resume_args[..], &["resume", "--last", "--model", "gpt-5"]);
}

#[test]
fn requested_agent_and_environment_profile_win() {
    let config = builtin_config();
    let mut overrides = no_overrides();
    overrides.env_profile = cli_profile(true, &Some("interactive".into()));
    overrides.env_agent = Some("codex".into());
    let cfg = effective(&config, Some("copilot"), &overrides).ok().unwrap();
    assert_eq!(cfg.agent, "copilot");
    assert_eq!(cfg.profile, "unattended");
    assert!(cfg.args.contains(&"--allow-all".to_string()));
}

#[test]
fn unknown_agent_reports_missing_arguments() {
    let err = builtin_effective("nobody", "interactive").err().unwrap();
    assert!(matches!(err, ConfigError::MissingArguments { .. }));
    assert_eq!(err.message(), "no arguments configured for agent/profile nobody/interactive");
}

#[test]
fn missing_resume_arguments_and_program_are_reported() {
    let config = FileConfig {
        agent: Some("mine".into()),
        profile: None,
        agents: vec![AgentEntry {
            agent: "mine".into(),
            options: AgentOptions {
                program: None,
                args: Some(vec!["go".into()]),
                resume_args: None,
                model: None,
            },
        }],
        profiles: Vec::new(),
    };
    let err = effective(&config, None, &no_overrides()).err().unwrap();
    assert_eq!(err.message(), "no resume arguments configured for agent/profile mine/interactive");

    let config = FileConfig {
        agent: Some("mine".into()),
        profile: None,
        agents: vec![AgentEntry {
            agent: "mine".into(),
            options: AgentOptions {
                program: None,
                args: Some(vec!["go".into()]),
                resume_args: Some(vec!["again".into()]),
                model: None,
            },
        }],
        profiles: Vec::new(),
    };
    let err = effective(&config, None, &no_overrides()).err().unwrap();
    assert!(matches!(err, ConfigError::MissingProgram { .. }));
    assert_eq!(err.message(), "no program configured for agent/profile mine/interactive");
}

#[test]
fn configurations_name_each_key_once() {
    assert!(builtin_config().has_unique_keys());
    let twice = FileConfig {
        agent: None,
        profile: None,
        agents: vec![
            AgentEntry { agent: "x".into(), options: AgentOptions { program: None, args: None, resume_args: None, model: None } },
            AgentEntry { agent: "x".into(), options: AgentOptions { program: None, args: None, resume_args: None, model: None } },
        ],
        profiles: Vec::new(),
    };
    assert!(!twice.has_unique_keys());
}
