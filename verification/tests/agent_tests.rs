use vorto::agent::{agent_prompt, shell_quote, AgentContext, AgentSpec, Tmux, Zellij};

fn spec(command: &str, args: &[&str]) -> AgentSpec {
    AgentSpec {
        name: command.to_string(),
        command: command.to_string(),
        args: args.iter().map(|s| s.to_string()).collect(),
        prompt_args: vec![],
    }
}

#[test]
fn tmux_argv_prints_pane_id_and_passes_command_as_single_string() {
    let argv = Tmux.open_argv(&spec("codex", &[]), "/work/repo");
    assert_eq!(
        argv,
        vec!["tmux", "split-window", "-h", "-P", "-F", "#{pane_id}", "-c", "/work/repo", "codex",]
    );
}

#[test]
fn tmux_argv_joins_and_quotes_args() {
    let argv = Tmux.open_argv(&spec("codex", &["--model", "opus 4"]), "/tmp");
    assert_eq!(argv.last().unwrap(), "codex --model 'opus 4'");
}

#[test]
fn zellij_argv_passes_command_and_args_separately() {
    let argv = Zellij.open_argv(&spec("aider", &["--yes"]), "/work/repo");
    assert_eq!(
        argv,
        vec![
            "zellij",
            "action",
            "new-pane",
            "--direction",
            "right",
            "--cwd",
            "/work/repo",
            "--",
            "aider",
            "--yes",
        ]
    );
}

#[test]
fn shell_quote_leaves_safe_tokens_bare() {
    assert_eq!(shell_quote("codex"), "codex");
    assert_eq!(shell_quote("--model=opus"), "--model=opus");
    assert_eq!(shell_quote("./bin/agent"), "./bin/agent");
}

#[test]
fn shell_quote_wraps_unsafe_tokens() {
    assert_eq!(shell_quote("opus 4"), "'opus 4'");
    assert_eq!(shell_quote("a'b"), "'a'\\''b'");
    assert_eq!(shell_quote(""), "''");
}

#[test]
fn agent_prompt_renders_each_intent_with_the_path() {
    let explain = agent_prompt("explain", &AgentContext::File("src/foo.rs".into()));
    assert!(explain.contains("src/foo.rs"));
    assert!(explain.to_lowercase().contains("explain"));

    let chat = agent_prompt("chat", &AgentContext::File("src/foo.rs".into()));
    assert!(chat.contains("src/foo.rs"));
}

#[test]
fn agent_prompt_embeds_selection_as_a_code_block_with_origin() {
    let p = agent_prompt(
        "explain",
        &AgentContext::Selection { code: "let x = 1;".into(), origin: Some("src/foo.rs".into()) },
    );
    assert!(p.contains("let x = 1;"));
    assert!(p.contains("```"));
    assert!(p.contains("src/foo.rs"));
}

#[test]
fn agent_prompt_selection_without_origin_omits_the_from_clause() {
    let p = agent_prompt("chat", &AgentContext::Selection { code: "x".into(), origin: None });
    assert!(!p.contains(" from `"));
    assert!(p.contains("```"));
}

use vorto::agent::{resolve_agent_target, AgentTarget};
use vorto::commands::split_first_word;

#[test]
fn agent_targets_resolve_or_explain() {
    assert_eq!(resolve_agent_target(""), Ok(AgentTarget::File));
    assert_eq!(resolve_agent_target("@buffer"), Ok(AgentTarget::File));
    assert_eq!(resolve_agent_target("@sel"), Ok(AgentTarget::Selection));
    assert_eq!(
        resolve_agent_target("@nope"),
        Err("unknown agent target: @nope (try @file or @selection)".to_string())
    );
}

#[test]
fn command_lines_split_into_word_and_rest() {
    assert_eq!(split_first_word("  explain   @file "), ("explain".to_string(), "@file".to_string()));
    assert_eq!(split_first_word("chat"), ("chat".to_string(), String::new()));
    assert_eq!(split_first_word(""), (String::new(), String::new()));
}
