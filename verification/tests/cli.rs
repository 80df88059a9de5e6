//! The shell's verified logic: tokenizing, pattern matching, argument
//! extraction, completion, the prompt.

use blair_switch::cli::commands::{split_tokens, Command};
use blair_switch::cli::helper::completion_candidates;
use blair_switch::cli::shell::{generate_prompt, CliMode};

fn words(list: &[&str]) -> Vec<String> {
    list.iter().map(|s| s.to_string()).collect()
}

fn cmd(pattern: &[&str]) -> Command {
    Command::new(words(pattern), "help text".to_string())
}

#[test]
fn split_separates_on_single_spaces() {
    let toks = split_tokens(&"show fib".to_string());
    assert_eq!(toks, words(&["show", "fib"]));
}

#[test]
fn split_keeps_empty_tokens() {
    let toks = split_tokens(&"a  b".to_string());
    assert_eq!(toks, words(&["a", "", "b"]));
    let toks = split_tokens(&"".to_string());
    assert_eq!(toks, words(&[""]));
    let toks = split_tokens(&" x ".to_string());
    assert_eq!(toks, words(&["", "x", ""]));
}

#[test]
fn matches_exact_words() {
    let c = cmd(&["show", "interfaces"]);
    assert!(c.matches_pattern(&"show interfaces".to_string()));
    assert!(!c.matches_pattern(&"show fib".to_string()));
    assert!(!c.matches_pattern(&"show".to_string()));
    assert!(!c.matches_pattern(&"show interfaces now".to_string()));
}

#[test]
fn placeholders_match_any_token() {
    let c = cmd(&["interface", "<intf>"]);
    assert!(c.matches_pattern(&"interface eth0".to_string()));
    assert!(c.matches_pattern(&"interface anything".to_string()));
    assert!(!c.matches_pattern(&"interfaces eth0".to_string()));
}

#[test]
fn extract_args_binds_placeholders() {
    let c = cmd(&["switchport", "access", "vlan", "<vlan>"]);
    let line = "switchport access vlan 42".to_string();
    assert!(c.matches_pattern(&line));
    let args = c.extract_args(&line);
    assert_eq!(args.len(), 1);
    assert_eq!(args[0].0, "vlan".to_string());
    assert_eq!(args[0].1, "42".to_string());
}

#[test]
fn extract_args_empty_without_placeholders() {
    let c = cmd(&["counters", "reset"]);
    let line = "counters reset".to_string();
    assert!(c.matches_pattern(&line));
    assert_eq!(c.extract_args(&line).len(), 0);
}

#[test]
fn completion_offers_matching_words() {
    let cmds = vec![
        cmd(&["show", "interfaces"]),
        cmd(&["show", "fib"]),
        cmd(&["shutdown"]),
        cmd(&["no", "shutdown"]),
    ];
    let cands = completion_candidates(&cmds, &"sh".to_string());
    assert_eq!(cands.len(), 2);
    assert!(cands.contains(&"show".to_string()));
    assert!(cands.contains(&"shutdown".to_string()));

    let cands = completion_candidates(&cmds, &"show ".to_string());
    assert_eq!(cands.len(), 2);
    assert!(cands.contains(&"interfaces".to_string()));
    assert!(cands.contains(&"fib".to_string()));

    let cands = completion_candidates(&cmds, &"show f".to_string());
    assert_eq!(cands, vec!["fib".to_string()]);

    let cands = completion_candidates(&cmds, &"xyz".to_string());
    assert_eq!(cands.len(), 0);
}

#[test]
fn completion_dedups_shared_words() {
    let cmds = vec![cmd(&["config", "save", "<f>"]), cmd(&["config", "load", "<f>"])];
    let cands = completion_candidates(&cmds, &"co".to_string());
    assert_eq!(cands, vec!["config".to_string()]);
}

#[test]
fn prompt_follows_mode() {
    assert_eq!(generate_prompt(&CliMode::General), "blair-switch#".to_string());
    assert_eq!(
        generate_prompt(&CliMode::Interface("eth0".to_string())),
        "blair-switch(eth0)#".to_string()
    );
}
