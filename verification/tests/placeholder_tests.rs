use command_argus_logic::placeholder::{collect_names, substitute, substitute_all};
use command_argus_logic::{Command, Timestamp};
use std::collections::HashMap;

fn command(program: &str, args: &[&str]) -> Command {
    Command::new_at(1, Timestamp { secs: 5, nanos: 0 }, "Test".to_string(), program.to_string())
        .with_args(args.iter().map(|arg| arg.to_string()).collect())
}

fn values(pairs: &[(&str, &str)]) -> HashMap<String, String> {
    pairs.iter().map(|(name, value)| (name.to_string(), value.to_string())).collect()
}

fn owned(pairs: &[(&str, &str)]) -> Vec<(String, String)> {
    pairs.iter().map(|(name, value)| (name.to_string(), value.to_string())).collect()
}

#[test]
fn placeholder_in_the_program_is_detected_and_replaced() {
    let cmd = command("echo {greeting}", &[]);
    assert_eq!(cmd.detect_placeholders(), vec!["greeting"]);

    let (program, args) = cmd.replace_placeholders(&values(&[("greeting", "hi")]));
    assert_eq!(program, "echo hi");
    assert!(args.is_empty());
    assert_eq!(cmd.command, "echo {greeting}");
}

#[test]
fn both_forms_of_placeholder_are_detected() {
    let cmd = command("deploy", &["--env={env}", "${target}", "plain"]);
    assert_eq!(cmd.detect_placeholders(), vec!["env", "target"]);
}

#[test]
fn each_name_is_reported_once_in_first_seen_order() {
    let cmd = command("cp", &["{src}", "{dst}", "${src}", "{dst}", "{other}"]);
    assert_eq!(cmd.detect_placeholders(), vec!["src", "dst", "other"]);
}

#[test]
fn a_name_is_any_run_of_characters_but_the_closing_brace() {
    let cmd = command("echo", &["{first name}", "{{odd}", "{a$b}", "{x\ny}"]);
    assert_eq!(cmd.detect_placeholders(), vec!["first name", "{odd", "a$b", "x\ny"]);
}

#[test]
fn empty_or_open_braces_are_no_placeholders() {
    assert!(command("echo", &["{}", "${}"]).detect_placeholders().is_empty());
    assert!(command("echo", &["{open"]).detect_placeholders().is_empty());
    assert!(command("echo", &["close}", "{"]).detect_placeholders().is_empty());
    assert!(command("ls", &["-la"]).detect_placeholders().is_empty());
}

#[test]
fn a_placeholder_may_span_program_and_arguments() {
    // The program and the arguments are searched as one line.
    let cmd = command("echo {a", &["b}"]);
    assert_eq!(cmd.detect_placeholders(), vec!["a b"]);
}

#[test]
fn collect_names_skips_what_is_missing_and_what_was_seen() {
    let found = vec![
        Some("b".to_string()),
        None,
        Some("a".to_string()),
        Some("b".to_string()),
        None,
        Some("c".to_string()),
        Some("a".to_string()),
    ];
    assert_eq!(collect_names(&found), vec!["b", "a", "c"]);
    assert!(collect_names(&vec![]).is_empty());
    assert!(collect_names(&vec![None, None]).is_empty());
}

#[test]
fn values_replace_both_forms_in_program_and_arguments() {
    let cmd = command("run-{tool}", &["--in={input}", "${input}.bak", "{unknown}", "{tool}{tool}"]);
    let (program, args) =
        cmd.replace_placeholders(&values(&[("tool", "cc"), ("input", "main.c")]));
    assert_eq!(program, "run-cc");
    assert_eq!(args, vec!["--in=main.c", "main.c.bak", "{unknown}", "cccc"]);
}

#[test]
fn replacing_leaves_the_command_as_it_was() {
    let cmd = command("echo {greeting}", &["{greeting}", "${greeting}"]);
    let before = cmd.clone();
    let (program, args) = cmd.replace_placeholders(&values(&[("greeting", "hi")]));
    assert_eq!(program, "echo hi");
    assert_eq!(args, vec!["hi", "hi"]);
    assert_eq!(cmd, before);
}

#[test]
fn no_values_change_nothing() {
    let cmd = command("echo {greeting}", &["{x}"]);
    let (program, args) = cmd.replace_placeholders(&HashMap::new());
    assert_eq!(program, "echo {greeting}");
    assert_eq!(args, vec!["{x}"]);
}

#[test]
fn pairs_are_put_in_one_after_the_other() {
    let cmd = command("{a}", &["{b}", "{a}{b}"]);
    let (program, args) = cmd.replace_placeholders_in_order(&owned(&[("a", "{b}"), ("b", "z")]));
    assert_eq!(program, "z");
    assert_eq!(args, vec!["z", "zz"]);

    let (program, args) = cmd.replace_placeholders_in_order(&owned(&[("b", "z"), ("a", "{b}")]));
    assert_eq!(program, "{b}");
    assert_eq!(args, vec!["z", "{b}z"]);
}

#[test]
fn substitute_replaces_every_occurrence() {
    assert_eq!(substitute("{x} and {x} and ${x}", "x", "1"), "1 and 1 and 1");
    assert_eq!(substitute("{x}", "x", ""), "");
    assert_eq!(substitute("{xx}", "x", "1"), "{xx}");
    assert_eq!(substitute("$ {x}", "x", "1"), "$ 1");
    assert_eq!(substitute("{}", "", "empty"), "empty");
    assert_eq!(substitute("nothing here", "x", "1"), "nothing here");
}

#[test]
fn substitute_reads_from_the_left_without_overlap() {
    // The name `}{` makes the mark `{}{}`, which overlaps itself.
    assert_eq!(substitute("{}{}{}", "}{", "-"), "-{}");
    assert_eq!(substitute("{}{}{}{}", "}{", "-"), "--");
}

#[test]
fn substitute_all_follows_the_order_of_the_pairs() {
    assert_eq!(substitute_all("{a}{b}", &owned(&[("a", "1"), ("b", "2")])), "12");
    assert_eq!(substitute_all("{a}", &owned(&[("a", "{a}x"), ("a", "y")])), "yx");
    assert_eq!(substitute_all("{a}", &owned(&[])), "{a}");
}
