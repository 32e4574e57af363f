use cliff_core::config::CommitPreprocessor;
use cliff_core::pattern::Pattern;
use cliff_core::preprocess::preprocess_from;

fn replace(p: &str, t: &str) -> CommitPreprocessor {
    CommitPreprocessor { pattern: Pattern::new(p).unwrap(), replace: Some(String::from(t)), replace_command: None }
}

fn command(p: &str, c: &str) -> CommitPreprocessor {
    CommitPreprocessor { pattern: Pattern::new(p).unwrap(), replace: None, replace_command: Some(String::from(c)) }
}

#[test]
fn no_matching_rule_keeps_message() {
    let rules = [replace("zzz", "y"), command("qqq", "tr a-z A-Z")];
    let msg = "feat: keep me\n\nexactly";
    assert_eq!(preprocess_from(String::from(msg), &rules, 0), (String::from(msg), None));
}

#[test]
fn rules_apply_in_order_to_the_evolving_message() {
    let rules = [replace("a", "b"), replace("b", "c"), command("c", "cmd"), replace("c", "d")];
    assert_eq!(preprocess_from(String::from("a"), &rules, 0), (String::from("c"), Some(2)));
    assert_eq!(preprocess_from(String::from("c"), &rules, 3), (String::from("d"), None));
    assert_eq!(preprocess_from(String::from("x(#1)"), &[replace("\\(#(\\d+)\\)", "[$1]")], 0), (String::from("x[1]"), None));
}
