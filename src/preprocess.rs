use vstd::prelude::*;
use crate::config::CommitPreprocessor;
use crate::pattern::{regex_matches, regex_replace_all};

verus! {

/// `text` with every match of `pattern` replaced; unchanged without a match.
pub open spec fn replaced_all(pattern: Seq<char>, text: Seq<char>, replacement: Seq<char>) -> Seq<
    char,
> {
    if regex_matches(pattern, text) {
        regex_replace_all(pattern, text, replacement)
    } else {
        text
    }
}

/// The message after the rules from index `i` on, up to the first command
/// rule whose pattern matches; that rule's index comes with it.
pub open spec fn preprocess_spec(message: Seq<char>, rules: Seq<CommitPreprocessor>, i: int) -> (
    Seq<char>,
    Option<int>,
)
    decreases rules.len() - i,
{
    if i < 0 || i >= rules.len() {
        (message, None)
    } else {
        match rules[i].replace {
            Some(t) => preprocess_spec(
                replaced_all(rules[i].pattern@, message, t@),
                rules,
                i + 1,
            ),
            None => if rules[i].replace_command is Some && regex_matches(
                rules[i].pattern@,
                message,
            ) {
                (message, Some(i))
            } else {
                preprocess_spec(message, rules, i + 1)
            },
        }
    }
}

/// Applies the rules from index `start` on to the message, in order, each to
/// the result of the one before. Stops before the first rule that asks for a
/// command and whose pattern matches, and returns its index with the message
/// so far: the caller runs the command and resumes after that rule.
pub fn preprocess_from(message: String, rules: &[CommitPreprocessor], start: usize) -> (r: (
    String,
    Option<usize>,
))
    ensures
        (r.0@, match r.1 {
            Some(k) => Some(k as int),
            None => None,
        }) == preprocess_spec(message@, rules@, start as int),
{
    let mut m = message;
    let mut i = start;
    if i > rules.len() {
        i = rules.len();
    }
    while i < rules.len()
        invariant
            i <= rules@.len(),
            preprocess_spec(m@, rules@, i as int) == preprocess_spec(message@, rules@, start as int),
        decreases rules@.len() - i,
    {
        let rule = &rules[i];
        match &rule.replace {
            Some(t) => {
                m = rule.pattern.replace_all(m.as_str(), t.as_str());
            },
            None => {
                if rule.replace_command.is_some() && rule.pattern.is_match(m.as_str()) {
                    return (m, Some(i));
                }
            },
        }
        i = i + 1;
    }
    (m, None)
}

/// Rules whose patterns match nowhere in the message leave it as it is, and
/// ask for no command.
pub proof fn lemma_preprocess_without_match(message: Seq<char>, rules: Seq<CommitPreprocessor>, i: int)
    requires
        0 <= i,
        forall|k: int| 0 <= k < rules.len() ==> !regex_matches(#[trigger] rules[k].pattern@, message),
    ensures
        preprocess_spec(message, rules, i) == (message, None::<int>),
    decreases rules.len() - i,
{
    if i < rules.len() {
        assert(!regex_matches(rules[i].pattern@, message));
        lemma_preprocess_without_match(message, rules, i + 1);
    }
}

} // verus!
