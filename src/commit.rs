use vstd::prelude::*;
use crate::config::{CommitParser, GitConfig, LinkParser};
use crate::error::Error;
use crate::pattern::{opt_seq, regex_find_all, regex_matches, regex_named_captures, regex_replace_first, regex_valid, Pattern};
use crate::text::{contains_char, is_lower_hex};

verus! {

/// A reference found in a commit message.
#[derive(Debug, Clone, PartialEq, Eq)]
pub struct Link {
    /// Text of the link.
    pub text: String,
    /// URL of the link.
    pub href: String,
}

/// Commit signature that indicates authorship.
#[derive(Debug, Clone, PartialEq, Eq)]
pub struct Signature {
    /// Name on the signature.
    pub name: Option<String>,
    /// Email on the signature.
    pub email: Option<String>,
    /// Time of the signature, in seconds since the epoch.
    pub timestamp: i64,
}

impl Signature {
    /// A signature with neither name nor email, at time zero.
    pub fn empty() -> (r: Signature)
        ensures
            r.name is None,
            r.email is None,
            r.timestamp == 0,
    {
        Signature { name: None, email: None, timestamp: 0 }
    }
}

/// A footer of a conventional commit.
#[derive(Debug, Clone, PartialEq, Eq)]
pub struct Footer {
    /// The part preceding the separator, e.g. `Signed-off-by`.
    pub token: String,
    /// The separator, typically `: ` or ` #`.
    pub separator: String,
    /// The value of the footer.
    pub value: String,
    /// Whether the footer describes a breaking change.
    pub breaking: bool,
}

/// The parts of a message that follows the conventional commit grammar.
#[derive(Debug, Clone, PartialEq, Eq)]
pub struct Conventional {
    /// The type, e.g. `feat`.
    pub kind: String,
    /// The scope, if any.
    pub scope: Option<String>,
    /// The description on the first line.
    pub description: String,
    /// The body, if any.
    pub body: Option<String>,
    /// Whether the commit is marked as breaking.
    pub breaking: bool,
    /// The description of the breaking change, if any.
    pub breaking_description: Option<String>,
    /// The footers, in order.
    pub footers: Vec<Footer>,
}

/// A commit of the repository and what the pipeline learned of it.
#[derive(Debug, Clone, PartialEq, Eq)]
pub struct Commit {
    /// Commit id.
    pub id: String,
    /// Commit message including title, description and summary.
    pub message: String,
    /// The conventional form of the message, once parsed.
    pub conv: Option<Conventional>,
    /// Commit group assigned by a commit parser.
    pub group: Option<String>,
    /// Default scope assigned by a commit parser.
    pub default_scope: Option<String>,
    /// Scope that overrides the default one.
    pub scope: Option<String>,
    /// Links found in the commit.
    pub links: Vec<Link>,
    /// Commit author.
    pub author: Signature,
    /// Commit co-authors.
    pub coauthors: Vec<Signature>,
    /// Committer.
    pub committer: Signature,
    /// Hosting username of the author.
    pub github_author: Option<String>,
    /// Hosting usernames of the co-authors.
    pub github_coauthors: Option<Vec<String>>,
    /// Associated pull request numbers.
    pub pull_requests: Option<Vec<u32>>,
}

/// A commit that holds only an id and a message.
pub open spec fn is_bare(c: Commit, id: Seq<char>, message: Seq<char>) -> bool {
    &&& c.id@ == id
    &&& c.message@ == message
    &&& c.conv is None
    &&& c.group is None
    &&& c.default_scope is None
    &&& c.scope is None
    &&& c.links@.len() == 0
    &&& c.author.name is None && c.author.email is None && c.author.timestamp == 0
    &&& c.coauthors@.len() == 0
    &&& c.committer.name is None && c.committer.email is None && c.committer.timestamp == 0
    &&& c.github_author is None
    &&& c.github_coauthors is None
    &&& c.pull_requests is None
}

/// Whether `s` is a 40-digit lower-case hexadecimal id, a space, and a rest
/// that holds no line break.
pub open spec fn has_id_prefix(s: Seq<char>) -> bool {
    &&& s.len() >= 41
    &&& forall|i: int| 0 <= i < 40 ==> is_lower_hex(#[trigger] s[i])
    &&& s[40] == ' '
    &&& !s.subrange(41, s.len() as int).contains('\n')
}

impl Commit {
    /// Constructs a commit that holds only an id and a message.
    pub fn new(id: String, message: String) -> (r: Commit)
        ensures
            is_bare(r, id@, message@),
    {
        Commit {
            id,
            message,
            conv: None,
            group: None,
            default_scope: None,
            scope: None,
            links: Vec::new(),
            author: Signature::empty(),
            coauthors: Vec::new(),
            committer: Signature::empty(),
            github_author: None,
            github_coauthors: None,
            pull_requests: None,
        }
    }

    /// Reads a commit from `<40-hex-digit id> <message>`; any other text is a
    /// message without an id.
    pub fn from(message: String) -> (r: Commit)
        ensures
            has_id_prefix(message@) ==> is_bare(
                r,
                message@.subrange(0, 40),
                message@.subrange(41, message@.len() as int),
            ),
            !has_id_prefix(message@) ==> is_bare(r, Seq::empty(), message@),
    {
        let n = message.as_str().unicode_len();
        if n >= 41 {
            let mut i: usize = 0;
            let mut hex = true;
            while i < 40
                invariant
                    0 <= i <= 40,
                    n == message@.len(),
                    n >= 41,
                    hex == forall|j: int| 0 <= j < i ==> is_lower_hex(#[trigger] message@[j]),
                decreases 40 - i,
            {
                let c = message.as_str().get_char(i);
                if !(('0' <= c && c <= '9') || ('a' <= c && c <= 'f')) {
                    hex = false;
                }
                i = i + 1;
            }
            if hex && message.as_str().get_char(40) == ' ' {
                let rest = message.as_str().substring_char(41, n);
                if !contains_char(rest, '\n') {
                    let id = message.as_str().substring_char(0, 40);
                    return Commit::new(String::from_str(id), String::from_str(rest));
                }
            }
        }
        Commit::new(String::new(), message)
    }
}

} // verus!

verus! {

/// A footer as plain values: token, separator, value, breaking flag.
pub type FooterView = (Seq<char>, Seq<char>, Seq<char>, bool);

/// The parts of a conventional commit as plain values.
pub struct ConventionalView {
    pub kind: Seq<char>,
    pub scope: Option<Seq<char>>,
    pub description: Seq<char>,
    pub body: Option<Seq<char>>,
    pub breaking: bool,
    pub breaking_description: Option<Seq<char>>,
    pub footers: Seq<FooterView>,
}

pub open spec fn footer_view(f: Footer) -> FooterView {
    (f.token@, f.separator@, f.value@, f.breaking)
}

impl View for Conventional {
    type V = ConventionalView;

    open spec fn view(&self) -> ConventionalView {
        ConventionalView {
            kind: self.kind@,
            scope: opt_seq(self.scope),
            description: self.description@,
            body: opt_seq(self.body),
            breaking: self.breaking,
            breaking_description: opt_seq(self.breaking_description),
            footers: self.footers@.map_values(|f: Footer| footer_view(f)),
        }
    }
}

/// The conventional reading of a message, or the parser's explanation of why
/// it has none.
pub uninterp spec fn conventional_parse(message: Seq<char>) -> Result<ConventionalView, Seq<char>>;

pub open spec fn conv_result_view(r: Result<Conventional, String>) -> Result<ConventionalView, Seq<char>> {
    match r {
        Ok(c) => Ok(c@),
        Err(e) => Err(e@),
    }
}

/// Relies on git_conventional::Commit::parse, copying each part of the parse
/// into owned values; the error is the parser's message.
#[verifier::external_body]
fn parse_conventional(message: &str) -> (r: Result<Conventional, String>)
    ensures
        conv_result_view(r) == conventional_parse(message@),
{
    git_conventional::Commit::parse(message).map(|c| Conventional {
        kind: c.type_().to_string(),
        scope: c.scope().map(|s| s.to_string()),
        description: c.description().to_string(),
        body: c.body().map(|b| b.to_string()),
        breaking: c.breaking(),
        breaking_description: c.breaking_description().map(|b| b.to_string()),
        footers: c.footers().iter().map(|f| Footer { token: f.token().to_string(),
            separator: f.separator().to_string(), value: f.value().to_string(),
            breaking: f.breaking() }).collect(),
    }).map_err(|e| e.to_string())
}

/// The conventional body of a commit, if it was parsed and has one.
pub open spec fn body_of(c: Commit) -> Option<Seq<char>> {
    match c.conv {
        Some(v) => opt_seq(v.body),
        None => None,
    }
}

/// Whether the commit parsed as conventional and is marked breaking.
pub open spec fn is_breaking(c: Commit) -> bool {
    c.conv matches Some(v) && v.breaking
}

/// Whether a rule's message pattern or body pattern matches the commit.
pub open spec fn rule_matches(rule: CommitParser, c: Commit) -> bool {
    ||| (rule.message matches Some(p) && regex_matches(p@, c.message@))
    ||| (rule.body matches Some(p) && body_of(c) matches Some(b) && regex_matches(p@, b))
}

/// The index of the first rule at or after `i` that matches the commit.
pub open spec fn first_match_from(rules: Seq<CommitParser>, c: Commit, i: int) -> Option<int>
    decreases rules.len() - i,
{
    if i < 0 || i >= rules.len() {
        None
    } else if rule_matches(rules[i], c) {
        Some(i)
    } else {
        first_match_from(rules, c, i + 1)
    }
}

/// The index of the first rule that matches the commit.
pub open spec fn first_match(rules: Seq<CommitParser>, c: Commit) -> Option<int> {
    first_match_from(rules, c, 0)
}

/// Whether a matching rule drops the commit: it skips, and the commit is not
/// a breaking one under protection.
pub open spec fn skips(rule: CommitParser, c: Commit, protect_breaking: bool) -> bool {
    rule.skip == Some(true) && !(is_breaking(c) && protect_breaking)
}

/// The commit with the classification of `rule`.
pub open spec fn classified(c: Commit, rule: CommitParser) -> Commit {
    Commit { group: rule.group, scope: rule.scope, default_scope: rule.default_scope, ..c }
}

pub open spec fn skip_reason() -> Seq<char> {
    "Skipping commit"@
}

pub open spec fn no_group_reason() -> Seq<char> {
    "Commit does not belong to any group"@
}

/// The outcome of classifying `c` with `rules`.
pub open spec fn classify(
    c: Commit,
    rules: Seq<CommitParser>,
    protect_breaking: bool,
    filter: bool,
    r: Result<Commit, Error>,
) -> bool {
    match first_match(rules, c) {
        Some(i) => if skips(rules[i], c, protect_breaking) {
            r matches Err(Error::GroupError(s)) && s@ == skip_reason()
        } else {
            r == Ok::<Commit, Error>(classified(c, rules[i]))
        },
        None => if filter {
            r matches Err(Error::GroupError(s)) && s@ == no_group_reason()
        } else {
            r == Ok::<Commit, Error>(c)
        },
    }
}

fn clone_opt(o: &Option<String>) -> (r: Option<String>)
    ensures
        r == *o,
{
    match o {
        Some(s) => Some(s.clone()),
        None => None,
    }
}

impl Commit {
    /// Parses the message as a conventional commit.
    pub fn into_conventional(self) -> (r: Result<Commit, Error>)
        ensures
            conv_stage(self, true, true, r),
    {
        match parse_conventional(self.message.as_str()) {
            Ok(conv) => Ok(Commit { conv: Some(conv), ..self }),
            Err(e) => Err(Error::ParseError(e)),
        }
    }

    fn rule_matches_exec(&self, rule: &CommitParser) -> (r: bool)
        ensures
            r == rule_matches(*rule, *self),
    {
        if let Some(p) = &rule.message {
            if p.is_match(self.message.as_str()) {
                return true;
            }
        }
        if let Some(p) = &rule.body {
            if let Some(conv) = &self.conv {
                if let Some(body) = &conv.body {
                    return p.is_match(body.as_str());
                }
            }
        }
        false
    }

    /// Classifies the commit with the first rule that matches it.
    pub fn parse(self, parsers: &[CommitParser], protect_breaking: bool, filter: bool) -> (r:
        Result<Commit, Error>)
        ensures
            classify(self, parsers@, protect_breaking, filter, r),
    {
        let mut i: usize = 0;
        while i < parsers.len()
            invariant
                0 <= i <= parsers@.len(),
                first_match(parsers@, self) == first_match_from(parsers@, self, i as int),
            decreases parsers@.len() - i,
        {
            let rule = &parsers[i];
            if self.rule_matches_exec(rule) {
                let skip = match rule.skip {
                    Some(b) => b,
                    None => false,
                };
                let breaking = match &self.conv {
                    Some(v) => v.breaking,
                    None => false,
                };
                if skip && !(breaking && protect_breaking) {
                    proof { reveal_strlit("Skipping commit"); }
                    return Err(Error::GroupError(String::from_str("Skipping commit")));
                }
                let group = clone_opt(&rule.group);
                let scope = clone_opt(&rule.scope);
                let default_scope = clone_opt(&rule.default_scope);
                return Ok(Commit { group, scope, default_scope, ..self });
            }
            i = i + 1;
        }
        if filter {
            proof { reveal_strlit("Commit does not belong to any group"); }
            Err(Error::GroupError(String::from_str("Commit does not belong to any group")))
        } else {
            Ok(self)
        }
    }
}

} // verus!

verus! {

/// A link as plain values: text, then target.
pub open spec fn link_view(l: Link) -> (Seq<char>, Seq<char>) {
    (l.text@, l.href@)
}

/// The link that `rule` makes of a matched text `m`.
pub open spec fn link_of_match(rule: LinkParser, m: Seq<char>) -> (Seq<char>, Seq<char>) {
    let text = match rule.text {
        Some(t) => regex_replace_first(rule.pattern@, m, t@),
        None => m,
    };
    (text, regex_replace_first(rule.pattern@, m, rule.href@))
}

/// The links that one rule makes of a message, in match order.
pub open spec fn rule_links(rule: LinkParser, message: Seq<char>) -> Seq<(Seq<char>, Seq<char>)> {
    regex_find_all(rule.pattern@, message).map_values(|m: Seq<char>| link_of_match(rule, m))
}

/// The links that a list of rules makes of a message, rule by rule.
pub open spec fn all_links(rules: Seq<LinkParser>, message: Seq<char>) -> Seq<(Seq<char>, Seq<char>)>
    decreases rules.len(),
{
    if rules.len() == 0 {
        Seq::empty()
    } else {
        all_links(rules.drop_last(), message) + rule_links(rules.last(), message)
    }
}

impl Commit {
    /// Appends the links that the rules find in the message.
    pub fn parse_links(self, parsers: &[LinkParser]) -> (r: Result<Commit, Error>)
        ensures
            r matches Ok(c) && c == (Commit { links: c.links, ..self }) && c.links@.map_values(
                |l: Link| link_view(l),
            ) == self.links@.map_values(|l: Link| link_view(l)) + all_links(
                parsers@,
                self.message@,
            ),
    {
        let ghost msg = self.message@;
        let ghost start = self.links@.map_values(|l: Link| link_view(l));
        let mut links = self.links;
        let mut i: usize = 0;
        while i < parsers.len()
            invariant
                0 <= i <= parsers@.len(),
                msg == self.message@,
                start == self.links@.map_values(|l: Link| link_view(l)),
                links@.map_values(|l: Link| link_view(l)) == start + all_links(
                    parsers@.take(i as int),
                    msg,
                ),
            decreases parsers@.len() - i,
        {
            let rule = &parsers[i];
            let found = rule.pattern.find_all(self.message.as_str());
            let ghost before = links@.map_values(|l: Link| link_view(l));
            let mut j: usize = 0;
            while j < found.len()
                invariant
                    0 <= j <= found@.len(),
                    found@.map_values(|s: String| s@) == regex_find_all(rule.pattern@, msg),
                    links@.map_values(|l: Link| link_view(l)) == before + rule_links(
                        *rule,
                        msg,
                    ).take(j as int),
                decreases found@.len() - j,
            {
                let m = found[j].as_str();
                let text = match &rule.text {
                    Some(t) => rule.pattern.replace(m, t.as_str()),
                    None => String::from_str(m),
                };
                let href = rule.pattern.replace(m, rule.href.as_str());
                let link = Link { text, href };
                let ghost old_links = links@;
                assert(link_view(link) == link_of_match(*rule, found@[j as int]@));
                links.push(link);
                proof {
                    assert(links@.map_values(|l: Link| link_view(l)) =~= old_links.map_values(
                        |l: Link| link_view(l),
                    ).push(link_view(link)));
                    assert(found@.map_values(|s: String| s@)[j as int] == found@[j as int]@);
                    assert(rule_links(*rule, msg).take(j + 1) =~= rule_links(*rule, msg).take(
                        j as int,
                    ).push(link_of_match(*rule, found@[j as int]@)));
                    assert(links@.map_values(|l: Link| link_view(l)) =~= before + rule_links(
                        *rule,
                        msg,
                    ).take(j + 1));
                }
                j = j + 1;
            }
            proof {
                assert(rule_links(*rule, msg).len() == found@.len());
                assert(rule_links(*rule, msg).take(j as int) =~= rule_links(*rule, msg));
                assert(parsers@.take(i + 1).drop_last() =~= parsers@.take(i as int));
                assert(parsers@.take(i + 1).last() == parsers@[i as int]);
                assert(links@.map_values(|l: Link| link_view(l)) =~= start + all_links(
                    parsers@.take(i + 1),
                    msg,
                ));
            }
            i = i + 1;
        }
        proof {
            assert(parsers@.take(i as int) =~= parsers@);
        }
        Ok(Commit { links, ..self })
    }
}

/// Link extraction keeps the order of the rules and never merges equal
/// links: the links of `rules` followed by `rule` are those of `rules`, then
/// those of `rule`, whatever they hold.
pub proof fn lemma_links_in_rule_order(
    rules: Seq<LinkParser>,
    rule: LinkParser,
    message: Seq<char>,
)
    ensures
        all_links(rules.push(rule), message) == all_links(rules, message) + rule_links(
            rule,
            message,
        ),
{
    assert(rules.push(rule).drop_last() =~= rules);
}

/// Two rules each contribute every link they find, one after the other: the
/// result holds as many links as both rules find together, duplicates
/// included.
pub proof fn lemma_overlapping_rules_keep_duplicates(
    first: LinkParser,
    second: LinkParser,
    message: Seq<char>,
)
    ensures
        all_links(seq![first, second], message) == rule_links(first, message) + rule_links(
            second,
            message,
        ),
        all_links(seq![first, second], message).len() == regex_find_all(first.pattern@, message).len()
            + regex_find_all(second.pattern@, message).len(),
{
    let one = seq![first];
    let two = seq![first, second];
    assert(two.drop_last() =~= one);
    assert(one.drop_last() =~= Seq::<LinkParser>::empty());
    assert(all_links(Seq::<LinkParser>::empty(), message) == Seq::<(Seq<char>, Seq<char>)>::empty());
    assert(all_links(one, message) == all_links(one.drop_last(), message) + rule_links(first, message));
    assert(all_links(one, message) =~= rule_links(first, message));
    assert(all_links(two, message) == all_links(two.drop_last(), message) + rule_links(second, message));
}

} // verus!

verus! {

/// Classification is decided by the first rule that matches: when that rule
/// skips, the commit is dropped whatever the later rules would assign.
pub proof fn lemma_first_skip_rule_drops(
    c: Commit,
    rules: Seq<CommitParser>,
    protect_breaking: bool,
    filter: bool,
    r: Result<Commit, Error>,
)
    requires
        rules.len() >= 1,
        rule_matches(rules[0], c),
        rules[0].skip == Some(true),
        !(protect_breaking && is_breaking(c)),
        classify(c, rules, protect_breaking, filter, r),
    ensures
        r matches Err(Error::GroupError(s)) && s@ == skip_reason(),
        forall|i: int| 0 < i < rules.len() ==> r != Ok::<Commit, Error>(classified(c, rules[i])),
{
}

/// A breaking conventional commit that a skip rule matches is classified by
/// that rule under protection, and dropped without it.
pub proof fn lemma_breaking_protection(
    c: Commit,
    rules: Seq<CommitParser>,
    filter: bool,
    kept: Result<Commit, Error>,
    dropped: Result<Commit, Error>,
)
    requires
        rules.len() >= 1,
        rule_matches(rules[0], c),
        rules[0].skip == Some(true),
        is_breaking(c),
        classify(c, rules, true, filter, kept),
        classify(c, rules, false, filter, dropped),
    ensures
        kept == Ok::<Commit, Error>(classified(c, rules[0])),
        dropped matches Err(Error::GroupError(s)) && s@ == skip_reason(),
{
}

/// The outcome of the conventional parsing stage.
pub open spec fn conv_stage(
    c: Commit,
    conventional: bool,
    filter_unconventional: bool,
    r: Result<Commit, Error>,
) -> bool {
    if !conventional {
        r == Ok::<Commit, Error>(c)
    } else {
        match conventional_parse(c.message@) {
            Ok(v) => r matches Ok(d) && d.conv matches Some(cv) && cv@ == v && d == (Commit {
                conv: d.conv,
                ..c
            }),
            Err(e) => if filter_unconventional {
                r matches Err(Error::ParseError(s)) && s@ == e
            } else {
                r == Ok::<Commit, Error>(c)
            },
        }
    }
}

/// The outcome of the classification stage.
pub open spec fn classify_stage(
    c: Commit,
    rules: Option<Vec<CommitParser>>,
    protect_breaking: bool,
    filter: bool,
    r: Result<Commit, Error>,
) -> bool {
    match rules {
        Some(rs) => classify(c, rs@, protect_breaking, filter, r),
        None => r == Ok::<Commit, Error>(c),
    }
}

/// The outcome of the link extraction stage.
pub open spec fn links_stage(c: Commit, rules: Option<Vec<LinkParser>>, r: Result<Commit, Error>) -> bool {
    match rules {
        Some(rs) => r matches Ok(d) && d == (Commit { links: d.links, ..c }) && d.links@.map_values(
            |l: Link| link_view(l),
        ) == c.links@.map_values(|l: Link| link_view(l)) + all_links(rs@, c.message@),
        None => r == Ok::<Commit, Error>(c),
    }
}

/// The value of an optional flag, with its default.
pub open spec fn flag(o: Option<bool>, default: bool) -> bool {
    match o {
        Some(b) => b,
        None => default,
    }
}

/// The outcome of processing: the stages run in order and the first error
/// ends the run.
pub open spec fn process_outcome(c: Commit, config: GitConfig, r: Result<Commit, Error>) -> bool {
    exists|r1: Result<Commit, Error>, r2: Result<Commit, Error>|
        #[trigger] process_chain(c, config, r1, r2, r)
}

/// The stages of processing with their intermediate outcomes `r1` and `r2`.
pub open spec fn process_chain(
    c: Commit,
    config: GitConfig,
    r1: Result<Commit, Error>,
    r2: Result<Commit, Error>,
    r: Result<Commit, Error>,
) -> bool {
        {
            &&& conv_stage(
                c,
                flag(config.conventional_commits, true),
                flag(config.filter_unconventional, true),
                r1,
            )
            &&& (r1 is Err ==> r == r1)
            &&& (r1 matches Ok(c1) ==> classify_stage(
                c1,
                config.commit_parsers,
                flag(config.protect_breaking_commits, false),
                flag(config.filter_commits, false),
                r2,
            ))
            &&& (r1 is Ok && r2 is Err ==> r == r2)
            &&& (r1 is Ok ==> (r2 matches Ok(c2) ==> links_stage(c2, config.link_parsers, r)))
        }
}

fn flag_exec(o: Option<bool>, default: bool) -> (r: bool)
    ensures
        r == flag(o, default),
{
    match o {
        Some(b) => b,
        None => default,
    }
}

impl Commit {
    /// Parses the message as a conventional commit, classifies the commit and
    /// extracts its links, as the configuration asks.
    pub fn process(self, config: &GitConfig) -> (r: Result<Commit, Error>)
        ensures
            process_outcome(self, *config, r),
    {
        let ghost c = self;
        let conventional = flag_exec(config.conventional_commits, true);
        let filter_unconventional = flag_exec(config.filter_unconventional, true);
        let ghost r1: Result<Commit, Error>;
        let mut commit = self;
        if conventional {
            let message = commit.message.clone();
            let conv = parse_conventional(message.as_str());
            match conv {
                Ok(v) => {
                    commit = Commit { conv: Some(v), ..commit };
                }
                Err(e) => {
                    if filter_unconventional {
                        let err = Error::ParseError(e);
                        proof {
                            r1 = Err(err);
                            let r2: Result<Commit, Error> = Err(err);
                            assert(conv_stage(c, conventional, filter_unconventional, r1));
                            assert(process_chain(c, *config, r1, r2, r1));
                        }
                        return Err(err);
                    }
                },
            }
        }
        proof {
            r1 = Ok(commit);
            assert(conv_stage(c, conventional, filter_unconventional, r1));
        }
        let ghost c1 = commit;
        let ghost r2: Result<Commit, Error>;
        if let Some(parsers) = &config.commit_parsers {
            let res = commit.parse(
                parsers.as_slice(),
                flag_exec(config.protect_breaking_commits, false),
                flag_exec(config.filter_commits, false),
            );
            proof {
                r2 = res;
            }
            match res {
                Ok(d) => {
                    commit = d;
                },
                Err(e) => {
                    proof {
                        assert(process_chain(c, *config, r1, r2, Err::<Commit, Error>(e)));
                    }
                    return Err(e);
                },
            }
        } else {
            proof {
                r2 = Ok(commit);
            }
        }
        let ghost c2 = commit;
        let result = if let Some(parsers) = &config.link_parsers {
            commit.parse_links(parsers.as_slice())
        } else {
            Ok(commit)
        };
        proof {
            assert(links_stage(c2, config.link_parsers, result));
            assert(process_chain(c, *config, r1, r2, result));
        }
        result
    }

    /// The resolved hosting usernames: the author's, then the co-authors'.
    pub fn authors(&self) -> (r: Vec<String>)
        ensures
            r@.map_values(|s: String| s@) == resolved_authors(*self),
    {
        self.github_authors()
    }

    /// The resolved hosting usernames: the author's, then the co-authors'.
    pub fn github_authors(&self) -> (r: Vec<String>)
        ensures
            r@.map_values(|s: String| s@) == resolved_authors(*self),
    {
        let mut authors: Vec<String> = Vec::new();
        if let Some(author) = &self.github_author {
            authors.push(author.clone());
        }
        let ghost first = authors@.map_values(|s: String| s@);
        if let Some(coauthors) = &self.github_coauthors {
            let mut i: usize = 0;
            while i < coauthors.len()
                invariant
                    0 <= i <= coauthors@.len(),
                    authors@.map_values(|s: String| s@) == first + coauthors@.take(
                        i as int,
                    ).map_values(|s: String| s@),
                decreases coauthors@.len() - i,
            {
                let ghost prev = authors@;
                authors.push(coauthors[i].clone());
                proof {
                    assert(authors@.map_values(|s: String| s@) =~= prev.map_values(|s: String| s@).push(coauthors@[i as int]@));
                    assert(coauthors@.take(i + 1) =~= coauthors@.take(i as int).push(coauthors@[i as int]));
                    assert(authors@.map_values(|s: String| s@) =~= first + coauthors@.take(
                        i + 1,
                    ).map_values(|s: String| s@));
                }
                i = i + 1;
            }
            proof {
                assert(coauthors@.take(i as int) =~= coauthors@);
            }
        }
        proof {
            assert(authors@.map_values(|s: String| s@) =~= resolved_authors(*self));
        }
        authors
    }

    /// The associated pull request numbers, none when unknown.
    pub fn pull_requests(&self) -> (r: Vec<u32>)
        ensures
            r@ == match self.pull_requests {
                Some(v) => v@,
                None => Seq::empty(),
            },
    {
        match &self.pull_requests {
            Some(v) => v.clone(),
            None => Vec::new(),
        }
    }
}

/// The resolved hosting usernames of a commit: the author's, then the
/// co-authors'.
pub open spec fn resolved_authors(c: Commit) -> Seq<Seq<char>> {
    let head: Seq<Seq<char>> = match c.github_author {
        Some(a) => seq![a@],
        None => Seq::empty(),
    };
    let tail: Seq<Seq<char>> = match c.github_coauthors {
        Some(v) => v@.map_values(|s: String| s@),
        None => Seq::empty(),
    };
    head + tail
}

} // verus!

verus! {

/// Conventional parsing depends on the message alone: two commits with the
/// same message both parse, with the same parts, or both fail with the same
/// explanation.
pub proof fn lemma_conventional_deterministic(
    a: Commit,
    b: Commit,
    ra: Result<Commit, Error>,
    rb: Result<Commit, Error>,
)
    requires
        a.message@ == b.message@,
        conv_stage(a, true, true, ra),
        conv_stage(b, true, true, rb),
    ensures
        ra is Ok <==> rb is Ok,
        ra matches Ok(x) ==> rb matches Ok(y) && x.conv matches Some(cx) && y.conv matches Some(cy)
            && cx@ == cy@,
        ra matches Err(Error::ParseError(x)) ==> rb matches Err(Error::ParseError(y)) && x@ == y@,
{
}

} // verus!

verus! {

/// Two parses that hold the same parts.
pub open spec fn conv_same(a: Conventional, b: Conventional) -> bool {
    &&& a.kind == b.kind
    &&& a.scope == b.scope
    &&& a.description == b.description
    &&& a.body == b.body
    &&& a.breaking == b.breaking
    &&& a.breaking_description == b.breaking_description
    &&& a.footers@ == b.footers@
}

/// The view of an optional list.
pub open spec fn opt_vec<T>(o: Option<Vec<T>>) -> Option<Seq<T>> {
    match o {
        Some(v) => Some(v@),
        None => None,
    }
}

/// Two commits that hold the same values.
pub open spec fn commit_same(a: Commit, b: Commit) -> bool {
    &&& a.id == b.id
    &&& a.message == b.message
    &&& match (a.conv, b.conv) {
        (Some(x), Some(y)) => conv_same(x, y),
        (None, None) => true,
        _ => false,
    }
    &&& a.group == b.group
    &&& a.default_scope == b.default_scope
    &&& a.scope == b.scope
    &&& a.links@ == b.links@
    &&& a.author == b.author
    &&& a.coauthors@ == b.coauthors@
    &&& a.committer == b.committer
    &&& a.github_author == b.github_author
    &&& opt_vec(a.github_coauthors) == opt_vec(b.github_coauthors)
    &&& opt_vec(a.pull_requests) == opt_vec(b.pull_requests)
}

fn copy_strings(v: &Vec<String>) -> (r: Vec<String>)
    ensures
        r@ == v@,
{
    let mut r: Vec<String> = Vec::new();
    let mut i: usize = 0;
    while i < v.len()
        invariant
            i <= v@.len(),
            r@ == v@.take(i as int),
        decreases v@.len() - i,
    {
        r.push(v[i].clone());
        proof {
            assert(v@.take(i + 1) =~= v@.take(i as int).push(v@[i as int]));
        }
        i = i + 1;
    }
    proof {
        assert(v@.take(i as int) =~= v@);
    }
    r
}

fn copy_numbers(v: &Vec<u32>) -> (r: Vec<u32>)
    ensures
        r@ == v@,
{
    let mut r: Vec<u32> = Vec::new();
    let mut i: usize = 0;
    while i < v.len()
        invariant
            i <= v@.len(),
            r@ == v@.take(i as int),
        decreases v@.len() - i,
    {
        r.push(v[i]);
        proof {
            assert(v@.take(i + 1) =~= v@.take(i as int).push(v@[i as int]));
        }
        i = i + 1;
    }
    proof {
        assert(v@.take(i as int) =~= v@);
    }
    r
}

impl Link {
    /// A copy of the link.
    pub fn copy(&self) -> (r: Link)
        ensures
            r == *self,
    {
        Link { text: self.text.clone(), href: self.href.clone() }
    }
}

impl Signature {
    /// A copy of the signature.
    pub fn copy(&self) -> (r: Signature)
        ensures
            r == *self,
    {
        Signature { name: clone_opt(&self.name), email: clone_opt(&self.email), timestamp: self.timestamp }
    }
}

impl Footer {
    /// A copy of the footer.
    pub fn copy(&self) -> (r: Footer)
        ensures
            r == *self,
    {
        Footer {
            token: self.token.clone(),
            separator: self.separator.clone(),
            value: self.value.clone(),
            breaking: self.breaking,
        }
    }
}

impl Conventional {
    /// A copy of the parsed parts.
    pub fn copy(&self) -> (r: Conventional)
        ensures
            conv_same(r, *self),
    {
        let mut footers: Vec<Footer> = Vec::new();
        let mut i: usize = 0;
        while i < self.footers.len()
            invariant
                i <= self.footers@.len(),
                footers@ == self.footers@.take(i as int),
            decreases self.footers@.len() - i,
        {
            footers.push(self.footers[i].copy());
            proof {
                assert(self.footers@.take(i + 1) =~= self.footers@.take(i as int).push(self.footers@[i as int]));
            }
            i = i + 1;
        }
        proof {
            assert(self.footers@.take(i as int) =~= self.footers@);
        }
        Conventional {
            kind: self.kind.clone(),
            scope: clone_opt(&self.scope),
            description: self.description.clone(),
            body: clone_opt(&self.body),
            breaking: self.breaking,
            breaking_description: clone_opt(&self.breaking_description),
            footers,
        }
    }
}

impl Commit {
    /// A copy of the commit.
    pub fn copy(&self) -> (r: Commit)
        ensures
            commit_same(r, *self),
    {
        let mut links: Vec<Link> = Vec::new();
        let mut i: usize = 0;
        while i < self.links.len()
            invariant
                i <= self.links@.len(),
                links@ == self.links@.take(i as int),
            decreases self.links@.len() - i,
        {
            links.push(self.links[i].copy());
            proof {
                assert(self.links@.take(i + 1) =~= self.links@.take(i as int).push(self.links@[i as int]));
            }
            i = i + 1;
        }
        let mut coauthors: Vec<Signature> = Vec::new();
        let mut j: usize = 0;
        while j < self.coauthors.len()
            invariant
                j <= self.coauthors@.len(),
                coauthors@ == self.coauthors@.take(j as int),
            decreases self.coauthors@.len() - j,
        {
            coauthors.push(self.coauthors[j].copy());
            proof {
                assert(self.coauthors@.take(j + 1) =~= self.coauthors@.take(j as int).push(self.coauthors@[j as int]));
            }
            j = j + 1;
        }
        proof {
            assert(self.links@.take(i as int) =~= self.links@);
            assert(self.coauthors@.take(j as int) =~= self.coauthors@);
        }
        Commit {
            id: self.id.clone(),
            message: self.message.clone(),
            conv: match &self.conv {
                Some(c) => Some(c.copy()),
                None => None,
            },
            group: clone_opt(&self.group),
            default_scope: clone_opt(&self.default_scope),
            scope: clone_opt(&self.scope),
            links,
            author: self.author.copy(),
            coauthors,
            committer: self.committer.copy(),
            github_author: clone_opt(&self.github_author),
            github_coauthors: match &self.github_coauthors {
                Some(v) => Some(copy_strings(v)),
                None => None,
            },
            pull_requests: match &self.pull_requests {
                Some(v) => Some(copy_numbers(v)),
                None => None,
            },
        }
    }
}

} // verus!

verus! {

/// A `Co-authored-by: Name <email>` line, in any case.
pub open spec fn coauthor_line() -> Seq<char> {
    "(?mi)^Co-authored-by:\\s*(?P<name>.+)(<(?P<email>.+)>)"@
}

/// The co-authors that the `Co-authored-by` lines of a message name, each
/// with time `timestamp`.
pub open spec fn coauthors_in(message: Seq<char>, timestamp: i64) -> Seq<(Seq<char>, Seq<char>, i64)> {
    named_pairs(regex_named_captures(coauthor_line(), message, "name"@, "email"@), timestamp)
}

/// The pairs in which both groups took part, with the time attached.
pub open spec fn named_pairs(caps: Seq<(Option<Seq<char>>, Option<Seq<char>>)>, timestamp: i64) -> Seq<
    (Seq<char>, Seq<char>, i64),
>
    decreases caps.len(),
{
    if caps.len() == 0 {
        Seq::empty()
    } else {
        let before = named_pairs(caps.drop_last(), timestamp);
        match caps.last() {
            (Some(n), Some(e)) => before.push((n, e, timestamp)),
            _ => before,
        }
    }
}

/// A co-author as plain values.
pub open spec fn coauthor_view(s: Signature) -> (Seq<char>, Seq<char>, i64) {
    match (s.name, s.email) {
        (Some(n), Some(e)) => (n@, e@, s.timestamp),
        _ => (Seq::empty(), Seq::empty(), s.timestamp),
    }
}

impl Commit {
    /// A commit read from the repository: its id, message, author and
    /// committer, with the co-authors that its `Co-authored-by` lines name.
    pub fn from_record(id: String, message: String, author: Signature, committer: Signature) -> (r:
        Result<Commit, Error>)
        ensures
            r matches Ok(c) ==> {
                &&& c.id == id
                &&& c.message == message
                &&& c.author == author
                &&& c.committer == committer
                &&& c.coauthors@.map_values(|s: Signature| coauthor_view(s)) == coauthors_in(
                    message@,
                    author.timestamp,
                )
                &&& forall|i: int| 0 <= i < c.coauthors@.len() ==> (#[trigger] c.coauthors@[i]).name is Some
                    && c.coauthors@[i].email is Some
                &&& c.conv is None && c.group is None && c.scope is None && c.default_scope is None
                &&& c.links@.len() == 0 && c.github_author is None && c.github_coauthors is None
                &&& c.pull_requests is None
            },
            r matches Err(e) ==> e is PatternError,
            regex_valid(coauthor_line()) ==> r is Ok,
    {
        let pattern = match Pattern::new("(?mi)^Co-authored-by:\\s*(?P<name>.+)(<(?P<email>.+)>)") {
            Ok(p) => p,
            Err(e) => return Err(e),
        };
        let caps = pattern.named_captures(message.as_str(), "name", "email");
        let ghost cv = caps@.map_values(|x: (Option<String>, Option<String>)| (opt_seq(x.0), opt_seq(x.1)));
        let mut coauthors: Vec<Signature> = Vec::new();
        let mut i: usize = 0;
        while i < caps.len()
            invariant
                i <= caps@.len(),
                cv == caps@.map_values(|x: (Option<String>, Option<String>)| (opt_seq(x.0), opt_seq(x.1))),
                coauthors@.map_values(|s: Signature| coauthor_view(s)) == named_pairs(cv.take(i as int), author.timestamp),
                forall|k: int| 0 <= k < coauthors@.len() ==> (#[trigger] coauthors@[k]).name is Some
                    && coauthors@[k].email is Some,
            decreases caps@.len() - i,
        {
            proof {
                assert(cv.take(i + 1).drop_last() =~= cv.take(i as int));
                assert(cv.take(i + 1).last() == cv[i as int]);
            }
            if let (Some(n), Some(e)) = (&caps[i].0, &caps[i].1) {
                let sig = Signature { name: Some(n.clone()), email: Some(e.clone()), timestamp: author.timestamp };
                let ghost before = coauthors@;
                coauthors.push(sig);
                proof {
                    assert(coauthors@.map_values(|s: Signature| coauthor_view(s)) =~= before.map_values(
                        |s: Signature| coauthor_view(s),
                    ).push(coauthor_view(sig)));
                }
            }
            i = i + 1;
        }
        proof {
            assert(cv.take(i as int) =~= cv);
            reveal_strlit("name");
            reveal_strlit("email");
        }
        Ok(Commit {
            id,
            message,
            conv: None,
            group: None,
            default_scope: None,
            scope: None,
            links: Vec::new(),
            author,
            coauthors,
            committer,
            github_author: None,
            github_coauthors: None,
            pull_requests: None,
        })
    }
}

} // verus!
