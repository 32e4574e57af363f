use vstd::prelude::*;
use crate::commit::{body_of, resolved_authors, Commit};
use crate::error::Error;
use crate::pattern::{regex_matches, regex_valid, Pattern};
use crate::release::Release;
use crate::text::{
    compare, decimal_text, is_numeric, lemma_lex_irreflexive, lemma_lex_transitive, lex_lt, lines,
    lines_of, numeric, opt_string, push_decimal, split_on, split_on_exec, trim, trimmed, upper_first,
    upper_first_spec,
};

verus! {

/// The calendar date (`YYYY-MM-DD`, UTC) of a time in seconds since the epoch.
pub uninterp spec fn date_text(timestamp: i64) -> Seq<char>;

/// The earliest time chrono can show: January 1 of year -262143.
pub const MIN_TIMESTAMP: i64 = -8334601228800;

/// The latest time chrono can show: the last second of December 31, 262142.
pub const MAX_TIMESTAMP: i64 = 8210266876799;

/// Whether chrono can show the date of `timestamp`.
pub open spec fn date_in_range(timestamp: i64) -> bool {
    MIN_TIMESTAMP <= timestamp <= MAX_TIMESTAMP
}

/// Relies on chrono::DateTime::from_timestamp and its `%Y-%m-%d` format;
/// none exactly when the day falls outside chrono's years -262143 to 262142.
#[verifier::external_body]
fn format_date(timestamp: i64) -> (r: Option<String>)
    ensures
        r matches Some(s) ==> s@ == date_text(timestamp),
        r is Some <==> date_in_range(timestamp),
{
    chrono::DateTime::from_timestamp(timestamp, 0).map(|d| d.format("%Y-%m-%d").to_string())
}

/// The group a commit is listed under: its group, else its conventional type.
pub open spec fn group_key(c: Commit) -> Option<Seq<char>> {
    match c.group {
        Some(g) => Some(g@),
        None => match c.conv {
            Some(v) => Some(v.kind@),
            None => None,
        },
    }
}

/// The scope a commit is listed under: its scope, else its conventional
/// scope, else its default scope.
pub open spec fn scope_key(c: Commit) -> Option<Seq<char>> {
    match c.scope {
        Some(s) => Some(s@),
        None => match c.conv {
            Some(v) => match v.scope {
                Some(s) => Some(s@),
                None => opt_string(c.default_scope),
            },
            None => opt_string(c.default_scope),
        },
    }
}

/// `parts` with `sep` between each two.
pub open spec fn join(parts: Seq<Seq<char>>, sep: Seq<char>) -> Seq<char>
    decreases parts.len(),
{
    if parts.len() == 0 {
        Seq::empty()
    } else if parts.len() == 1 {
        parts[0]
    } else {
        join(parts.drop_last(), sep) + sep + parts.last()
    }
}

/// The pieces of `s` between commas.
pub open spec fn split_commas(s: Seq<char>) -> Seq<Seq<char>> {
    split_on(s, ',')
}

/// `s` without its leading numeric characters.
pub open spec fn strip_numeric(s: Seq<char>) -> Seq<char>
    decreases s.len(),
{
    if s.len() > 0 && numeric(s[0]) {
        strip_numeric(s.drop_first())
    } else {
        s
    }
}

/// `s` without its leading repetitions of `. `.
pub open spec fn strip_dot_space(s: Seq<char>) -> Seq<char>
    decreases s.len(),
{
    if s.len() >= 2 && s[0] == '.' && s[1] == ' ' {
        strip_dot_space(s.skip(2))
    } else {
        s
    }
}

/// `s` without its leading `v`s.
pub open spec fn strip_v(s: Seq<char>) -> Seq<char>
    decreases s.len(),
{
    if s.len() > 0 && s[0] == 'v' {
        strip_v(s.drop_first())
    } else {
        s
    }
}

/// `s` up to its first `/`.
pub open spec fn first_segment(s: Seq<char>) -> Seq<char>
    decreases s.len(),
{
    if s.len() == 0 || s[0] == '/' {
        Seq::empty()
    } else {
        seq![s[0]] + first_segment(s.drop_first())
    }
}

/// The heading of a group: its name without a numeric ordering prefix.
pub open spec fn group_header(g: Seq<char>) -> Seq<char> {
    "### "@ + strip_dot_space(strip_numeric(g)) + "\n"@
}

/// How a scope is shown: each comma-separated part trimmed and capitalized.
pub open spec fn scope_display(s: Seq<char>) -> Seq<char> {
    join(split_commas(s).map_values(|p: Seq<char>| upper_first_spec(trimmed(p))), ", "@)
}

pub open spec fn scope_header(s: Option<Seq<char>>) -> Seq<char> {
    match s {
        Some(x) => "\n#### - "@ + scope_display(x) + "\n\n"@,
        None => Seq::empty(),
    }
}

pub open spec fn author_link(a: Seq<char>) -> Seq<char> {
    "[@"@ + a + "](https://github.com/"@ + a + ")"@
}

pub open spec fn pr_link(n: u32, url: Seq<char>) -> Seq<char> {
    "[#"@ + decimal_text(n as nat) + "]("@ + url + "/pull/"@ + decimal_text(n as nat) + ")"@
}

/// The pattern of a squash-merge body, which is not quoted.
pub open spec fn squash_source() -> Seq<char> {
    "^\\*[[:space:]]\\w+"@
}

/// The lines of a body, quoted.
pub open spec fn quoted(ls: Seq<Seq<char>>) -> Seq<char>
    decreases ls.len(),
{
    if ls.len() == 0 {
        Seq::empty()
    } else {
        quoted(ls.drop_last()) + "  > "@ + ls.last() + "\n"@
    }
}

/// The pull request numbers of a commit.
pub open spec fn prs_of(c: Commit) -> Seq<u32> {
    match c.pull_requests {
        Some(v) => v@,
        None => Seq::empty(),
    }
}

/// The message of a commit's line, with its attribution and pull requests.
pub open spec fn commit_message(c: Commit, owner: Option<Seq<char>>, url: Option<Seq<char>>) -> Seq<
    char,
> {
    let desc = match c.conv {
        Some(v) => v.description@,
        None => c.message@,
    };
    let m0 = upper_first_spec(desc);
    let authors = resolved_authors(c);
    let m1 = if authors.len() > 0 && !(authors.len() == 1 && owner == Some(authors[0])) {
        m0 + " by "@ + join(authors.map_values(|a: Seq<char>| author_link(a)), " and "@)
    } else {
        m0
    };
    match url {
        Some(u) => if prs_of(c).len() > 0 {
            m1 + " in "@ + join(prs_of(c).map_values(|n: u32| pr_link(n, u)), " and "@)
        } else {
            m1
        },
        None => m1,
    }
}

/// The short id of a commit: its first seven characters.
pub open spec fn short_id(id: Seq<char>) -> Seq<char> {
    if id.len() < 7 {
        id
    } else {
        id.take(7)
    }
}

/// The quoted body of a commit, unless it is empty or a squash-merge list.
pub open spec fn body_text(c: Commit) -> Seq<char> {
    match body_of(c) {
        Some(b) => if b.len() > 0 && !regex_matches(squash_source(), b) {
            "  \u{3000}\n"@ + quoted(lines_of(b))
        } else {
            Seq::empty()
        },
        None => Seq::empty(),
    }
}

/// The entry of one commit.
pub open spec fn commit_text(c: Commit, owner: Option<Seq<char>>, url: Option<Seq<char>>) -> Seq<char> {
    let m = commit_message(c, owner, url);
    let line = match url {
        Some(u) => "- [`"@ + short_id(c.id@) + "`]("@ + u + "/commit/"@ + c.id@ + ") "@ + m + "\n"@,
        None => "- `"@ + short_id(c.id@) + "` "@ + m + "\n"@,
    };
    line + body_text(c)
}

/// The entries of the commits of `cs` in group `g` and scope `s`, in order.
pub open spec fn scope_lines(
    cs: Seq<Commit>,
    g: Seq<char>,
    s: Option<Seq<char>>,
    owner: Option<Seq<char>>,
    url: Option<Seq<char>>,
) -> Seq<char>
    decreases cs.len(),
{
    if cs.len() == 0 {
        Seq::empty()
    } else {
        let c = cs.last();
        scope_lines(cs.drop_last(), g, s, owner, url) + if group_key(c) == Some(g) && scope_key(c)
            == s {
            commit_text(c, owner, url)
        } else {
            Seq::empty()
        }
    }
}

/// The distinct scopes of the commits of group `g`, as first met.
pub open spec fn scopes_of(cs: Seq<Commit>, g: Seq<char>) -> Seq<Option<Seq<char>>>
    decreases cs.len(),
{
    if cs.len() == 0 {
        Seq::empty()
    } else {
        let d = scopes_of(cs.drop_last(), g);
        let c = cs.last();
        if group_key(c) == Some(g) && !d.contains(scope_key(c)) {
            d.push(scope_key(c))
        } else {
            d
        }
    }
}

pub open spec fn scopes_text(
    cs: Seq<Commit>,
    g: Seq<char>,
    ss: Seq<Option<Seq<char>>>,
    owner: Option<Seq<char>>,
    url: Option<Seq<char>>,
) -> Seq<char>
    decreases ss.len(),
{
    if ss.len() == 0 {
        Seq::empty()
    } else {
        scopes_text(cs, g, ss.drop_last(), owner, url) + scope_header(ss.last()) + scope_lines(
            cs,
            g,
            ss.last(),
            owner,
            url,
        )
    }
}

/// The section of one group.
pub open spec fn group_block(cs: Seq<Commit>, g: Seq<char>, owner: Option<Seq<char>>, url: Option<Seq<char>>) -> Seq<
    char,
> {
    group_header(g) + scopes_text(cs, g, scopes_of(cs, g), owner, url) + "\n---\n\n"@
}

pub open spec fn groups_text(
    cs: Seq<Commit>,
    gs: Seq<Seq<char>>,
    owner: Option<Seq<char>>,
    url: Option<Seq<char>>,
) -> Seq<char>
    decreases gs.len(),
{
    if gs.len() == 0 {
        Seq::empty()
    } else {
        groups_text(cs, gs.drop_last(), owner, url) + group_block(cs, gs.last(), owner, url)
    }
}

/// Whether `gs` lists the groups of `cs` once each, in lexicographic order.
pub open spec fn sorted_groups(gs: Seq<Seq<char>>, cs: Seq<Commit>) -> bool {
    &&& forall|i: int, j: int| 0 <= i < j < gs.len() ==> lex_lt(#[trigger] gs[i], #[trigger] gs[j])
    &&& forall|x: Seq<char>|
        gs.contains(x) <==> exists|k: int| 0 <= k < cs.len() && #[trigger] group_key(cs[k]) == Some(x)
}

/// The heading of a release.
pub open spec fn heading(r: Release) -> Seq<char> {
    match r.version {
        Some(v) => "## ["@ + strip_v(v@) + "] - "@ + date_text(r.timestamp) + "\n\n"@,
        None => "## [Unreleased]\n\n"@,
    }
}

/// The closing lines of a release.
pub open spec fn footer(r: Release, url: Option<Seq<char>>) -> Seq<char> {
    let prev = match r.previous {
        Some(p) => opt_string(p.version),
        None => None,
    };
    let current = match r.version {
        Some(v) => v@,
        None => "HEAD"@,
    };
    "_This changelog is generated by [pretty-changelog](https://github.com/chachako/pretty-changelog)"@ + match url {
        Some(u) => ",_\n"@ + "_**You can also view the full changes: "@ + u + "/"@ + match prev {
            Some(p) => "compare/"@ + p + ".."@ + current,
            None => "commits/HEAD"@,
        } + "**_\n"@,
        None => Seq::empty(),
    } + "\n---\n\n"@
}

/// The default layout of a release, with its groups in the order `gs`.
pub open spec fn render_spec(r: Release, gs: Seq<Seq<char>>, repo: Option<Seq<char>>) -> Seq<char> {
    let owner = match repo {
        Some(x) => Some(first_segment(x)),
        None => None,
    };
    let url = match repo {
        Some(x) => Some("https://github.com/"@ + x),
        None => None,
    };
    heading(r) + groups_text(r.commits@, gs, owner, url) + footer(r, url)
}

} // verus!

verus! {

proof fn lemma_join_step(parts: Seq<Seq<char>>, sep: Seq<char>, i: int)
    requires
        0 <= i < parts.len(),
    ensures
        join(parts.take(i + 1), sep) == if i == 0 {
            parts[0]
        } else {
            join(parts.take(i), sep) + sep + parts[i]
        },
{
    assert(parts.take(i + 1).drop_last() =~= parts.take(i));
}

/// Appends `parts` with `sep` between each two.
fn push_joined(out: &mut String, parts: &Vec<String>, sep: &str)
    ensures
        final(out)@ == old(out)@ + join(parts@.map_values(|p: String| p@), sep@),
{
    let ghost pv = parts@.map_values(|p: String| p@);
    let ghost start = out@;
    let mut i: usize = 0;
    while i < parts.len()
        invariant
            i <= parts@.len(),
            pv == parts@.map_values(|p: String| p@),
            out@ == start + join(pv.take(i as int), sep@),
        decreases parts@.len() - i,
    {
        proof {
            lemma_join_step(pv, sep@, i as int);
        }
        if i > 0 {
            out.append(sep);
        }
        out.append(parts[i].as_str());
        proof {
            if i == 0 {
                assert(join(pv.take(0), sep@) == Seq::<char>::empty());
            }
        }
        i = i + 1;
    }
    proof {
        assert(pv.take(i as int) =~= pv);
    }
}

/// The group a commit is listed under.
pub fn group_key_of(c: &Commit) -> (r: Option<String>)
    ensures
        opt_string(r) == group_key(*c),
{
    match &c.group {
        Some(g) => Some(g.clone()),
        None => match &c.conv {
            Some(v) => Some(v.kind.clone()),
            None => None,
        },
    }
}

fn clone_opt_string(o: &Option<String>) -> (r: Option<String>)
    ensures
        opt_string(r) == opt_string(*o),
{
    match o {
        Some(s) => Some(s.clone()),
        None => None,
    }
}

/// The scope a commit is listed under.
pub fn scope_key_of(c: &Commit) -> (r: Option<String>)
    ensures
        opt_string(r) == scope_key(*c),
{
    match &c.scope {
        Some(s) => Some(s.clone()),
        None => match &c.conv {
            Some(v) => match &v.scope {
                Some(s) => Some(s.clone()),
                None => clone_opt_string(&c.default_scope),
            },
            None => clone_opt_string(&c.default_scope),
        },
    }
}

fn opt_eq(a: &Option<String>, b: &Option<String>) -> (r: bool)
    ensures
        r == (opt_string(*a) == opt_string(*b)),
{
    match (a, b) {
        (Some(x), Some(y)) => *x == *y,
        (None, None) => true,
        _ => false,
    }
}

fn strip_numeric_exec(s: &str) -> (r: String)
    ensures
        r@ == strip_numeric(s@),
{
    let n = s.unicode_len();
    let mut i: usize = 0;
    proof {
        assert(s@.skip(0) =~= s@);
    }
    while i < n && is_numeric(s.get_char(i))
        invariant
            i <= n,
            n == s@.len(),
            strip_numeric(s@.skip(i as int)) == strip_numeric(s@),
        decreases n - i,
    {
        proof {
            assert(s@.skip(i as int).drop_first() =~= s@.skip(i + 1));
        }
        i = i + 1;
    }
    proof {
        assert(s@.subrange(i as int, n as int) =~= s@.skip(i as int));
    }
    String::from_str(s.substring_char(i, n))
}

fn strip_dot_space_exec(s: &str) -> (r: String)
    ensures
        r@ == strip_dot_space(s@),
{
    let n = s.unicode_len();
    let mut i: usize = 0;
    proof {
        assert(s@.skip(0) =~= s@);
    }
    while i < n && i + 1 < n && s.get_char(i) == '.' && s.get_char(i + 1) == ' '
        invariant
            i <= n,
            n == s@.len(),
            strip_dot_space(s@.skip(i as int)) == strip_dot_space(s@),
        decreases n - i,
    {
        proof {
            let t = s@.skip(i as int);
            assert(t.len() >= 2 && t[0] == '.' && t[1] == ' ');
            assert(t.skip(2) =~= s@.skip(i + 2));
            assert(strip_dot_space(t) == strip_dot_space(t.skip(2)));
        }
        i = i + 2;
    }
    proof {
        assert(s@.subrange(i as int, n as int) =~= s@.skip(i as int));
    }
    String::from_str(s.substring_char(i, n))
}

fn strip_v_exec(s: &str) -> (r: String)
    ensures
        r@ == strip_v(s@),
{
    let n = s.unicode_len();
    let mut i: usize = 0;
    proof {
        assert(s@.skip(0) =~= s@);
    }
    while i < n && s.get_char(i) == 'v'
        invariant
            i <= n,
            n == s@.len(),
            strip_v(s@.skip(i as int)) == strip_v(s@),
        decreases n - i,
    {
        proof {
            assert(s@.skip(i as int).drop_first() =~= s@.skip(i + 1));
        }
        i = i + 1;
    }
    proof {
        assert(s@.subrange(i as int, n as int) =~= s@.skip(i as int));
    }
    String::from_str(s.substring_char(i, n))
}

proof fn lemma_first_segment(s: Seq<char>, i: int)
    requires
        0 <= i <= s.len(),
        forall|j: int| 0 <= j < i ==> s[j] != '/',
        i == s.len() || s[i] == '/',
    ensures
        first_segment(s) == s.take(i),
    decreases i,
{
    if i > 0 {
        lemma_first_segment(s.drop_first(), i - 1);
        assert(s.take(i) =~= seq![s[0]] + s.drop_first().take(i - 1));
    } else {
        assert(s.take(0) =~= Seq::<char>::empty());
    }
}

fn first_segment_exec(s: &str) -> (r: String)
    ensures
        r@ == first_segment(s@),
{
    let n = s.unicode_len();
    let mut i: usize = 0;
    while i < n && s.get_char(i) != '/'
        invariant
            i <= n,
            n == s@.len(),
            forall|j: int| 0 <= j < i ==> s@[j] != '/',
        decreases n - i,
    {
        i = i + 1;
    }
    proof {
        lemma_first_segment(s@, i as int);
        assert(s@.subrange(0, i as int) =~= s@.take(i as int));
    }
    String::from_str(s.substring_char(0, i))
}

fn scope_display_exec(s: &str) -> (r: String)
    ensures
        r@ == scope_display(s@),
{
    let parts = split_on_exec(s, ',');
    let ghost pv = parts@.map_values(|p: String| p@);
    let mut shown: Vec<String> = Vec::new();
    let mut i: usize = 0;
    while i < parts.len()
        invariant
            i <= parts@.len(),
            pv == parts@.map_values(|p: String| p@),
            shown@.map_values(|p: String| p@) == pv.take(i as int).map_values(
                |p: Seq<char>| upper_first_spec(trimmed(p)),
            ),
        decreases parts@.len() - i,
    {
        let t = trim(parts[i].as_str());
        let u = upper_first(t.as_str());
        let ghost before = shown@;
        shown.push(u);
        proof {
            assert(pv[i as int] == parts@[i as int]@);
            assert(shown@.map_values(|p: String| p@) =~= before.map_values(|p: String| p@).push(u@));
            assert(pv.take(i + 1) =~= pv.take(i as int).push(pv[i as int]));
            assert(shown@.map_values(|p: String| p@) =~= pv.take(i + 1).map_values(
                |p: Seq<char>| upper_first_spec(trimmed(p)),
            ));
        }
        i = i + 1;
    }
    proof {
        assert(pv.take(i as int) =~= pv);
    }
    let mut out = String::new();
    push_joined(&mut out, &shown, ", ");
    proof {
        assert(out@ =~= scope_display(s@));
    }
    out
}

} // verus!

verus! {

fn author_link_exec(a: &str) -> (r: String)
    ensures
        r@ == author_link(a@),
{
    let mut s = String::new();
    s.append("[@");
    s.append(a);
    s.append("](https://github.com/");
    s.append(a);
    s.append(")");
    proof {
        assert(s@ =~= author_link(a@));
    }
    s
}

fn pr_link_exec(n: u32, url: &str) -> (r: String)
    ensures
        r@ == pr_link(n, url@),
{
    let mut s = String::new();
    s.append("[#");
    push_decimal(&mut s, n);
    s.append("](");
    s.append(url);
    s.append("/pull/");
    push_decimal(&mut s, n);
    s.append(")");
    proof {
        assert(s@ =~= pr_link(n, url@));
    }
    s
}

fn author_links(authors: &Vec<String>) -> (r: Vec<String>)
    ensures
        r@.map_values(|p: String| p@) == authors@.map_values(|p: String| p@).map_values(
            |a: Seq<char>| author_link(a),
        ),
{
    let ghost av = authors@.map_values(|p: String| p@);
    let mut r: Vec<String> = Vec::new();
    let mut i: usize = 0;
    while i < authors.len()
        invariant
            i <= authors@.len(),
            av == authors@.map_values(|p: String| p@),
            r@.map_values(|p: String| p@) == av.take(i as int).map_values(|a: Seq<char>| author_link(a)),
        decreases authors@.len() - i,
    {
        let l = author_link_exec(authors[i].as_str());
        let ghost before = r@;
        r.push(l);
        proof {
            assert(r@.map_values(|p: String| p@) =~= before.map_values(|p: String| p@).push(l@));
            assert(av.take(i + 1) =~= av.take(i as int).push(av[i as int]));
            assert(r@.map_values(|p: String| p@) =~= av.take(i + 1).map_values(|a: Seq<char>| author_link(a)));
        }
        i = i + 1;
    }
    proof {
        assert(av.take(i as int) =~= av);
    }
    r
}

fn pr_links(prs: &Vec<u32>, url: &str) -> (r: Vec<String>)
    ensures
        r@.map_values(|p: String| p@) == prs@.map_values(|n: u32| pr_link(n, url@)),
{
    let mut r: Vec<String> = Vec::new();
    let mut i: usize = 0;
    while i < prs.len()
        invariant
            i <= prs@.len(),
            r@.map_values(|p: String| p@) == prs@.take(i as int).map_values(|n: u32| pr_link(n, url@)),
        decreases prs@.len() - i,
    {
        let l = pr_link_exec(prs[i], url);
        let ghost before = r@;
        r.push(l);
        proof {
            assert(r@.map_values(|p: String| p@) =~= before.map_values(|p: String| p@).push(l@));
            assert(prs@.take(i + 1) =~= prs@.take(i as int).push(prs@[i as int]));
            assert(r@.map_values(|p: String| p@) =~= prs@.take(i + 1).map_values(|n: u32| pr_link(n, url@)));
        }
        i = i + 1;
    }
    proof {
        assert(prs@.take(i as int) =~= prs@);
    }
    r
}

fn commit_message_exec(c: &Commit, owner: &Option<String>, url: &Option<String>) -> (r: String)
    ensures
        r@ == commit_message(*c, opt_string(*owner), opt_string(*url)),
{
    let desc: &str = match &c.conv {
        Some(v) => v.description.as_str(),
        None => c.message.as_str(),
    };
    let mut m = upper_first(desc);
    let authors = c.github_authors();
    let ghost av = authors@.map_values(|p: String| p@);
    let only_owner = authors.len() == 1 && match owner {
        Some(o) => authors[0] == *o,
        None => false,
    };
    proof {
        if authors@.len() == 1 {
            assert(av[0] == authors@[0]@);
        }
    }
    if authors.len() > 0 && !only_owner {
        m.append(" by ");
        let links = author_links(&authors);
        push_joined(&mut m, &links, " and ");
    }
    if let Some(u) = url {
        let prs = c.pull_requests();
        if prs.len() > 0 {
            m.append(" in ");
            let links = pr_links(&prs, u.as_str());
            push_joined(&mut m, &links, " and ");
        }
    }
    proof {
        assert(m@ =~= commit_message(*c, opt_string(*owner), opt_string(*url)));
    }
    m
}

fn push_body(out: &mut String, c: &Commit, squash: &Pattern)
    requires
        squash@ == squash_source(),
    ensures
        final(out)@ == old(out)@ + body_text(*c),
{
    if let Some(v) = &c.conv {
        if let Some(b) = &v.body {
            if b.as_str().unicode_len() > 0 && !squash.is_match(b.as_str()) {
                out.append("  \u{3000}\n");
                let ls = lines(b.as_str());
                let ghost lv = ls@.map_values(|l: String| l@);
                let ghost start = out@;
                let mut i: usize = 0;
                while i < ls.len()
                    invariant
                        i <= ls@.len(),
                        lv == ls@.map_values(|l: String| l@),
                        out@ == start + quoted(lv.take(i as int)),
                    decreases ls@.len() - i,
                {
                    proof {
                        assert(lv.take(i + 1).drop_last() =~= lv.take(i as int));
                    }
                    out.append("  > ");
                    out.append(ls[i].as_str());
                    out.append("\n");
                    proof {
                        assert(out@ =~= start + quoted(lv.take(i + 1)));
                    }
                    i = i + 1;
                }
                proof {
                    assert(lv.take(i as int) =~= lv);
                }
            }
        }
    }
}

fn push_commit(out: &mut String, c: &Commit, owner: &Option<String>, url: &Option<String>, squash: &Pattern)
    requires
        squash@ == squash_source(),
    ensures
        final(out)@ == old(out)@ + commit_text(*c, opt_string(*owner), opt_string(*url)),
{
    let ghost start = out@;
    let m = commit_message_exec(c, owner, url);
    let n = c.id.as_str().unicode_len();
    let k: usize = if n < 7 {
        n
    } else {
        7
    };
    let short = c.id.as_str().substring_char(0, k);
    proof {
        assert(short@ =~= short_id(c.id@));
    }
    match url {
        Some(u) => {
            out.append("- [`");
            out.append(short);
            out.append("`](");
            out.append(u.as_str());
            out.append("/commit/");
            out.append(c.id.as_str());
            out.append(") ");
        },
        None => {
            out.append("- `");
            out.append(short);
            out.append("` ");
        },
    }
    out.append(m.as_str());
    out.append("\n");
    let ghost mid = out@;
    push_body(out, c, squash);
    proof {
        assert(out@ =~= start + commit_text(*c, opt_string(*owner), opt_string(*url)));
    }
}

} // verus!

verus! {

pub open spec fn opt_strings(v: Seq<Option<String>>) -> Seq<Option<Seq<char>>> {
    v.map_values(|o: Option<String>| opt_string(o))
}

fn contains_opt(list: &Vec<Option<String>>, x: &Option<String>) -> (r: bool)
    ensures
        r == opt_strings(list@).contains(opt_string(*x)),
{
    let mut i: usize = 0;
    while i < list.len()
        invariant
            i <= list@.len(),
            forall|j: int| 0 <= j < i ==> opt_string(#[trigger] list@[j]) != opt_string(*x),
        decreases list@.len() - i,
    {
        if opt_eq(&list[i], x) {
            proof {
                assert(opt_strings(list@)[i as int] == opt_string(*x));
            }
            return true;
        }
        i = i + 1;
    }
    proof {
        if opt_strings(list@).contains(opt_string(*x)) {
            let j = choose|j: int| 0 <= j < opt_strings(list@).len() && opt_strings(list@)[j] == opt_string(*x);
            assert(opt_string(list@[j]) == opt_string(*x));
        }
    }
    false
}

fn scopes_of_exec(cs: &Vec<Commit>, g: &String) -> (r: Vec<Option<String>>)
    ensures
        opt_strings(r@) == scopes_of(cs@, g@),
{
    let mut r: Vec<Option<String>> = Vec::new();
    let mut i: usize = 0;
    while i < cs.len()
        invariant
            i <= cs@.len(),
            opt_strings(r@) == scopes_of(cs@.take(i as int), g@),
        decreases cs@.len() - i,
    {
        proof {
            assert(cs@.take(i + 1).drop_last() =~= cs@.take(i as int));
        }
        let k = group_key_of(&cs[i]);
        let gk = Some(g.clone());
        if opt_eq(&k, &gk) {
            let s = scope_key_of(&cs[i]);
            if !contains_opt(&r, &s) {
                let ghost before = r@;
                r.push(s);
                proof {
                    assert(opt_strings(r@) =~= opt_strings(before).push(opt_string(s)));
                }
            }
        }
        i = i + 1;
    }
    proof {
        assert(cs@.take(i as int) =~= cs@);
    }
    r
}

fn push_scope_lines(
    out: &mut String,
    cs: &Vec<Commit>,
    g: &String,
    s: &Option<String>,
    owner: &Option<String>,
    url: &Option<String>,
    squash: &Pattern,
)
    requires
        squash@ == squash_source(),
    ensures
        final(out)@ == old(out)@ + scope_lines(cs@, g@, opt_string(*s), opt_string(*owner), opt_string(*url)),
{
    let ghost start = out@;
    let mut i: usize = 0;
    while i < cs.len()
        invariant
            i <= cs@.len(),
            squash@ == squash_source(),
            out@ == start + scope_lines(cs@.take(i as int), g@, opt_string(*s), opt_string(*owner), opt_string(*url)),
        decreases cs@.len() - i,
    {
        proof {
            assert(cs@.take(i + 1).drop_last() =~= cs@.take(i as int));
        }
        let k = group_key_of(&cs[i]);
        let gk = Some(g.clone());
        let sk = scope_key_of(&cs[i]);
        if opt_eq(&k, &gk) && opt_eq(&sk, s) {
            push_commit(out, &cs[i], owner, url, squash);
        }
        proof {
            assert(out@ =~= start + scope_lines(cs@.take(i + 1), g@, opt_string(*s), opt_string(*owner), opt_string(*url)));
        }
        i = i + 1;
    }
    proof {
        assert(cs@.take(i as int) =~= cs@);
    }
}

fn push_group(
    out: &mut String,
    cs: &Vec<Commit>,
    g: &String,
    owner: &Option<String>,
    url: &Option<String>,
    squash: &Pattern,
)
    requires
        squash@ == squash_source(),
    ensures
        final(out)@ == old(out)@ + group_block(cs@, g@, opt_string(*owner), opt_string(*url)),
{
    let ghost start = out@;
    out.append("### ");
    let name = strip_numeric_exec(g.as_str());
    let name = strip_dot_space_exec(name.as_str());
    out.append(name.as_str());
    out.append("\n");
    let ghost head = out@;
    let scopes = scopes_of_exec(cs, g);
    let ghost sv = opt_strings(scopes@);
    let mut i: usize = 0;
    while i < scopes.len()
        invariant
            i <= scopes@.len(),
            squash@ == squash_source(),
            sv == opt_strings(scopes@),
            out@ == head + scopes_text(cs@, g@, sv.take(i as int), opt_string(*owner), opt_string(*url)),
        decreases scopes@.len() - i,
    {
        proof {
            assert(sv.take(i + 1).drop_last() =~= sv.take(i as int));
            assert(sv.take(i + 1).last() == opt_string(scopes@[i as int]));
        }
        if let Some(s) = &scopes[i] {
            out.append("\n#### - ");
            let shown = scope_display_exec(s.as_str());
            out.append(shown.as_str());
            out.append("\n\n");
        }
        push_scope_lines(out, cs, g, &scopes[i], owner, url, squash);
        proof {
            assert(out@ =~= head + scopes_text(cs@, g@, sv.take(i + 1), opt_string(*owner), opt_string(*url)));
        }
        i = i + 1;
    }
    proof {
        assert(sv.take(i as int) =~= sv);
    }
    out.append("\n---\n\n");
    proof {
        assert(out@ =~= start + group_block(cs@, g@, opt_string(*owner), opt_string(*url)));
    }
}

pub open spec fn strings(v: Seq<String>) -> Seq<Seq<char>> {
    v.map_values(|s: String| s@)
}

pub open spec fn is_sorted(gs: Seq<Seq<char>>) -> bool {
    forall|i: int, j: int| 0 <= i < j < gs.len() ==> lex_lt(#[trigger] gs[i], #[trigger] gs[j])
}

/// Inserts `k` into a sorted list of distinct texts, keeping it so.
fn insert_sorted(gs: &mut Vec<String>, k: String)
    requires
        is_sorted(strings(old(gs)@)),
    ensures
        is_sorted(strings(final(gs)@)),
        forall|x: Seq<char>| strings(final(gs)@).contains(x) <==> (strings(old(gs)@).contains(x) || x == k@),
{
    let ghost gv = strings(gs@);
    let mut j: usize = 0;
    while j < gs.len() && compare(gs[j].as_str(), k.as_str()) == -1
        invariant
            j <= gs@.len(),
            gv == strings(gs@),
            forall|a: int| 0 <= a < j ==> lex_lt(#[trigger] gv[a], k@),
        decreases gs@.len() - j,
    {
        j = j + 1;
    }
    if j < gs.len() && compare(gs[j].as_str(), k.as_str()) == 0 {
        proof {
            assert(gv[j as int] == k@);
            assert forall|x: Seq<char>| strings(gs@).contains(x) <==> (gv.contains(x) || x == k@) by {
                if x == k@ {
                    assert(gv[j as int] == x);
                }
            }
        }
        return;
    }
    let ghost kv = k@;
    gs.insert(j, k);
    proof {
        let nv = strings(gs@);
        assert(nv =~= gv.insert(j as int, kv));
        if j < gv.len() {
            assert(lex_lt(kv, gv[j as int]));
        }
        assert forall|a: int, b: int| 0 <= a < b < nv.len() implies lex_lt(#[trigger] nv[a], #[trigger] nv[b]) by {
            if b < j {
            } else if b == j {
            } else if a == j {
                if b - 1 > j {
                    lemma_lex_transitive(kv, gv[j as int], gv[b - 1]);
                }
            } else if a < j {
                assert(lex_lt(gv[a], kv));
                if b - 1 >= j as int {
                    if j < gv.len() {
                        lemma_lex_transitive(gv[a], kv, gv[j as int]);
                        if b - 1 > j {
                            lemma_lex_transitive(gv[a], gv[j as int], gv[b - 1]);
                        }
                    }
                }
            } else {
                assert(nv[a] == gv[a - 1]);
                assert(nv[b] == gv[b - 1]);
            }
        }
        assert forall|x: Seq<char>| nv.contains(x) <==> (gv.contains(x) || x == kv) by {
            if x == kv {
                assert(nv[j as int] == x);
            }
            if gv.contains(x) {
                let a = choose|a: int| 0 <= a < gv.len() && gv[a] == x;
                if a < j {
                    assert(nv[a] == x);
                } else {
                    assert(nv[a + 1] == x);
                }
            }
            if nv.contains(x) {
                let a = choose|a: int| 0 <= a < nv.len() && nv[a] == x;
                if a < j {
                    assert(gv[a] == x);
                } else if a > j {
                    assert(gv[a - 1] == x);
                }
            }
        }
    }
}

fn groups_of(cs: &Vec<Commit>) -> (r: Vec<String>)
    ensures
        sorted_groups(strings(r@), cs@),
{
    let mut gs: Vec<String> = Vec::new();
    let mut i: usize = 0;
    while i < cs.len()
        invariant
            i <= cs@.len(),
            is_sorted(strings(gs@)),
            forall|x: Seq<char>|
                strings(gs@).contains(x) <==> exists|k: int| 0 <= k < i && #[trigger] group_key(cs@[k]) == Some(x),
        decreases cs@.len() - i,
    {
        let key = group_key_of(&cs[i]);
        let ghost before = strings(gs@);
        if let Some(k) = key {
            insert_sorted(&mut gs, k);
        }
        proof {
            assert forall|x: Seq<char>|
                strings(gs@).contains(x) <==> exists|k: int| 0 <= k < i + 1 && #[trigger] group_key(cs@[k]) == Some(x) by {
                if strings(gs@).contains(x) && !before.contains(x) {
                    assert(group_key(cs@[i as int]) == Some(x));
                }
                if exists|k: int| 0 <= k < i + 1 && #[trigger] group_key(cs@[k]) == Some(x) {
                    let k = choose|k: int| 0 <= k < i + 1 && #[trigger] group_key(cs@[k]) == Some(x);
                    if k < i {
                        assert(before.contains(x));
                    }
                }
            }
        }
        i = i + 1;
    }
    gs
}

} // verus!

verus! {

fn push_heading(out: &mut String, release: &Release) -> (r: bool)
    ensures
        r ==> final(out)@ == old(out)@ + heading(*release),
        !r <==> (release.version is Some && !date_in_range(release.timestamp)),
{
    match &release.version {
        Some(v) => {
            let date = match format_date(release.timestamp) {
                Some(d) => d,
                None => return false,
            };
            out.append("## [");
            let shown = strip_v_exec(v.as_str());
            out.append(shown.as_str());
            out.append("] - ");
            out.append(date.as_str());
            out.append("\n\n");
        },
        None => {
            out.append("## [Unreleased]\n\n");
        },
    }
    true
}

fn push_footer(out: &mut String, release: &Release, url: &Option<String>)
    ensures
        final(out)@ == old(out)@ + footer(*release, opt_string(*url)),
{
    let ghost start = out@;
    out.append("_This changelog is generated by [pretty-changelog](https://github.com/chachako/pretty-changelog)");
    if let Some(u) = url {
        out.append(",_\n");
        out.append("_**You can also view the full changes: ");
        out.append(u.as_str());
        out.append("/");
        let prev = match &release.previous {
            Some(p) => match &p.version {
                Some(v) => Some(v.as_str()),
                None => None,
            },
            None => None,
        };
        match prev {
            Some(p) => {
                out.append("compare/");
                out.append(p);
                out.append("..");
                match &release.version {
                    Some(v) => out.append(v.as_str()),
                    None => out.append("HEAD"),
                }
            },
            None => out.append("commits/HEAD"),
        }
        out.append("**_\n");
    }
    out.append("\n---\n\n");
    proof {
        assert(out@ =~= start + footer(*release, opt_string(*url)));
    }
}

/// Wrapper of the default changelog layout.
pub struct Template {}

impl Template {
    /// Renders a release in the default layout: a heading with the version
    /// and date (or `Unreleased`), the commits by group in lexicographic order
    /// and by scope as first met, and closing lines that link to the changes
    /// when the hosting repository `owner/name` is known. Fails when the
    /// release date cannot be shown, or the squash-merge pattern does not
    /// compile.
    pub fn render_default(release: &Release, github_repo: Option<String>) -> (r: Result<String, Error>)
        ensures
            r matches Ok(s) ==> exists|gs: Seq<Seq<char>>|
                sorted_groups(gs, release.commits@) && s@ == #[trigger] render_spec(
                    *release,
                    gs,
                    opt_string(github_repo),
                ),
            r matches Err(e) ==> (e is DateError || e is PatternError),
            regex_valid(squash_source()) && (release.version is None || date_in_range(
                release.timestamp,
            )) ==> r is Ok,
    {
        let squash = match Pattern::new("^\\*[[:space:]]\\w+") {
            Ok(p) => p,
            Err(e) => return Err(e),
        };
        let owner = match &github_repo {
            Some(repo) => Some(first_segment_exec(repo.as_str())),
            None => None,
        };
        let url = match &github_repo {
            Some(repo) => {
                let mut u = String::from_str("https://github.com/");
                u.append(repo.as_str());
                Some(u)
            },
            None => None,
        };
        let mut out = String::new();
        if !push_heading(&mut out, release) {
            return Err(Error::DateError(release.timestamp));
        }
        let ghost head = out@;
        let groups = groups_of(&release.commits);
        let ghost gv = strings(groups@);
        let ghost ov = opt_string(owner);
        let ghost uv = opt_string(url);
        let mut i: usize = 0;
        while i < groups.len()
            invariant
                i <= groups@.len(),
                squash@ == squash_source(),
                gv == strings(groups@),
                ov == opt_string(owner),
                uv == opt_string(url),
                out@ == head + groups_text(release.commits@, gv.take(i as int), ov, uv),
            decreases groups@.len() - i,
        {
            proof {
                assert(gv.take(i + 1).drop_last() =~= gv.take(i as int));
            }
            push_group(&mut out, &release.commits, &groups[i], &owner, &url, &squash);
            i = i + 1;
        }
        proof {
            assert(gv.take(i as int) =~= gv);
        }
        push_footer(&mut out, release, &url);
        proof {
            assert(out@ =~= render_spec(*release, gv, opt_string(github_repo)));
        }
        Ok(out)
    }
}

} // verus!

verus! {

proof fn lemma_sorted_unique(a: Seq<Seq<char>>, b: Seq<Seq<char>>)
    requires
        is_sorted(a),
        is_sorted(b),
        forall|x: Seq<char>| a.contains(x) <==> b.contains(x),
    ensures
        a == b,
    decreases a.len(),
{
    if a.len() == 0 {
        if b.len() > 0 {
            assert(b.contains(b[0]));
        }
        assert(a =~= b);
    } else if b.len() == 0 {
        assert(a.contains(a[0]));
    } else {
        assert(a.contains(a[0]));
        assert(b.contains(b[0]));
        let k = choose|k: int| 0 <= k < a.len() && a[k] == b[0];
        let m = choose|m: int| 0 <= m < b.len() && b[m] == a[0];
        if k > 0 && m > 0 {
            assert(lex_lt(a[0], a[k]));
            assert(lex_lt(b[0], b[m]));
            lemma_lex_transitive(a[0], b[0], a[0]);
            lemma_lex_irreflexive(a[0]);
        } else if k == 0 {
        } else {
        }
        assert(a[0] == b[0]);
        let a1 = a.drop_first();
        let b1 = b.drop_first();
        assert forall|x: Seq<char>| a1.contains(x) <==> b1.contains(x) by {
            if a1.contains(x) {
                let i = choose|i: int| 0 <= i < a1.len() && a1[i] == x;
                assert(a.contains(x)) by {
                    assert(a[i + 1] == x);
                }
                assert(lex_lt(a[0], a[i + 1]));
                let j = choose|j: int| 0 <= j < b.len() && b[j] == x;
                if j == 0 {
                    lemma_lex_irreflexive(a[0]);
                }
                assert(b1[j - 1] == x);
            }
            if b1.contains(x) {
                let i = choose|i: int| 0 <= i < b1.len() && b1[i] == x;
                assert(b.contains(x)) by {
                    assert(b[i + 1] == x);
                }
                assert(lex_lt(b[0], b[i + 1]));
                let j = choose|j: int| 0 <= j < a.len() && a[j] == x;
                if j == 0 {
                    lemma_lex_irreflexive(b[0]);
                }
                assert(a1[j - 1] == x);
            }
        }
        assert(is_sorted(a1)) by {
            assert forall|i: int, j: int| 0 <= i < j < a1.len() implies lex_lt(#[trigger] a1[i], #[trigger] a1[j]) by {
                assert(a1[i] == a[i + 1] && a1[j] == a[j + 1]);
            }
        }
        assert(is_sorted(b1)) by {
            assert forall|i: int, j: int| 0 <= i < j < b1.len() implies lex_lt(#[trigger] b1[i], #[trigger] b1[j]) by {
                assert(b1[i] == b[i + 1] && b1[j] == b[j + 1]);
            }
        }
        lemma_sorted_unique(a1, b1);
        assert(a =~= seq![a[0]] + a1);
        assert(b =~= seq![b[0]] + b1);
    }
}

/// The groups of a release have one order only: two lists that each hold
/// every group once, in lexicographic order, are the same list.
pub proof fn lemma_group_order_unique(g1: Seq<Seq<char>>, g2: Seq<Seq<char>>, cs: Seq<Commit>)
    requires
        sorted_groups(g1, cs),
        sorted_groups(g2, cs),
    ensures
        g1 == g2,
{
    lemma_sorted_unique(g1, g2);
}

} // verus!
