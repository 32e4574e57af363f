use vstd::prelude::*;
use crate::commit::{Commit, Signature};
use crate::error::Error;
use crate::pattern::{regex_capture, regex_valid, Pattern};
use crate::text::{
    decimal, find_value, is_ascii_digit, lemma_lookup_push, lookup, opt_string, parse_u32,
};

verus! {

/// A pull request number at the end of a line of the message: `(#123)`.
pub open spec fn pr_reference() -> Seq<char> {
    "(?m)\\s\\(#(\\d+)\\)$"@
}

/// A co-author key: the (name, email) pairs of a commit's co-authors.
pub type CoauthorKey = Vec<(String, String)>;

/// The view of a co-author key.
pub open spec fn key_view(k: CoauthorKey) -> Seq<(Seq<char>, Seq<char>)> {
    k@.map_values(|p: (String, String)| (p.0@, p.1@))
}

/// The view of a list of usernames.
pub open spec fn names_view(v: Vec<String>) -> Seq<Seq<char>> {
    v@.map_values(|s: String| s@)
}

/// The usernames cached for the first entry whose key is `key`.
pub open spec fn key_lookup(cache: Seq<(CoauthorKey, Vec<String>)>, key: Seq<(Seq<char>, Seq<char>)>) -> Option<
    Seq<Seq<char>>,
>
    decreases cache.len(),
{
    if cache.len() == 0 {
        None
    } else {
        match key_lookup(cache.drop_last(), key) {
            Some(v) => Some(v),
            None => if key_view(cache.last().0) == key {
                Some(names_view(cache.last().1))
            } else {
                None
            },
        }
    }
}

/// The usernames that the email cache gives the co-authors, in order,
/// skipping those it does not know.
pub open spec fn cached_logins(coauthors: Seq<Signature>, usernames: Seq<(String, String)>) -> Seq<
    Seq<char>,
>
    decreases coauthors.len(),
{
    if coauthors.len() == 0 {
        Seq::empty()
    } else {
        let before = cached_logins(coauthors.drop_last(), usernames);
        match coauthors.last().email {
            Some(e) => match lookup(usernames, e@) {
                Some(l) => before.push(l),
                None => before,
            },
            None => before,
        }
    }
}

/// The (name, email) pairs of the co-authors that have both.
pub open spec fn coauthor_key(coauthors: Seq<Signature>) -> Seq<(Seq<char>, Seq<char>)>
    decreases coauthors.len(),
{
    if coauthors.len() == 0 {
        Seq::empty()
    } else {
        let before = coauthor_key(coauthors.drop_last());
        match (coauthors.last().name, coauthors.last().email) {
            (Some(n), Some(e)) => before.push((n@, e@)),
            _ => before,
        }
    }
}

/// Whether resolving the author asks the hosting service.
pub open spec fn needs_author_fetch(c: Commit, usernames: Seq<(String, String)>, enabled: bool) -> bool {
    enabled && match c.author.email {
        Some(e) => lookup(usernames, e@) is None,
        None => false,
    }
}

/// The author's username that the cache holds, when resolution is enabled.
pub open spec fn cached_author(c: Commit, usernames: Seq<(String, String)>, enabled: bool) -> Option<
    Seq<char>,
> {
    if !enabled {
        None
    } else {
        match c.author.email {
            Some(e) => lookup(usernames, e@),
            None => None,
        }
    }
}

/// The pull request numbers that the end of a line of the message names.
pub open spec fn message_pull_requests(message: Seq<char>) -> Option<Seq<u32>> {
    match regex_capture(pr_reference(), message, 1) {
        Some(d) => if d.len() > 0 && (forall|i: int| 0 <= i < d.len() ==> is_ascii_digit(#[trigger] d[i]))
            && decimal(d) <= u32::MAX {
            Some(seq![decimal(d) as u32])
        } else {
            None
        },
        None => None,
    }
}

/// What resolving the co-authors needs next.
#[derive(Debug, Clone, Copy, PartialEq, Eq)]
pub enum CoauthorStep {
    /// Nothing: the co-authors are resolved, or there are none.
    Done,
    /// The pull requests associated with the commit.
    FetchPullRequests,
    /// The authors of the commits of each associated pull request.
    FetchPullRequestAuthors,
}

/// The decision of one co-author resolution step on `c`.
pub open spec fn coauthor_step(
    c: Commit,
    usernames: Seq<(String, String)>,
    cache: Seq<(CoauthorKey, Vec<String>)>,
) -> CoauthorStep {
    if c.coauthors@.len() == 0 {
        CoauthorStep::Done
    } else if cached_logins(c.coauthors@, usernames).len() == c.coauthors@.len() {
        CoauthorStep::Done
    } else if c.pull_requests is None {
        CoauthorStep::FetchPullRequests
    } else if key_lookup(cache, coauthor_key(c.coauthors@)) is Some {
        CoauthorStep::Done
    } else {
        CoauthorStep::FetchPullRequestAuthors
    }
}

/// The hosting usernames that one step gives the co-authors, if any.
pub open spec fn coauthor_logins(
    c: Commit,
    usernames: Seq<(String, String)>,
    cache: Seq<(CoauthorKey, Vec<String>)>,
) -> Option<Seq<Seq<char>>> {
    if c.coauthors@.len() == 0 {
        None
    } else if cached_logins(c.coauthors@, usernames).len() == c.coauthors@.len() {
        Some(cached_logins(c.coauthors@, usernames))
    } else if c.pull_requests is None {
        None
    } else {
        key_lookup(cache, coauthor_key(c.coauthors@))
    }
}

/// Resolves hosting usernames and pull requests of commits, remembering
/// what the hosting service said for the rest of the run. The network calls
/// are the caller's: each step says which one it needs.
pub struct Resolver {
    /// Hosting username by email.
    pub usernames: Vec<(String, String)>,
    /// Co-author usernames by co-author key.
    pub coauthors: Vec<(CoauthorKey, Vec<String>)>,
    /// The compiled pull request reference pattern.
    pub pr_pattern: Pattern,
}

impl Resolver {
    /// The pattern that finds pull request numbers in a message.
    pub open spec fn wf(&self) -> bool {
        self.pr_pattern@ == pr_reference()
    }

    /// A resolver with empty caches.
    pub fn new() -> (r: Result<Resolver, Error>)
        ensures
            r matches Ok(v) ==> v.wf() && v.usernames@.len() == 0 && v.coauthors@.len() == 0,
            regex_valid(pr_reference()) ==> r is Ok,
    {
        let pattern = Pattern::new("(?m)\\s\\(#(\\d+)\\)$");
        match pattern {
            Ok(p) => Ok(Resolver { usernames: Vec::new(), coauthors: Vec::new(), pr_pattern: p }),
            Err(e) => Err(e),
        }
    }

    /// Sets the author's hosting username from the cache. Returns whether
    /// the hosting service must be asked instead (see `author_fetched`).
    pub fn resolve_author(&self, commit: &mut Commit, enabled: bool) -> (r: bool)
        ensures
            r == needs_author_fetch(*old(commit), self.usernames@, enabled),
            cached_author(*old(commit), self.usernames@, enabled) is Some ==> (opt_string(
                final(commit).github_author,
            ) == cached_author(*old(commit), self.usernames@, enabled) && *final(commit) == (Commit {
                github_author: final(commit).github_author,
                ..*old(commit)
            })),
            cached_author(*old(commit), self.usernames@, enabled) is None ==> *final(commit)
                == *old(commit),
    {
        if !enabled {
            return false;
        }
        match &commit.author.email {
            Some(email) => {
                let found = find_value(&self.usernames, email);
                match found {
                    Some(u) => {
                        commit.github_author = Some(u);
                        false
                    },
                    None => true,
                }
            },
            None => false,
        }
    }

    /// Records the author's hosting username that the service gave, for this
    /// commit and for every later commit of the same email.
    pub fn author_fetched(&mut self, commit: &mut Commit, login: String)
        requires
            old(commit).author.email is Some,
        ensures
            opt_string(final(commit).github_author) == Some(login@),
            *final(commit) == (Commit { github_author: final(commit).github_author, ..*old(commit) }),
            final(self).usernames@ == old(self).usernames@.push(
                (old(commit).author.email.unwrap(), login),
            ),
            final(self).coauthors@ == old(self).coauthors@,
            final(self).wf() == old(self).wf(),
    {
        let email = match &commit.author.email {
            Some(e) => e.clone(),
            None => String::new(),
        };
        commit.github_author = Some(login.clone());
        self.usernames.push((email, login));
    }

    /// Sets the pull request numbers that the message names at the end of a
    /// line, or none.
    pub fn pull_requests_from_message(&self, commit: &mut Commit)
        requires
            self.wf(),
        ensures
            *final(commit) == (Commit { pull_requests: final(commit).pull_requests, ..*old(commit) }),
            match final(commit).pull_requests {
                Some(v) => Some(v@),
                None => None,
            } == message_pull_requests(old(commit).message@),
    {
        let digits = self.pr_pattern.capture(commit.message.as_str(), 1);
        commit.pull_requests = match digits {
            Some(d) => match parse_u32(d.as_str()) {
                Some(n) => {
                    let v = vec![n];
                    assert(v@ =~= seq![n]);
                    Some(v)
                },
                None => None,
            },
            None => None,
        };
    }
}

} // verus!

verus! {

fn logins_from_cache(coauthors: &Vec<Signature>, usernames: &Vec<(String, String)>) -> (r: Vec<String>)
    ensures
        names_view(r) == cached_logins(coauthors@, usernames@),
{
    let mut r: Vec<String> = Vec::new();
    let mut i: usize = 0;
    while i < coauthors.len()
        invariant
            i <= coauthors@.len(),
            names_view(r) == cached_logins(coauthors@.take(i as int), usernames@),
        decreases coauthors@.len() - i,
    {
        proof {
            assert(coauthors@.take(i + 1).drop_last() =~= coauthors@.take(i as int));
        }
        if let Some(e) = &coauthors[i].email {
            if let Some(l) = find_value(usernames, e) {
                let ghost before = r@;
                r.push(l);
                proof {
                    assert(names_view(r) =~= names_view_seq(before).push(l@));
                }
            }
        }
        i = i + 1;
    }
    proof {
        assert(coauthors@.take(i as int) =~= coauthors@);
    }
    r
}

pub open spec fn names_view_seq(v: Seq<String>) -> Seq<Seq<char>> {
    v.map_values(|s: String| s@)
}

fn key_of(coauthors: &Vec<Signature>) -> (r: CoauthorKey)
    ensures
        key_view(r) == coauthor_key(coauthors@),
{
    let mut r: CoauthorKey = Vec::new();
    let mut i: usize = 0;
    while i < coauthors.len()
        invariant
            i <= coauthors@.len(),
            key_view(r) == coauthor_key(coauthors@.take(i as int)),
        decreases coauthors@.len() - i,
    {
        proof {
            assert(coauthors@.take(i + 1).drop_last() =~= coauthors@.take(i as int));
        }
        if let (Some(n), Some(e)) = (&coauthors[i].name, &coauthors[i].email) {
            let ghost before = r@;
            r.push((n.clone(), e.clone()));
            proof {
                assert(key_view(r) =~= before.map_values(|p: (String, String)| (p.0@, p.1@)).push(
                    (n@, e@),
                ));
            }
        }
        i = i + 1;
    }
    proof {
        assert(coauthors@.take(i as int) =~= coauthors@);
    }
    r
}

fn keys_equal(a: &CoauthorKey, b: &CoauthorKey) -> (r: bool)
    ensures
        r == (key_view(*a) == key_view(*b)),
{
    if a.len() != b.len() {
        proof {
            assert(key_view(*a).len() != key_view(*b).len());
        }
        return false;
    }
    let mut i: usize = 0;
    while i < a.len()
        invariant
            i <= a@.len(),
            a@.len() == b@.len(),
            forall|j: int| 0 <= j < i ==> #[trigger] key_view(*a)[j] == key_view(*b)[j],
        decreases a@.len() - i,
    {
        if !(a[i].0 == b[i].0 && a[i].1 == b[i].1) {
            proof {
                assert(key_view(*a)[i as int] != key_view(*b)[i as int]);
            }
            return false;
        }
        i = i + 1;
    }
    proof {
        assert(key_view(*a) =~= key_view(*b));
    }
    true
}

fn find_key(cache: &Vec<(CoauthorKey, Vec<String>)>, key: &CoauthorKey) -> (r: Option<Vec<String>>)
    ensures
        match r {
            Some(v) => Some(names_view(v)),
            None => None,
        } == key_lookup(cache@, key_view(*key)),
{
    let mut i: usize = 0;
    while i < cache.len()
        invariant
            i <= cache@.len(),
            key_lookup(cache@.take(i as int), key_view(*key)) is None,
        decreases cache@.len() - i,
    {
        proof {
            assert(cache@.take(i + 1).drop_last() =~= cache@.take(i as int));
        }
        if keys_equal(&cache[i].0, key) {
            proof {
                lemma_key_lookup_prefix(cache@, key_view(*key), i + 1);
            }
            let names = copy_names(&cache[i].1);
            return Some(names);
        }
        i = i + 1;
    }
    proof {
        assert(cache@.take(i as int) =~= cache@);
    }
    None
}

fn copy_names(v: &Vec<String>) -> (r: Vec<String>)
    ensures
        r@ == v@,
{
    let mut r: Vec<String> = Vec::new();
    let mut i: usize = 0;
    while i < v.len()
        invariant
            i <= v@.len(),
            r@ == v@.take(i as int),
        decreases v@.len() - i,
    {
        r.push(v[i].clone());
        proof {
            assert(v@.take(i + 1) =~= v@.take(i as int).push(v@[i as int]));
        }
        i = i + 1;
    }
    proof {
        assert(v@.take(i as int) =~= v@);
    }
    r
}

proof fn lemma_key_lookup_prefix(
    cache: Seq<(CoauthorKey, Vec<String>)>,
    key: Seq<(Seq<char>, Seq<char>)>,
    n: int,
)
    requires
        0 <= n <= cache.len(),
        key_lookup(cache.take(n), key) is Some,
    ensures
        key_lookup(cache, key) == key_lookup(cache.take(n), key),
    decreases cache.len() - n,
{
    if n < cache.len() {
        assert(cache.take(n + 1).drop_last() =~= cache.take(n));
        lemma_key_lookup_prefix(cache, key, n + 1);
    } else {
        assert(cache.take(n) =~= cache);
    }
}

impl Resolver {
    /// One step of co-author resolution: sets the co-authors' usernames
    /// from the email cache when it knows them all, else from the co-author
    /// cache once the pull requests are known; otherwise says which answer of
    /// the hosting service is needed (see `pull_requests_fetched` and
    /// `pull_request_authors_fetched`).
    pub fn resolve_coauthors(&self, commit: &mut Commit) -> (r: CoauthorStep)
        ensures
            r == coauthor_step(*old(commit), self.usernames@, self.coauthors@),
            match coauthor_logins(*old(commit), self.usernames@, self.coauthors@) {
                Some(l) => final(commit).github_coauthors matches Some(v) && names_view(v) == l
                    && *final(commit) == (Commit {
                    github_coauthors: final(commit).github_coauthors,
                    ..*old(commit)
                }),
                None => *final(commit) == *old(commit),
            },
    {
        if commit.coauthors.len() == 0 {
            return CoauthorStep::Done;
        }
        let logins = logins_from_cache(&commit.coauthors, &self.usernames);
        if logins.len() == commit.coauthors.len() {
            commit.github_coauthors = Some(logins);
            return CoauthorStep::Done;
        }
        if commit.pull_requests.is_none() {
            return CoauthorStep::FetchPullRequests;
        }
        let key = key_of(&commit.coauthors);
        match find_key(&self.coauthors, &key) {
            Some(v) => {
                commit.github_coauthors = Some(v);
                CoauthorStep::Done
            },
            None => CoauthorStep::FetchPullRequestAuthors,
        }
    }

    /// Records the pull requests that the hosting service associates with
    /// the commit.
    pub fn pull_requests_fetched(&self, commit: &mut Commit, numbers: Vec<u32>)
        ensures
            *final(commit) == (Commit { pull_requests: Some(numbers), ..*old(commit) }),
    {
        commit.pull_requests = Some(numbers);
    }

    /// Records the usernames of the authors of the commit's pull requests as
    /// its co-authors, and caches them under its co-author key.
    pub fn pull_request_authors_fetched(&mut self, commit: &mut Commit, logins: Vec<String>)
        ensures
            final(commit).github_coauthors matches Some(v) && v@ == logins@,
            *final(commit) == (Commit {
                github_coauthors: final(commit).github_coauthors,
                ..*old(commit)
            }),
            final(self).usernames@ == old(self).usernames@,
            final(self).wf() == old(self).wf(),
            final(self).coauthors@.len() == old(self).coauthors@.len() + 1,
            final(self).coauthors@.drop_last() == old(self).coauthors@,
            key_view(final(self).coauthors@.last().0) == coauthor_key(old(commit).coauthors@),
            final(self).coauthors@.last().1@ == logins@,
    {
        let key = key_of(&commit.coauthors);
        let copy = copy_names(&logins);
        self.coauthors.push((key, copy));
        commit.github_coauthors = Some(logins);
        proof {
            assert(final(self).coauthors@.drop_last() =~= old(self).coauthors@);
        }
    }
}

/// The author of a commit is asked of the hosting service at most once per
/// email in a run: once its username is cached, no later commit of that
/// email needs the service, and caching other emails keeps it.
pub proof fn lemma_author_fetched_once(
    usernames: Seq<(String, String)>,
    email: String,
    login: String,
    later: Commit,
    more: Seq<(String, String)>,
)
    requires
        later.author.email matches Some(e) && e@ == email@,
    ensures
        !needs_author_fetch(later, usernames.push((email, login)) + more, true),
        cached_author(later, usernames.push((email, login)) + more, true) is Some,
    decreases more.len(),
{
    lemma_lookup_push(usernames, (email, login), email@);
    if more.len() > 0 {
        lemma_author_fetched_once(usernames, email, login, later, more.drop_last());
        assert(usernames.push((email, login)) + more =~= (usernames.push((email, login)) + more.drop_last()).push(more.last()));
        lemma_lookup_push(usernames.push((email, login)) + more.drop_last(), more.last(), email@);
    } else {
        assert(usernames.push((email, login)) + more =~= usernames.push((email, login)));
    }
}

} // verus!

verus! {

/// Whether the author of `c` has the email `e`.
pub open spec fn has_email(c: Commit, e: Seq<char>) -> bool {
    c.author.email matches Some(x) && x@ == e
}

/// Author resolution over the commits `cs` in turn, starting from the email
/// cache `cache`, where the `k`-th lookup of the hosting service answers
/// `logins[k]`: the final cache and the emails looked up, in order.
pub open spec fn author_run(cs: Seq<Commit>, cache: Seq<(String, String)>, logins: Seq<String>) -> (
    Seq<(String, String)>,
    Seq<Seq<char>>,
)
    decreases cs.len(),
{
    if cs.len() == 0 {
        (cache, Seq::empty())
    } else if needs_author_fetch(cs[0], cache, true) {
        let e = cs[0].author.email.unwrap();
        let rest = author_run(cs.drop_first(), cache.push((e, logins[0])), logins.drop_first());
        (rest.0, seq![e@] + rest.1)
    } else {
        author_run(cs.drop_first(), cache, logins)
    }
}

/// In a run of author resolutions the hosting service is asked at most once
/// per email: the emails it is asked about are all different, each is the
/// email of one of the commits, and none was cached before the run. So there
/// are no more lookups than distinct author emails.
pub proof fn lemma_author_lookups_distinct(
    cs: Seq<Commit>,
    cache: Seq<(String, String)>,
    logins: Seq<String>,
)
    ensures
        author_run(cs, cache, logins).1.no_duplicates(),
        forall|i: int|
            0 <= i < author_run(cs, cache, logins).1.len() ==> lookup(
                cache,
                #[trigger] author_run(cs, cache, logins).1[i],
            ) is None && exists|k: int|
                0 <= k < cs.len() && has_email(cs[k], author_run(cs, cache, logins).1[i]),
        author_run(cs, cache, logins).1.len() <= cs.len(),
    decreases cs.len(),
{
    if cs.len() > 0 {
        let tail = cs.drop_first();
        if needs_author_fetch(cs[0], cache, true) {
            let e = cs[0].author.email.unwrap();
            let c2 = cache.push((e, logins[0]));
            lemma_author_lookups_distinct(tail, c2, logins.drop_first());
            let fe = author_run(tail, c2, logins.drop_first()).1;
            let all = seq![e@] + fe;
            assert(author_run(cs, cache, logins).1 == all);
            lemma_lookup_push(cache, (e, logins[0]), e@);
            assert forall|i: int| 0 <= i < fe.len() implies lookup(cache, #[trigger] fe[i]) is None
                && fe[i] != e@ by {
                lemma_lookup_push(cache, (e, logins[0]), fe[i]);
            }
            assert forall|i: int| 0 <= i < all.len() implies lookup(cache, #[trigger] all[i]) is None
                && exists|k: int| 0 <= k < cs.len() && has_email(cs[k], all[i]) by {
                if i == 0 {
                    assert(has_email(cs[0], all[0]));
                } else {
                    assert(all[i] == fe[i - 1]);
                    let k = choose|k: int|
                        0 <= k < tail.len() && has_email(tail[k], fe[i - 1]);
                    assert(cs[k + 1] == tail[k]);
                }
            }
            assert(all.no_duplicates()) by {
                assert forall|i: int, j: int| 0 <= i < all.len() && 0 <= j < all.len() && i != j implies all[i]
                    != all[j] by {
                    if i == 0 {
                        assert(all[j] == fe[j - 1]);
                    } else if j == 0 {
                        assert(all[i] == fe[i - 1]);
                    } else {
                        assert(all[i] == fe[i - 1] && all[j] == fe[j - 1]);
                    }
                }
            }
        } else {
            lemma_author_lookups_distinct(tail, cache, logins);
            let fe = author_run(tail, cache, logins).1;
            assert forall|i: int| 0 <= i < fe.len() implies exists|k: int|
                0 <= k < cs.len() && has_email(cs[k], #[trigger] fe[i]) by {
                let k = choose|k: int|
                    0 <= k < tail.len() && has_email(tail[k], fe[i]);
                assert(cs[k + 1] == tail[k]);
            }
        }
    }
}

} // verus!
