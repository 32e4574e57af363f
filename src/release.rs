use vstd::prelude::*;
use crate::commit::{commit_same, Commit};
use crate::error::Error;
use crate::pattern::{regex_matches, Pattern};
use crate::text::{find_value, lookup, trim, trimmed};

verus! {

/// The commits between two tags, or after the last one.
#[derive(Debug, PartialEq, Eq)]
pub struct Release {
    /// Tag name of the release; none for unreleased commits.
    pub version: Option<String>,
    /// Id of the commit the tag points to.
    pub commit_id: Option<String>,
    /// Time of the tagged commit, in seconds since the epoch.
    pub timestamp: i64,
    /// The commits of the release.
    pub commits: Vec<Commit>,
    /// The release before this one, without its own previous release.
    pub previous: Option<Box<Release>>,
}

/// A release without its link to the previous one.
pub struct ReleaseModel {
    pub version: Option<Seq<char>>,
    pub commit_id: Option<Seq<char>>,
    pub timestamp: i64,
    pub commits: Seq<Commit>,
}

pub open spec fn empty_model() -> ReleaseModel {
    ReleaseModel { version: None, commit_id: None, timestamp: 0, commits: Seq::empty() }
}

pub open spec fn opt_str(o: Option<String>) -> Option<Seq<char>> {
    match o {
        Some(s) => Some(s@),
        None => None,
    }
}

/// Whether two lists hold the same commits, one by one.
pub open spec fn commits_same(a: Seq<Commit>, b: Seq<Commit>) -> bool {
    &&& a.len() == b.len()
    &&& forall|i: int| 0 <= i < a.len() ==> commit_same(#[trigger] a[i], b[i])
}

/// Whether `r` holds what `m` describes; its commits are the ones of `m`
/// themselves when `exact`, copies of them otherwise.
pub open spec fn release_is(r: Release, m: ReleaseModel, exact: bool) -> bool {
    &&& opt_str(r.version) == m.version
    &&& opt_str(r.commit_id) == m.commit_id
    &&& r.timestamp == m.timestamp
    &&& if exact {
        r.commits@ == m.commits
    } else {
        commits_same(r.commits@, m.commits)
    }
}

/// The state of bucketing: the finished releases, the previous release of
/// each, the commits of the release in progress, and the last finished
/// release.
pub struct Buckets {
    pub releases: Seq<ReleaseModel>,
    pub previous: Seq<ReleaseModel>,
    pub current: Seq<Commit>,
    pub last: ReleaseModel,
}

/// Bucketing of `commits`, oldest first: each commit joins the release in
/// progress (at the front when `newest_first`), and a tagged commit closes it.
pub open spec fn buckets(commits: Seq<Commit>, tags: Seq<(String, String)>, newest_first: bool) -> Buckets
    decreases commits.len(),
{
    if commits.len() == 0 {
        Buckets { releases: Seq::empty(), previous: Seq::empty(), current: Seq::empty(), last: empty_model() }
    } else {
        let s = buckets(commits.drop_last(), tags, newest_first);
        let c = commits.last();
        let cur = if newest_first {
            seq![c] + s.current
        } else {
            s.current.push(c)
        };
        match lookup(tags, c.id@) {
            None => Buckets { current: cur, ..s },
            Some(t) => {
                let done = ReleaseModel {
                    version: Some(t),
                    commit_id: Some(c.id@),
                    timestamp: c.committer.timestamp,
                    commits: cur,
                };
                Buckets {
                    releases: s.releases.push(done),
                    previous: s.previous.push(s.last),
                    current: Seq::empty(),
                    last: done,
                }
            },
        }
    }
}

/// The release that stands for the second-to-last tag, when there are two
/// tags or more.
pub open spec fn lookback(tags: Seq<(String, String)>) -> Option<ReleaseModel> {
    if tags.len() >= 2 {
        Some(
            ReleaseModel {
                version: Some(tags[tags.len() - 2].1@),
                commit_id: Some(tags[tags.len() - 2].0@),
                timestamp: 0,
                commits: Seq::empty(),
            },
        )
    } else {
        None
    }
}

/// The previous release that bucketing gives the release at `k`.
pub open spec fn previous_of(b: Buckets, tags: Seq<(String, String)>, k: int) -> Option<ReleaseModel> {
    if k == 0 && lookback(tags) is Some {
        lookback(tags)
    } else if k < b.releases.len() {
        Some(b.previous[k])
    } else {
        None
    }
}

/// Whether `r` is the release at `k` of the bucketing `b`, whose trailing
/// release also holds `extra`.
pub open spec fn bucket_is(
    r: Release,
    b: Buckets,
    tags: Seq<(String, String)>,
    extra: Seq<Commit>,
    k: int,
) -> bool {
    &&& if k < b.releases.len() {
        release_is(r, b.releases[k], true)
    } else {
        release_is(r, ReleaseModel { commits: b.current + extra, ..empty_model() }, true)
    }
    &&& match previous_of(b, tags, k) {
        Some(p) => r.previous matches Some(q) && release_is(*q, p, false) && q.previous is None,
        None => r.previous is None,
    }
}

impl Release {
    /// A release with no version, no commits and no previous release.
    pub fn empty() -> (r: Release)
        ensures
            release_is(r, empty_model(), true),
            r.previous is None,
    {
        Release { version: None, commit_id: None, timestamp: 0, commits: Vec::new(), previous: None }
    }

    /// A copy of the release without its previous release.
    pub fn copy_without_previous(&self) -> (r: Release)
        ensures
            opt_str(r.version) == opt_str(self.version),
            opt_str(r.commit_id) == opt_str(self.commit_id),
            r.timestamp == self.timestamp,
            commits_same(r.commits@, self.commits@),
            r.previous is None,
    {
        let mut commits: Vec<Commit> = Vec::new();
        let mut i: usize = 0;
        while i < self.commits.len()
            invariant
                i <= self.commits@.len(),
                commits_same(commits@, self.commits@.take(i as int)),
            decreases self.commits@.len() - i,
        {
            commits.push(self.commits[i].copy());
            i = i + 1;
        }
        proof {
            assert(self.commits@.take(i as int) =~= self.commits@);
        }
        Release {
            version: match &self.version {
                Some(v) => Some(v.clone()),
                None => None,
            },
            commit_id: match &self.commit_id {
                Some(v) => Some(v.clone()),
                None => None,
            },
            timestamp: self.timestamp,
            commits,
            previous: None,
        }
    }
}

/// Splits `commits`, oldest first, into releases: a commit that `tags` names
/// closes the release that holds it and the commits before it, and the
/// commits after the last tag, followed by `extra`, form a trailing release
/// without a version. Each closed release refers to the one closed before it
/// (an empty one for the first); the first release refers to the release of
/// the second-to-last tag when there are two tags or more.
pub fn bucket_releases(
    commits: Vec<Commit>,
    tags: &Vec<(String, String)>,
    newest_first: bool,
    extra: Vec<Commit>,
) -> (r: Vec<Release>)
    ensures
        r@.len() == buckets(commits@, tags@, newest_first).releases.len() + 1,
        forall|k: int|
            0 <= k < r@.len() ==> bucket_is(
                #[trigger] r@[k],
                buckets(commits@, tags@, newest_first),
                tags@,
                extra@,
                k,
            ),
{
    let n = commits.len();
    let ghost all = commits@;
    let mut rest: Vec<Commit> = Vec::new();
    let mut source = commits;
    while source.len() > 0
        invariant
            source@.len() + rest@.len() == n,
            n == all.len(),
            forall|j: int| 0 <= j < source@.len() ==> source@[j] == all[j],
            forall|j: int| 0 <= j < rest@.len() ==> rest@[j] == all[n - 1 - j],
        decreases source@.len(),
    {
        let c = source.pop().unwrap();
        rest.push(c);
    }
    let lookback_release = if tags.len() >= 2 {
        let k = tags.len() - 2;
        Some(
            Release {
                version: Some(tags[k].1.clone()),
                commit_id: Some(tags[k].0.clone()),
                timestamp: 0,
                commits: Vec::new(),
                previous: None,
            },
        )
    } else {
        None
    };
    let mut releases: Vec<Release> = Vec::new();
    let mut current: Vec<Commit> = Vec::new();
    let mut last = Release::empty();
    let mut i: usize = 0;
    while i < n
        invariant
            i <= n,
            n == all.len(),
            rest@.len() == n - i,
            forall|j: int| 0 <= j < rest@.len() ==> rest@[j] == all[n - 1 - j],
            match lookback_release {
                Some(lb) => lookback(tags@) matches Some(m) && release_is(lb, m, false) && lb.previous is None,
                None => lookback(tags@) is None,
            },
            ({
                let b = buckets(all.take(i as int), tags@, newest_first);
                &&& releases@.len() == b.releases.len()
                &&& b.previous.len() == b.releases.len()
                &&& current@ == b.current
                &&& release_is(last, b.last, false)
                &&& forall|k: int|
                    0 <= k < releases@.len() ==> release_is(#[trigger] releases@[k], b.releases[k], true)
                        && match previous_of(b, tags@, k) {
                            Some(p) => releases@[k].previous matches Some(q) && release_is(*q, p, false) && q.previous is None,
                            None => false,
                        }
            }),
        decreases n - i,
    {
        let c = rest.pop().unwrap();
        let ghost cg = c;
        let ghost b0 = buckets(all.take(i as int), tags@, newest_first);
        proof {
            assert(all.take(i + 1).drop_last() =~= all.take(i as int));
            assert(all.take(i + 1).last() == c);
        }
        let tag = find_value(tags, &c.id);
        let id = c.id.clone();
        let timestamp = c.committer.timestamp;
        if newest_first {
            current.insert(0, c);
            proof {
                assert(current@ =~= seq![c] + b0.current);
            }
        } else {
            current.push(c);
        }
        if let Some(t) = tag {
            let previous = if releases.len() == 0 && lookback_release.is_some() {
                match &lookback_release {
                    Some(lb) => lb.copy_without_previous(),
                    None => last.copy_without_previous(),
                }
            } else {
                last.copy_without_previous()
            };
            let done = Release {
                version: Some(t),
                commit_id: Some(id),
                timestamp,
                commits: current,
                previous: Some(Box::new(previous)),
            };
            last = done.copy_without_previous();
            releases.push(done);
            current = Vec::new();
            proof {
                let b1 = buckets(all.take(i + 1), tags@, newest_first);
                let done_model = ReleaseModel {
                    version: Some(t@),
                    commit_id: Some(cg.id@),
                    timestamp: cg.committer.timestamp,
                    commits: releases@.last().commits@,
                };
                assert(b1.releases == b0.releases.push(done_model));
                assert(b1.previous == b0.previous.push(b0.last));
                assert forall|k: int| 0 <= k < releases@.len() implies release_is(
                    #[trigger] releases@[k],
                    b1.releases[k],
                    true,
                ) && match previous_of(b1, tags@, k) {
                    Some(p) => releases@[k].previous matches Some(q) && release_is(*q, p, false) && q.previous is None,
                    None => false,
                } by {
                    if k < releases@.len() - 1 {
                        assert(k < b0.releases.len());
                        assert(b1.previous[k] == b0.previous[k]);
                        assert(b1.releases[k] == b0.releases[k]);
                        assert(previous_of(b1, tags@, k) == previous_of(b0, tags@, k));
                    }
                }
            }
        }
        i = i + 1;
    }
    proof {
        assert(all.take(n as int) =~= all);
    }
    let mut extra = extra;
    current.append(&mut extra);
    let previous = if releases.len() == 0 {
        match lookback_release {
            Some(lb) => Some(Box::new(lb)),
            None => None,
        }
    } else {
        None
    };
    releases.push(
        Release { version: None, commit_id: None, timestamp: 0, commits: current, previous },
    );
    releases
}

} // verus!

verus! {

/// With one tag on the middle one of three commits, bucketing gives one
/// release of the first two commits, whose previous release is the empty
/// one, followed by the third commit as unreleased work.
pub proof fn lemma_one_tag_two_buckets(c1: Commit, c2: Commit, c3: Commit, tags: Seq<(String, String)>)
    requires
        tags.len() == 1,
        tags[0].0@ == c2.id@,
        c1.id@ != c2.id@,
        c3.id@ != c2.id@,
    ensures
        buckets(seq![c1, c2, c3], tags, false).releases == seq![
            ReleaseModel {
                version: Some(tags[0].1@),
                commit_id: Some(c2.id@),
                timestamp: c2.committer.timestamp,
                commits: seq![c1, c2],
            },
        ],
        buckets(seq![c1, c2, c3], tags, false).previous == seq![empty_model()],
        buckets(seq![c1, c2, c3], tags, false).current == seq![c3],
        lookback(tags) is None,
{
    assert(tags.drop_last() =~= Seq::<(String, String)>::empty());
    assert(lookup(tags.drop_last(), c1.id@) is None);
    assert(lookup(tags.drop_last(), c2.id@) is None);
    assert(lookup(tags.drop_last(), c3.id@) is None);
    assert(tags.last() == tags[0]);
    assert(lookup(tags, c1.id@) is None);
    assert(lookup(tags, c2.id@) == Some(tags[0].1@));
    assert(lookup(tags, c3.id@) is None);
    let s1 = seq![c1];
    let s2 = seq![c1, c2];
    let s3 = seq![c1, c2, c3];
    assert(s1.drop_last() =~= Seq::<Commit>::empty());
    assert(s2.drop_last() =~= s1);
    assert(s3.drop_last() =~= s2);
    let b0 = buckets(Seq::<Commit>::empty(), tags, false);
    assert(b0.current.len() == 0 && b0.releases.len() == 0 && b0.previous.len() == 0);
    assert(s1.last() == c1);
    assert(s2.last() == c2);
    assert(s3.last() == c3);
    let b1 = buckets(s1, tags, false);
    assert(b0.current.push(c1) =~= seq![c1]);
    assert(b1.current =~= seq![c1]);
    assert(b1.releases.len() == 0);
    let b2 = buckets(s2, tags, false);
    assert(b1.current.push(c2) =~= seq![c1, c2]);
    assert(b2.releases =~= seq![
        ReleaseModel {
            version: Some(tags[0].1@),
            commit_id: Some(c2.id@),
            timestamp: c2.committer.timestamp,
            commits: seq![c1, c2],
        },
    ]);
    assert(b2.previous =~= seq![empty_model()]);
    let b3 = buckets(s3, tags, false);
    assert(b3.current =~= seq![c3]);
}

} // verus!

verus! {

/// Whether a tag stays: a skip pattern (one that is not empty) matches it, or
/// no ignore pattern (one that is not blank) does.
pub open spec fn tag_kept(name: Seq<char>, skip: Option<Seq<char>>, ignore: Option<Seq<char>>) -> bool {
    let skipped = match skip {
        Some(p) => p.len() > 0 && regex_matches(p, name),
        None => false,
    };
    let ignored = match ignore {
        Some(p) => trimmed(p).len() > 0 && regex_matches(p, name),
        None => false,
    };
    skipped || !ignored
}

pub open spec fn pattern_view(p: Option<&Pattern>) -> Option<Seq<char>> {
    match p {
        Some(x) => Some(x@),
        None => None,
    }
}

/// The tags, in order, that `tag_kept` keeps.
pub open spec fn kept_tags(
    tags: Seq<(String, String)>,
    skip: Option<Seq<char>>,
    ignore: Option<Seq<char>>,
) -> Seq<(String, String)>
    decreases tags.len(),
{
    if tags.len() == 0 {
        Seq::empty()
    } else {
        let before = kept_tags(tags.drop_last(), skip, ignore);
        if tag_kept(tags.last().1@, skip, ignore) {
            before.push(tags.last())
        } else {
            before
        }
    }
}

/// Drops the tags that an ignore pattern matches, unless a skip pattern
/// matches them too: the commits of skipped tags are dropped later, so their
/// tags stay. An empty skip pattern and a blank ignore pattern count as none.
pub fn filter_tags(tags: Vec<(String, String)>, skip: Option<&Pattern>, ignore: Option<&Pattern>) -> (r: Vec<
    (String, String),
>)
    ensures
        r@ == kept_tags(tags@, pattern_view(skip), pattern_view(ignore)),
{
    let ghost all = tags@;
    let n = tags.len();
    let mut rest: Vec<(String, String)> = Vec::new();
    let mut source = tags;
    while source.len() > 0
        invariant
            source@.len() + rest@.len() == n,
            n == all.len(),
            forall|j: int| 0 <= j < source@.len() ==> source@[j] == all[j],
            forall|j: int| 0 <= j < rest@.len() ==> rest@[j] == all[n - 1 - j],
        decreases source@.len(),
    {
        let t = source.pop().unwrap();
        rest.push(t);
    }
    let mut kept: Vec<(String, String)> = Vec::new();
    let mut i: usize = 0;
    while i < n
        invariant
            i <= n,
            n == all.len(),
            rest@.len() == n - i,
            forall|j: int| 0 <= j < rest@.len() ==> rest@[j] == all[n - 1 - j],
            kept@ == kept_tags(all.take(i as int), pattern_view(skip), pattern_view(ignore)),
        decreases n - i,
    {
        let t = rest.pop().unwrap();
        proof {
            assert(all.take(i + 1).drop_last() =~= all.take(i as int));
            assert(all.take(i + 1).last() == t);
        }
        let skipped = match skip {
            Some(p) => p.as_str().unicode_len() > 0 && p.is_match(t.1.as_str()),
            None => false,
        };
        let ignored = match ignore {
            Some(p) => trim(p.as_str()).as_str().unicode_len() > 0 && p.is_match(t.1.as_str()),
            None => false,
        };
        if skipped || !ignored {
            kept.push(t);
        }
        i = i + 1;
    }
    proof {
        assert(all.take(n as int) =~= all);
    }
    kept
}

/// Gives the commit `commit_id` the tag `name`, unless it has a tag already.
pub fn add_tag(tags: &mut Vec<(String, String)>, commit_id: String, name: String)
    ensures
        lookup(old(tags)@, commit_id@) is Some ==> final(tags)@ == old(tags)@,
        lookup(old(tags)@, commit_id@) is None ==> final(tags)@ == old(tags)@.push((commit_id, name)),
{
    if find_value(tags, &commit_id).is_none() {
        tags.push((commit_id, name));
    }
}

} // verus!

verus! {

/// The index of the first tag named `name`.
pub open spec fn index_of_name(tags: Seq<(String, String)>, name: Seq<char>) -> Option<int>
    decreases tags.len(),
{
    if tags.len() == 0 {
        None
    } else {
        match index_of_name(tags.drop_last(), name) {
            Some(i) => Some(i),
            None => if tags.last().1@ == name {
                Some(tags.len() - 1)
            } else {
                None
            },
        }
    }
}

/// `a..b`.
pub open spec fn span(a: Seq<char>, b: Seq<char>) -> Seq<char> {
    a + ".."@ + b
}

/// The range of commits to read, or none when the current commit has no
/// tag although the current release was asked for.
pub open spec fn range_spec(
    tags: Seq<(String, String)>,
    range: Option<Seq<char>>,
    unreleased: bool,
    latest: bool,
    current: bool,
    current_tag: Option<Seq<char>>,
    oldest_commit: Option<Seq<char>>,
) -> Option<Option<Seq<char>>> {
    if unreleased {
        if tags.len() > 0 {
            Some(Some(span(tags.last().0@, "HEAD"@)))
        } else {
            Some(range)
        }
    } else if latest || current {
        if tags.len() < 2 {
            match oldest_commit {
                Some(o) => if tags.len() > 0 {
                    Some(Some(span(o, tags[0].0@)))
                } else {
                    Some(range)
                },
                None => Some(range),
            }
        } else if current {
            match current_tag {
                Some(name) => match index_of_name(tags, name) {
                    Some(k) => if k >= 1 {
                        Some(Some(span(tags[k - 1].0@, tags[k].0@)))
                    } else {
                        Some(range)
                    },
                    None => None,
                },
                None => None,
            }
        } else {
            Some(Some(span(tags[tags.len() - 2].0@, tags[tags.len() - 1].0@)))
        }
    } else {
        Some(range)
    }
}

fn span_exec(a: &String, b: &str) -> (r: String)
    ensures
        r@ == span(a@, b@),
{
    let mut s = a.clone();
    s.append("..");
    s.append(b);
    s
}

fn index_of_name_exec(tags: &Vec<(String, String)>, name: &String) -> (r: Option<usize>)
    ensures
        match r {
            Some(i) => Some(i as int),
            None => None,
        } == index_of_name(tags@, name@),
        r matches Some(i) ==> i < tags@.len(),
{
    let mut i: usize = 0;
    while i < tags.len()
        invariant
            i <= tags@.len(),
            index_of_name(tags@.take(i as int), name@) is None,
        decreases tags@.len() - i,
    {
        proof {
            assert(tags@.take(i + 1).drop_last() =~= tags@.take(i as int));
        }
        if tags[i].1 == *name {
            proof {
                lemma_index_prefix(tags@, name@, i + 1);
            }
            return Some(i);
        }
        i = i + 1;
    }
    proof {
        assert(tags@.take(i as int) =~= tags@);
    }
    None
}

proof fn lemma_index_prefix(tags: Seq<(String, String)>, name: Seq<char>, n: int)
    requires
        0 <= n <= tags.len(),
        index_of_name(tags.take(n), name) is Some,
    ensures
        index_of_name(tags, name) == index_of_name(tags.take(n), name),
    decreases tags.len() - n,
{
    if n < tags.len() {
        assert(tags.take(n + 1).drop_last() =~= tags.take(n));
        lemma_index_prefix(tags, name, n + 1);
    } else {
        assert(tags.take(n) =~= tags);
    }
}

/// The range of commits to read: after the last tag for unreleased work;
/// between the last two tags (or the oldest commit and the only tag) for the
/// latest release; between the tag of the current commit and the one before
/// for the current release; else the given range.
pub fn commit_range(
    tags: &Vec<(String, String)>,
    range: Option<String>,
    unreleased: bool,
    latest: bool,
    current: bool,
    current_tag: Option<String>,
    oldest_commit: Option<String>,
) -> (r: Result<Option<String>, Error>)
    ensures
        match range_spec(tags@, opt_str(range), unreleased, latest, current, opt_str(current_tag), opt_str(oldest_commit)) {
            Some(x) => r matches Ok(y) && opt_str(y) == x,
            None => r matches Err(Error::ChangelogError(_)),
        },
{
    let n = tags.len();
    if unreleased {
        if n > 0 {
            return Ok(Some(span_exec(&tags[n - 1].0, "HEAD")));
        }
        return Ok(range);
    }
    if !(latest || current) {
        return Ok(range);
    }
    if n < 2 {
        if let Some(o) = &oldest_commit {
            if n > 0 {
                return Ok(Some(span_exec(o, tags[0].0.as_str())));
            }
        }
        return Ok(range);
    }
    if current {
        let k = match &current_tag {
            Some(name) => index_of_name_exec(tags, name),
            None => None,
        };
        return match k {
            Some(k) => if k >= 1 {
                Ok(Some(span_exec(&tags[k - 1].0, tags[k].0.as_str())))
            } else {
                Ok(range)
            },
            None => Err(Error::ChangelogError(String::from_str("No tag exists for the current commit"))),
        };
    }
    Ok(Some(span_exec(&tags[n - 2].0, tags[n - 1].0.as_str())))
}

} // verus!
