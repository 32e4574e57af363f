use cliff_core::commit::Commit;
use cliff_core::error::Error;
use cliff_core::release::Release;
use cliff_core::template::Template;
use cliff_core::commit::Signature;
use cliff_core::github::Resolver;
use cliff_core::text::{lines, upper_first};

fn release(version: Option<&str>, commits: Vec<Commit>) -> Release {
    Release {
        version: version.map(String::from),
        commit_id: None,
        timestamp: 0,
        commits,
        previous: None,
    }
}

fn conv(id: &str, message: &str) -> Commit {
    Commit::new(String::from(id), String::from(message)).into_conventional().unwrap()
}

#[test]
fn default_layout_groups_in_order() {
    let r = release(
        Some("1.0"),
        vec![conv("123123", "feat(xyz): add xyz"), conv("124124", "fix(abc): fix abc")],
    );
    let out = Template::render_default(&r, None).unwrap();
    assert_eq!(
        out,
        "## [1.0] - 1970-01-01\n\n### feat\n\n#### - Xyz\n\n- `123123` Add xyz\n\n---\n\n\
         ### fix\n\n#### - Abc\n\n- `124124` Fix abc\n\n---\n\n\
         _This changelog is generated by [pretty-changelog](https://github.com/chachako/pretty-changelog)\n---\n\n"
    );
}

#[test]
fn default_layout_with_repository() {
    let mut c = conv("0123456789", "fix: Thing\n\nline one\nline two");
    c.github_author = Some(String::from("bob"));
    c.pull_requests = Some(vec![12]);
    let mut r = release(Some("v2.0"), vec![conv("abcdefghij", "feat: b"), c]);
    r.previous = Some(Box::new(release(Some("v1.0"), vec![])));
    let out = Template::render_default(&r, Some(String::from("me/proj"))).unwrap();
    assert_eq!(
        out,
        "## [2.0] - 1970-01-01\n\n### feat\n- [`abcdefg`](https://github.com/me/proj/commit/abcdefghij) B\n\n---\n\n\
         ### fix\n- [`0123456`](https://github.com/me/proj/commit/0123456789) Thing by \
         [@bob](https://github.com/bob) in [#12](https://github.com/me/proj/pull/12)\n  \u{3000}\n  > line one\n  > line two\n\n---\n\n\
         _This changelog is generated by [pretty-changelog](https://github.com/chachako/pretty-changelog),_\n\
         _**You can also view the full changes: https://github.com/me/proj/compare/v1.0..v2.0**_\n\n---\n\n"
    );
}

#[test]
fn owner_alone_is_not_credited_and_squash_bodies_are_not_quoted() {
    let mut c = conv("1234567", "feat: x\n\n* squashed commit");
    c.github_author = Some(String::from("me"));
    let out = Template::render_default(&release(None, vec![c]), Some(String::from("me/proj"))).unwrap();
    assert!(out.starts_with("## [Unreleased]\n\n### feat\n- [`1234567`](https://github.com/me/proj/commit/1234567) X\n\n---\n\n"));
    assert!(out.contains("commits/HEAD"));
}

#[test]
fn group_names_lose_numeric_prefix_and_scopes_are_split() {
    let mut a = Commit::new(String::from("1"), String::from("plain message"));
    a.group = Some(String::from("02. Fixes"));
    a.scope = Some(String::from("ui, core"));
    let mut b = Commit::new(String::from("2"), String::from("other"));
    b.group = Some(String::from("01. Features"));
    let ungrouped = Commit::new(String::from("3"), String::from("dropped"));
    let out = Template::render_default(&release(None, vec![a, b, ungrouped]), None).unwrap();
    assert_eq!(
        out,
        "## [Unreleased]\n\n### Features\n- `2` Other\n\n---\n\n### Fixes\n\n#### - Ui, Core\n\n- `1` Plain message\n\n---\n\n\
         _This changelog is generated by [pretty-changelog](https://github.com/chachako/pretty-changelog)\n---\n\n"
    );
}

#[test]
fn date_out_of_range_is_an_error() {
    let mut r = release(Some("1.0"), vec![]);
    r.timestamp = i64::MAX;
    assert_eq!(Template::render_default(&r, None), Err(Error::DateError(i64::MAX)));
}

#[test]
fn upper_first_letter() {
    assert_eq!(upper_first("add xyz"), "Add xyz");
    assert_eq!(upper_first(""), "");
    assert_eq!(upper_first("ßx"), "SSx");
}

#[test]
fn date_range_edges() {
    let mut r = release(Some("1.0"), vec![]);
    r.timestamp = -8334601228800;
    assert!(Template::render_default(&r, None).unwrap().starts_with("## [1.0] - -262143-01-01\n"));
    r.timestamp = -8334601228801;
    assert_eq!(Template::render_default(&r, None), Err(Error::DateError(-8334601228801)));
    r.timestamp = 8210266876799;
    assert!(Template::render_default(&r, None).unwrap().starts_with("## [1.0] - +262142-12-31\n"));
    r.timestamp = 8210266876800;
    assert_eq!(Template::render_default(&r, None), Err(Error::DateError(8210266876800)));
}

#[test]
fn unreleased_renders_whatever_the_timestamp() {
    let mut r = release(None, vec![]);
    r.timestamp = i64::MIN;
    assert_eq!(
        Template::render_default(&r, None).unwrap(),
        "## [Unreleased]\n\n_This changelog is generated by [pretty-changelog](https://github.com/chachako/pretty-changelog)\n---\n\n"
    );
}

#[test]
fn lines_drop_endings() {
    assert_eq!(lines("a\r\nb\n\nc\n"), vec!["a", "b", "", "c"]);
    assert_eq!(lines("x\r"), vec!["x\r"]);
    assert!(lines("").is_empty());
    assert_eq!(lines("\n"), vec![""]);
}

#[test]
fn author_lookups_follow_the_cache() {
    let mut r = Resolver::new().unwrap();
    let mut lookups = 0;
    for (i, email) in ["a@x", "b@x", "a@x", "b@x", "a@x"].iter().enumerate() {
        let mut c = Commit::new(format!("{i}"), String::from("feat: x"));
        c.author = Signature { name: None, email: Some(String::from(*email)), timestamp: 0 };
        if r.resolve_author(&mut c, true) {
            lookups += 1;
            r.author_fetched(&mut c, format!("user-{email}"));
        }
        assert_eq!(c.github_author, Some(format!("user-{email}")));
    }
    assert_eq!(lookups, 2);
}
