use jay::forgejo::{named_branch, pr_url, Forgejo};
use jay::json::read_json;

fn client() -> Forgejo {
    Forgejo::from_env(Some("secret".into()), Some("https://forge.example.com//".into())).unwrap()
}

#[test]
fn parse_repo_handles_ssh_and_http_urls() {
    assert_eq!(
        Forgejo::parse_repo("ssh://forgejo@forgejo.example.com:2222/example-owner/jay.git"),
        Some(("example-owner".to_string(), "jay".to_string()))
    );
    assert_eq!(
        Forgejo::parse_repo("git@host:example-owner/jay.git"),
        Some(("example-owner".to_string(), "jay".to_string()))
    );
    assert_eq!(
        Forgejo::parse_repo("http://forgejo.example.com:3000/example-owner/jay.git"),
        Some(("example-owner".to_string(), "jay".to_string()))
    );
    assert_eq!(
        Forgejo::parse_repo("https://forgejo.example.com/example-owner/jay"),
        Some(("example-owner".to_string(), "jay".to_string()))
    );
}

#[test]
fn parse_repo_rejects_non_urls() {
    assert_eq!(Forgejo::parse_repo("/local/path/jay"), None);
    assert_eq!(Forgejo::parse_repo(""), None);
    assert_eq!(Forgejo::parse_repo("justrepo"), None);
}

#[test]
fn parse_repo_takes_the_last_two_parts() {
    assert_eq!(
        Forgejo::parse_repo(" https://h/a//b/c.git/ "),
        Some(("b".to_string(), "c".to_string()))
    );
    assert_eq!(Forgejo::parse_repo("https://h/only"), None);
    assert_eq!(Forgejo::parse_repo("https://host"), None);
}

#[test]
fn forgejo_requires_an_explicit_url_even_when_token_is_present() {
    assert!(Forgejo::from_env(Some("t".into()), None).is_none());
    assert!(Forgejo::from_env(Some("t".into()), Some(" ".into())).is_none());
    assert!(Forgejo::from_env(None, Some("https://h".into())).is_none());
    assert!(Forgejo::from_env(Some("".into()), Some("https://h".into())).is_none());
    assert!(Forgejo::from_env(Some("t".into()), Some("https://h".into())).is_some());
}

#[test]
fn requests_carry_address_and_token() {
    let c = client();
    assert_eq!(
        c.repo_url("o", "r"),
        "https://forge.example.com/api/v1/repos/o/r"
    );
    assert_eq!(
        c.pulls_url("o", "r"),
        "https://forge.example.com/api/v1/repos/o/r/pulls"
    );
    assert_eq!(c.authorization(), "token secret");
    let p = Forgejo::pr_payload("head", "main", "title", "body");
    assert_eq!(p.get("head").unwrap().as_text(), Some("head"));
    assert_eq!(p.get("base").unwrap().as_text(), Some("main"));
    assert_eq!(p.get("title").unwrap().as_text(), Some("title"));
    assert_eq!(p.get("body").unwrap().as_text(), Some("body"));
}

#[test]
fn default_branch_comes_from_the_reply() {
    let c = client();
    let reply = |s: &str| c.default_branch("o", "r", Ok(s.into()));
    assert_eq!(reply(r#"{"default_branch":"dev"}"#).unwrap(), "dev");
    assert_eq!(reply(r#"{"default_branch":7}"#).unwrap(), "main");
    assert_eq!(reply("{}").unwrap(), "main");
    assert_eq!(
        reply("oops").unwrap_err().message,
        "GET https://forge.example.com/api/v1/repos/o/r"
    );
    assert!(c.default_branch("o", "r", Err("refused".into())).is_err());
    assert_eq!(named_branch(&read_json("[]").unwrap()), "main");
}

#[test]
fn pull_request_address_comes_from_the_reply() {
    let c = client();
    let reply = |s: &str| c.create_pr("o", "r", Ok(s.into()));
    assert_eq!(
        reply(r#"{"html_url":"https://h/o/r/pulls/1"}"#).unwrap(),
        "https://h/o/r/pulls/1"
    );
    assert_eq!(
        reply(r#"{ "html_url" : "" }"#).unwrap_err().message,
        r#"PR created but no html_url in response: {"html_url":""}"#
    );
    assert_eq!(reply("oops").unwrap_err().message, "parse PR response");
    assert_eq!(
        c.create_pr("o", "r", Err("refused".into()))
            .unwrap_err()
            .message,
        "POST https://forge.example.com/api/v1/repos/o/r/pulls"
    );
    assert_eq!(
        pr_url(&read_json("{}").unwrap(), "shown").unwrap_err().message,
        "PR created but no html_url in response: shown"
    );
}

#[test]
fn parse_repo_ignores_one_git_ending() {
    let pair = |o: &str, r: &str| Some((o.to_string(), r.to_string()));
    for url in ["https://h/o/r", "git@h:o/r", "ssh://u@h:22/o/r"] {
        assert_eq!(Forgejo::parse_repo(url), pair("o", "r"));
        assert_eq!(Forgejo::parse_repo(&format!("{url}.git")), pair("o", "r"));
        assert_eq!(Forgejo::parse_repo(&format!("{url}.git/")), pair("o", "r"));
    }
    assert_eq!(Forgejo::parse_repo("h/o/r.git"), None);
}
