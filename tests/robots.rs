use robotstxt::matcher::url_path;
use robotstxt::pattern::path_matches;
use robotstxt::escape::escape;
use robotstxt::groups::{build_groups, token_of};
use robotstxt::records::split_records;
use robotstxt::{
    content_signal_supported, evaluate, is_valid_user_agent, version, ContentSignal, RequestRate,
    RobotsMatcher,
};

#[test]
fn test_version() {
    let v = version();
    assert!(!v.is_empty());
}

#[test]
fn test_is_valid_user_agent() {
    assert!(is_valid_user_agent("Googlebot"));
    assert!(is_valid_user_agent("My-Bot"));
    assert!(!is_valid_user_agent("Bot/1.0"));
}

#[test]
fn test_basic_allow() {
    let mut m = RobotsMatcher::new();
    let robots = "User-agent: *\nAllow: /\n";
    assert!(m.is_allowed(robots, "Googlebot", "https://example.com/page"));
}

#[test]
fn test_basic_disallow() {
    let mut m = RobotsMatcher::new();
    let robots = "User-agent: *\nDisallow: /admin/\n";
    assert!(!m.is_allowed(robots, "Googlebot", "https://example.com/admin/secret"));
    assert!(m.is_allowed(robots, "Googlebot", "https://example.com/public"));
}

#[test]
fn test_crawl_delay() {
    let mut m = RobotsMatcher::new();
    let robots = "User-agent: *\nCrawl-delay: 2.5\nDisallow:\n";
    m.is_allowed(robots, "Googlebot", "https://example.com/");
    assert_eq!(m.crawl_delay().map(|ms| ms as f64 / 1000.0), Some(2.5));
}

#[test]
fn empty_file_allows_everything() {
    let mut m = RobotsMatcher::new();
    for url in ["/", "/a/b", "https://example.com/x?y=1", ""] {
        assert!(m.is_allowed("", "Googlebot", url));
        assert_eq!(m.matching_line(), 0);
        assert!(!m.ever_seen_specific_agent());
        assert_eq!(m.crawl_delay(), None);
    }
}

#[test]
fn longest_match_wins() {
    let mut m = RobotsMatcher::new();
    let robots = "User-agent: *\nAllow: /page\nDisallow: /page/admin\n";
    assert!(!m.is_allowed(robots, "Googlebot", "/page/admin/x"));
    assert_eq!(m.matching_line(), 3);
    assert!(m.is_allowed(robots, "Googlebot", "/page/other"));
    assert_eq!(m.matching_line(), 2);
}

#[test]
fn allow_beats_disallow_on_tie() {
    let mut m = RobotsMatcher::new();
    let robots = "User-agent: *\nAllow: /x\nDisallow: /x\n";
    assert!(m.is_allowed(robots, "Googlebot", "/x"));
    assert_eq!(m.matching_line(), 2);
    let reversed = "User-agent: *\nDisallow: /x\nAllow: /x\n";
    assert!(m.is_allowed(reversed, "Googlebot", "/x"));
    assert_eq!(m.matching_line(), 3);
}

#[test]
fn wildcard_and_anchor() {
    let mut m = RobotsMatcher::new();
    let robots = "User-agent: *\nDisallow: /private/*.pdf\n";
    assert!(!m.is_allowed(robots, "Googlebot", "/private/doc.pdf"));
    assert!(!m.is_allowed(robots, "Googlebot", "/private/doc.pdf.bak"));
    assert!(m.is_allowed(robots, "Googlebot", "/public/doc.pdf"));
    let anchored = "User-agent: *\nDisallow: /private/*.pdf$\n";
    assert!(!m.is_allowed(anchored, "Googlebot", "/private/doc.pdf"));
    assert!(m.is_allowed(anchored, "Googlebot", "/private/doc.pdf.bak"));
}

#[test]
fn specific_agent_precedence() {
    let mut m = RobotsMatcher::new();
    let robots = "User-agent: *\nDisallow: /\nUser-agent: Googlebot\nAllow: /\n";
    assert!(m.is_allowed(robots, "Googlebot", "/page"));
    assert!(m.ever_seen_specific_agent());
    assert!(!m.is_allowed(robots, "Bingbot", "/page"));
    assert!(m.ever_seen_specific_agent());
}

#[test]
fn agent_token_boundary() {
    let mut m = RobotsMatcher::new();
    let robots = "User-agent: googlebot\nDisallow: /\n";
    assert!(!m.is_allowed(robots, "Googlebot-Image", "/a"));
    assert!(!m.is_allowed(robots, "GOOGLEBOT", "/a"));
    assert!(m.is_allowed(robots, "GooglebotX", "/a"));
    let both = "User-agent: googlebot\nDisallow: /a\nUser-agent: googlebot-image\nDisallow: /b\n";
    assert!(m.is_allowed(both, "Googlebot-Image", "/a"));
    assert!(!m.is_allowed(both, "Googlebot-Image", "/b"));
}

#[test]
fn shared_group_for_consecutive_agents() {
    let mut m = RobotsMatcher::new();
    let robots = "User-agent: a\nUser-agent: b\nDisallow: /x\nUser-agent: c\nDisallow: /y\n";
    assert!(!m.is_allowed(robots, "b", "/x"));
    assert!(m.is_allowed(robots, "b", "/y"));
    assert!(!m.is_allowed(robots, "c", "/y"));
}

#[test]
fn same_query_same_outcome() {
    let robots = b"User-agent: *\nCrawl-delay: 1\nDisallow: /a\n";
    let first = evaluate(robots, b"Googlebot", b"/a/b");
    let second = evaluate(robots, b"Googlebot", b"/a/b");
    assert_eq!(first, second);
    assert!(!first.allowed);
    assert_eq!(first.matching_line, 3);
}

#[test]
fn crawl_delay_for_every_path() {
    let mut m = RobotsMatcher::new();
    let robots = "User-agent: *\nCrawl-delay: 2.5\nDisallow:\n";
    for url in ["/", "/a", "https://example.com/deep/path?q"] {
        assert!(m.is_allowed(robots, "Googlebot", url));
        assert_eq!(m.crawl_delay(), Some(2500));
        assert_eq!(m.matching_line(), 0);
    }
}

#[test]
fn crawl_delay_forms() {
    let mut m = RobotsMatcher::new();
    m.is_allowed("User-agent: *\nCrawl-delay: 3\n", "bot", "/");
    assert_eq!(m.crawl_delay(), Some(3000));
    m.is_allowed("User-agent: *\nCrawl-delay: 0.12345\n", "bot", "/");
    assert_eq!(m.crawl_delay(), Some(123));
    m.is_allowed("User-agent: *\nCrawl-delay: soon\n", "bot", "/");
    assert_eq!(m.crawl_delay(), None);
    m.is_allowed("User-agent: *\nCrawl-delay: -1\n", "bot", "/");
    assert_eq!(m.crawl_delay(), None);
}

#[test]
fn malformed_lines_do_not_disturb_others() {
    let robots: &[u8] = b"User-agent: *\nno colon here\n\xff\xfe\xc3: \xe2\x82\nDisallow: /a\n";
    let out = evaluate(robots, b"Googlebot", b"/a/b");
    assert!(!out.allowed);
    assert_eq!(out.matching_line, 4);
    let clean = evaluate(b"User-agent: *\nDisallow: /a\n", b"Googlebot", b"/a/b");
    assert_eq!(clean.allowed, out.allowed);
}

#[test]
fn comment_only_file_is_empty_file() {
    let comments = b"# hello\n   # Disallow: /\n#User-agent: *\n";
    let empty = evaluate(b"", b"Googlebot", b"/x");
    assert_eq!(evaluate(comments, b"Googlebot", b"/x"), empty);
}

#[test]
fn trailing_comment_and_case() {
    let mut m = RobotsMatcher::new();
    let robots = "user-AGENT: *   # everyone\r\nDISALLOW: /tmp # scratch\r\n";
    assert!(!m.is_allowed(robots, "Googlebot", "/tmp/x"));
    assert_eq!(m.matching_line(), 2);
}

#[test]
fn rules_before_any_agent_are_dropped() {
    let mut m = RobotsMatcher::new();
    assert!(m.is_allowed("Disallow: /\nUser-agent: *\nAllow: /x\n", "bot", "/y"));
    assert_eq!(m.matching_line(), 0);
}

#[test]
fn byte_order_mark_is_skipped() {
    let robots = b"\xef\xbb\xbfUser-agent: *\nDisallow: /\n";
    assert!(!evaluate(robots, b"bot", b"/").allowed);
}

#[test]
fn request_rate_is_read() {
    let mut m = RobotsMatcher::new();
    m.is_allowed("User-agent: *\nRequest-rate: 1r/5s\n", "bot", "/");
    assert_eq!(m.request_rate(), Some(RequestRate { requests: 1, seconds: 5 }));
    m.is_allowed("User-agent: *\nRequest-rate: 3/60\n", "bot", "/");
    assert_eq!(m.request_rate(), Some(RequestRate { requests: 3, seconds: 60 }));
    m.is_allowed("User-agent: *\nRequest-rate: 0/60\n", "bot", "/");
    assert_eq!(m.request_rate(), None);
}

#[test]
fn content_signal_is_read() {
    let mut m = RobotsMatcher::new();
    assert!(content_signal_supported());
    m.is_allowed("User-agent: *\nContent-Signal: ai-train=no, search=yes\n", "bot", "/");
    assert_eq!(
        m.content_signal(),
        Some(ContentSignal { ai_train: 0, ai_input: -1, search: 1 })
    );
    assert!(!m.allows_ai_train());
    assert!(m.allows_ai_input());
    assert!(m.allows_search());
    m.is_allowed("User-agent: *\nDisallow: /\n", "bot", "/");
    assert_eq!(m.content_signal(), None);
    assert!(m.allows_ai_train());
}

#[test]
fn url_path_extraction() {
    assert_eq!(url_path(b"https://example.com/a/b?q=1#frag"), b"/a/b?q=1".to_vec());
    assert_eq!(url_path(b"https://example.com"), b"/".to_vec());
    assert_eq!(url_path(b"//example.com/x"), b"/x".to_vec());
    assert_eq!(url_path(b"/plain"), b"/plain".to_vec());
    assert_eq!(url_path(b"http://h?q"), b"/?q".to_vec());
}

#[test]
fn pattern_semantics() {
    assert!(path_matches(b"/a$", b"/a"));
    assert!(!path_matches(b"/a$", b"/ab"));
    assert!(path_matches(b"/a", b"/ab"));
    assert!(path_matches(b"/*/c", b"/a/b/c"));
    assert!(!path_matches(b"/A", b"/a"));
    assert!(path_matches(b"", b"/anything"));
}

#[test]
fn agent_validator_edges() {
    assert!(!is_valid_user_agent(""));
    assert!(is_valid_user_agent("bot_2"));
    assert!(!is_valid_user_agent("my bot"));
}

#[test]
fn sample_records_split() {
    let data: &[u8] = &[2, 0, 0, 0, b'h', b'i', 0, 0, 0, 0, 1, 0];
    let recs = split_records(data).unwrap();
    assert_eq!(recs, vec![b"hi".to_vec(), Vec::new()]);
    assert_eq!(split_records(&[5, 0, 0, 0, b'a']), None);
    assert_eq!(split_records(&[]), Some(Vec::new()));
    let long: Vec<u8> = [vec![0u8, 1, 0, 0], vec![7u8; 256]].concat();
    assert_eq!(split_records(&long).unwrap()[0].len(), 256);
}

#[test]
fn escaped_forms_match() {
    assert_eq!(escape("/café".as_bytes()), b"/caf%C3%A9".to_vec());
    assert_eq!(escape(b"/a%2fb%zz"), b"/a%2Fb%zz".to_vec());
    let mut m = RobotsMatcher::new();
    let robots = "User-agent: *\nDisallow: /café\n";
    assert!(!m.is_allowed(robots, "bot", "/caf%c3%a9"));
    assert!(!m.is_allowed(robots, "bot", "/café/menu"));
    assert!(m.is_allowed(robots, "bot", "/cafe"));
}

#[test]
fn many_wildcards_stay_fast() {
    let pattern = [b'*'; 64].iter().chain(b"x$").copied().collect::<Vec<u8>>();
    let path = vec![b'a'; 4000];
    assert!(!path_matches(&pattern, &path));
    let mut hit = path.clone();
    hit.push(b'x');
    assert!(path_matches(&pattern, &hit));
}

#[test]
fn agent_tokens_are_folded() {
    assert_eq!(token_of(b"Googlebot/2.1 (+http://x)"), b"googlebot".to_vec());
    assert_eq!(token_of(b"* extra"), b"*".to_vec());
    assert_eq!(token_of(b"/weird"), Vec::<u8>::new());
}

#[test]
fn groups_are_built_in_file_order() {
    let parsed = build_groups(
        b"Sitemap: /s.xml\nUser-agent: a\nUser-agent: A\nDisallow: /x\nCrawl-delay: 1\nUser-agent: *\nAllow: /y\n",
    );
    assert_eq!(parsed.groups.len(), 2);
    assert_eq!(parsed.groups[0].agents, vec![b"a".to_vec()]);
    assert_eq!(parsed.groups[0].rules.len(), 1);
    assert_eq!(parsed.groups[0].rules[0].line, 4);
    assert!(!parsed.groups[0].rules[0].allow);
    assert_eq!(parsed.groups[0].crawl_delay, Some(1000));
    assert_eq!(parsed.groups[1].agents, vec![b"*".to_vec()]);
    assert!(parsed.saw_specific_agent);
    assert!(!build_groups(b"User-agent: *\nDisallow: /\n").saw_specific_agent);
}
