use profile_harvest::cookie::{extract_cookies, is_set_cookie, parse_segment};

fn pairs(v: &[(&str, &str)]) -> Vec<(String, String)> {
    v.iter().map(|(a, b)| (a.to_string(), b.to_string())).collect()
}

fn lookup<'a>(m: &'a [(String, String)], k: &str) -> Option<&'a str> {
    m.iter().find(|p| p.0 == k).map(|p| p.1.as_str())
}

#[test]
fn path_attribute_is_not_a_stop_word() {
    let h = pairs(&[("Set-Cookie", "a=1; Path=/; HttpOnly"), ("Set-Cookie", "b=2; Domain=x.com")]);
    let c = extract_cookies(&h);
    assert_eq!(lookup(&c, "a"), Some("1"));
    assert_eq!(lookup(&c, "b"), Some("2"));
    assert_eq!(lookup(&c, " Path"), Some("/"));
    assert_eq!(lookup(&c, " Domain"), Some("x.com"));
    assert_eq!(lookup(&c, " HttpOnly"), None);
    assert_eq!(c.len(), 4);
}

#[test]
fn header_name_ignores_ascii_case() {
    assert!(is_set_cookie("set-cookie"));
    assert!(is_set_cookie("SET-COOKIE"));
    assert!(is_set_cookie("Set-Cookie"));
    assert!(!is_set_cookie("Cookie"));
    assert!(!is_set_cookie("set-cookies"));
    let h = pairs(&[("SET-COOKIE", "x=1"), ("Cookie", "y=2"), ("content-type", "z=3")]);
    let c = extract_cookies(&h);
    assert_eq!(c, pairs(&[("x", "1")]));
}

#[test]
fn later_cookie_overwrites_earlier() {
    let h = pairs(&[("set-cookie", "a=1; b=2"), ("set-cookie", "a=3")]);
    let c = extract_cookies(&h);
    assert_eq!(c.len(), 2);
    assert_eq!(lookup(&c, "a"), Some("3"));
    assert_eq!(lookup(&c, " b"), Some("2"));
}

#[test]
fn segments_need_exactly_one_equals_sign() {
    let h = pairs(&[("set-cookie", "a=b=c; novalue; =; k=")]);
    let c = extract_cookies(&h);
    assert_eq!(c, pairs(&[(" ", ""), (" k", "")]));
}

#[test]
fn segments_are_trimmed_only_for_stop_words() {
    assert_eq!(parse_segment(&"  id=42 \t".chars().collect()), Some(("  id".to_string(), "42 \t".to_string())));
    assert_eq!(parse_segment(&" path ".chars().collect()), None);
    assert_eq!(parse_segment(&"httpOnly".chars().collect()), None);
    assert_eq!(parse_segment(&" path=/".chars().collect()), Some((" path".to_string(), "/".to_string())));
    assert_eq!(parse_segment(&"Expires=Wed".chars().collect()), Some(("Expires".to_string(), "Wed".to_string())));
}

#[test]
fn no_headers_no_cookies() {
    assert!(extract_cookies(&Vec::new()).is_empty());
    assert!(extract_cookies(&pairs(&[("set-cookie", "")])).is_empty());
}
