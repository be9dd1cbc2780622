use profile_harvest::fetch::{agent_index, collect_results, finish_batch, report, Outcome, select_agent, BatchReport, Level, ResError, UserAgent};
use profile_harvest::profile::{Interval, PArgs, Profile, ProfileType};

fn lookup<'a>(m: &'a [(String, String)], k: &str) -> Option<&'a str> {
    m.iter().find(|p| p.0 == k).map(|p| p.1.as_str())
}

#[test]
fn default_template_has_eight_headers() {
    let p = Profile::default_at(1_600_000_000);
    let h = p.headers.clone().unwrap();
    assert_eq!(h.len(), 8);
    assert_eq!(lookup(&h, "Accept-Encoding"), Some("gzip, deflate, br"));
    assert_eq!(lookup(&h, "Upgrade-Insecure-Requests"), Some("1"));
    assert_eq!(lookup(&h, "Pragma"), Some("no-cache"));
    assert!(p.cookie.is_none());
    assert!(p.pargs.is_none());
    assert_eq!(p.created, 1_600_000_000);
    assert_eq!(p.able, p.created);
}

#[test]
fn default_uses_the_clock() {
    let p = Profile::default();
    assert_eq!(p.headers.unwrap().len(), 8);
    assert_eq!(p.created, p.able);
    assert!(p.created > 1_500_000_000);
}

#[test]
fn profile_from_response_keeps_only_the_agent() {
    let resp = vec![("Set-Cookie".to_string(), "sid=abc; Path=/".to_string())];
    let p = Profile::from_response("UA/1".to_string(), &resp, 77);
    assert_eq!(p.headers, Some(vec![("User-Agent".to_string(), "UA/1".to_string())]));
    let c = p.cookie.unwrap();
    assert_eq!(lookup(&c, "sid"), Some("abc"));
    assert_eq!(p.created, 77);
    assert_eq!(p.able, 77);
    assert!(p.pargs.is_none());
}

#[test]
fn tuning_block_is_plain_data() {
    let a = PArgs { typ: ProfileType::Mobile, interval: Interval::Night, expire: 3600 };
    let mut p = Profile::default_at(5);
    p.pargs = Some(a);
    assert_eq!(p.pargs, Some(PArgs { typ: ProfileType::Mobile, interval: Interval::Night, expire: 3600 }));
    assert_ne!(Interval::Light, Interval::Middle);
    assert_ne!(ProfileType::Web, ProfileType::Mobile);
}

fn catalog() -> Vec<UserAgent> {
    ["A", "B", "C", "D", "E"].iter().map(|s| UserAgent { user_agent: s.to_string() }).collect()
}

#[test]
fn agent_is_second_modulo_catalog() {
    assert_eq!(agent_index(17, 5), 2);
    assert_eq!(agent_index(0, 1), 0);
    assert_eq!(agent_index(u64::MAX, 10), 5);
    assert_eq!(select_agent(17, &catalog()), "C");
}

#[test]
fn same_second_same_agent() {
    let c = catalog();
    assert_eq!(select_agent(1_700_000_003, &c), select_agent(1_700_000_003, &c));
    assert_eq!(select_agent(3, &c), select_agent(8, &c));
}

#[test]
fn only_successes_reach_the_pool() {
    let mut pool = vec![Profile::default_at(1)];
    let results: Vec<Outcome> = vec![
        Some(Ok(Profile::default_at(2))),
        Some(Err(ResError { desc: "connection refused".to_string() })),
        None,
        Some(Ok(Profile::default_at(3))),
        Some(Err(ResError { desc: "timed out".to_string() })),
    ];
    let n = collect_results(&mut pool, results);
    assert_eq!(n, 2);
    assert_eq!(pool.len(), 3);
    assert_eq!(pool[1].created, 2);
    assert_eq!(pool[2].created, 3);
}

#[test]
fn batch_report_counts_and_severity() {
    let mut pool = Vec::new();
    let n = collect_results(&mut pool, vec![Some(Err(ResError { desc: "tls".to_string() }))]);
    assert_eq!(n, 0);
    assert!(pool.is_empty());
    assert_eq!(report(n, 3), BatchReport { successes: 0, total: 3, level: Level::Error });
    assert_eq!(report(2, 3), BatchReport { successes: 2, total: 3, level: Level::Info });
}

#[test]
fn batch_counts_successes_against_units() {
    let mut pool = Vec::new();
    let outcomes: Vec<Outcome> = vec![None, Some(Ok(Profile::default_at(9))), None, Some(Err(ResError { desc: "reset".to_string() }))];
    let r = finish_batch(&mut pool, outcomes);
    assert_eq!(r, BatchReport { successes: 1, total: 4, level: Level::Info });
    assert_eq!(pool.len(), 1);
    assert_eq!(pool[0].created, 9);
    let r = finish_batch(&mut pool, vec![None, None]);
    assert_eq!(r, BatchReport { successes: 0, total: 2, level: Level::Error });
    assert_eq!(pool.len(), 1);
    let r = finish_batch(&mut pool, Vec::new());
    assert_eq!(r, BatchReport { successes: 0, total: 0, level: Level::Error });
}
