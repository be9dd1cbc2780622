//! The profile entity, its tuning block and its default template.

use vstd::prelude::*;
use crate::cookie::{extract_cookies, cookies_of, pairs_match};

verus! {

/// Relies on std::time::SystemTime::elapsed, called on UNIX_EPOCH: the whole
/// seconds from the epoch to now (0 for a clock set before the epoch).
/// Nothing is promised of its value.
#[verifier::external_body]
fn epoch_now() -> (r: u64) {
    match std::time::UNIX_EPOCH.elapsed() {
        Ok(d) => d.as_secs(),
        Err(_) => 0,
    }
}

/// The current epoch second, from the system clock.
pub fn now_secs() -> (r: u64) {
    epoch_now()
}

#[derive(Clone, Copy, Debug, PartialEq, Eq, Structural)]
pub enum Interval {
    Light,
    Middle,
    Night,
}

#[derive(Clone, Copy, Debug, PartialEq, Eq, Structural)]
pub enum ProfileType {
    Web,
    Mobile,
}

/// The tuning block that callers may attach to a profile.
#[derive(Clone, Copy, Debug, PartialEq, Eq, Structural)]
pub struct PArgs {
    pub typ: ProfileType,
    pub interval: Interval,
    pub expire: u64,
}

/// A harvested identity bundle. Header and cookie maps are lists of
/// (name, value) pairs with distinct names.
#[derive(Clone, Debug, PartialEq)]
pub struct Profile {
    pub headers: Option<Vec<(String, String)>>,
    pub cookie: Option<Vec<(String, String)>>,
    pub able: u64,
    pub created: u64,
    pub pargs: Option<PArgs>,
}

/// The (name, value) pairs of a list, as character sequences.
pub open spec fn pairs_view(v: Seq<(String, String)>) -> Seq<(Seq<char>, Seq<char>)> {
    v.map_values(|p: (String, String)| (p.0@, p.1@))
}

/// The baseline header set of a desktop browser.
pub open spec fn default_headers() -> Seq<(Seq<char>, Seq<char>)> {
    seq![
        ("Accept"@, "text/html,application/xhtml+xml,application/xml;q=0.9,image/webp,*/*;q=0.8"@),
        ("Accept-Encoding"@, "gzip, deflate, br"@),
        ("Accept-Language"@, "en-US,en;q=0.5"@),
        ("Cache-Control"@, "no-cache"@),
        ("Connection"@, "keep-alive"@),
        ("Pragma"@, "no-cache"@),
        ("Upgrade-Insecure-Requests"@, "1"@),
        ("User-Agent"@, "Mozilla/5.0 (Windows NT 10.0; Win64; x64; rv:77.0) Gecko/20100101 Firefox/77.0"@),
    ]
}

/// The names of a list of pairs are pairwise distinct.
pub open spec fn distinct_names(v: Seq<(Seq<char>, Seq<char>)>) -> bool {
    forall|i: int, j: int| 0 <= i < j < v.len() ==> (#[trigger] v[i]).0 != (#[trigger] v[j]).0
}

impl Profile {
    /// Header names are distinct, and so are cookie names.
    pub open spec fn wf(&self) -> bool {
        &&& self.headers is Some ==> distinct_names(pairs_view(self.headers->0@))
        &&& self.cookie is Some ==> distinct_names(pairs_view(self.cookie->0@))
    }
}

/// The default template stamped at `now`.
pub open spec fn is_default_at(p: Profile, now: u64) -> bool {
    &&& p.headers is Some
    &&& pairs_view(p.headers->0@) == default_headers()
    &&& p.cookie is None
    &&& p.pargs is None
    &&& p.created == now
    &&& p.able == now
}

/// The default template has eight baseline headers with distinct names, no
/// cookie, no tuning block, and is available from the moment it is created.
pub proof fn lemma_default_template(p: Profile, now: u64)
    requires
        is_default_at(p, now),
    ensures
        p.headers is Some,
        p.headers->0@.len() == 8,
        distinct_names(pairs_view(p.headers->0@)),
        p.cookie is None,
        p.pargs is None,
        p.created == p.able,
{
    reveal_strlit("Accept");
    reveal_strlit("Accept-Encoding");
    reveal_strlit("Accept-Language");
    reveal_strlit("Cache-Control");
    reveal_strlit("Connection");
    reveal_strlit("Pragma");
    reveal_strlit("Upgrade-Insecure-Requests");
    reveal_strlit("User-Agent");
    let d = default_headers();
    assert(d[0].0.len() == 6 && d[1].0.len() == 15 && d[2].0.len() == 15 && d[3].0.len() == 13);
    assert(d[4].0.len() == 10 && d[5].0.len() == 6 && d[6].0.len() == 25 && d[7].0.len() == 10);
    assert(d[0].0[0] != d[5].0[0] && d[1].0[7] != d[2].0[7] && d[4].0[0] != d[7].0[0]);
    assert forall|i: int, j: int| 0 <= i < j < d.len() implies (#[trigger] d[i]).0 != (#[trigger] d[j]).0 by {
        assert(0 <= i < 8 && 0 <= j < 8);
    }
}

impl Profile {
    /// The default template, with `created` and `able` set to `now`.
    pub fn default_at(now: u64) -> (r: Profile)
        ensures
            is_default_at(r, now),
            r.wf(),
    {
        let mut headers: Vec<(String, String)> = Vec::new();
        headers.push((
            "Accept".to_owned(),
            "text/html,application/xhtml+xml,application/xml;q=0.9,image/webp,*/*;q=0.8".to_owned(),
        ));
        headers.push(("Accept-Encoding".to_owned(), "gzip, deflate, br".to_owned()));
        headers.push(("Accept-Language".to_owned(), "en-US,en;q=0.5".to_owned()));
        headers.push(("Cache-Control".to_owned(), "no-cache".to_owned()));
        headers.push(("Connection".to_owned(), "keep-alive".to_owned()));
        headers.push(("Pragma".to_owned(), "no-cache".to_owned()));
        headers.push(("Upgrade-Insecure-Requests".to_owned(), "1".to_owned()));
        headers.push((
            "User-Agent".to_owned(),
            "Mozilla/5.0 (Windows NT 10.0; Win64; x64; rv:77.0) Gecko/20100101 Firefox/77.0".to_owned(),
        ));
        assert(pairs_view(headers@) =~= default_headers());
        let r = Profile { headers: Some(headers), cookie: None, able: now, created: now, pargs: None };
        proof {
            lemma_default_template(r, now);
        }
        r
    }

    /// The profile of one completed exchange at `now`: its headers hold only
    /// the User-Agent that was sent, and its cookies are those of the
    /// response headers.
    pub fn from_response(user_agent: String, response_headers: &Vec<(String, String)>, now: u64) -> (r: Profile)
        ensures
            r.headers is Some,
            pairs_view(r.headers->0@) == seq![("User-Agent"@, user_agent@)],
            r.cookie is Some,
            pairs_match(r.cookie->0@, cookies_of(response_headers@)),
            r.pargs is None,
            r.created == now,
            r.able == now,
            r.wf(),
    {
        let mut p = Profile::default_at(now);
        let mut headers: Vec<(String, String)> = Vec::new();
        headers.push(("User-Agent".to_owned(), user_agent));
        assert(pairs_view(headers@) =~= seq![("User-Agent"@, user_agent@)]);
        p.headers = Some(headers);
        let c = extract_cookies(response_headers);
        assert(distinct_names(pairs_view(c@))) by {
            assert forall|i: int, j: int| 0 <= i < j < pairs_view(c@).len() implies
                (#[trigger] pairs_view(c@)[i]).0 != (#[trigger] pairs_view(c@)[j]).0 by {
                assert(c@[i].0@ != c@[j].0@);
            }
        }
        p.cookie = Some(c);
        p
    }
}

impl Default for Profile {
    /// The default template stamped with the current epoch second.
    fn default() -> (r: Profile)
        ensures
            exists|now: u64| is_default_at(r, now),
            r.wf(),
    {
        Profile::default_at(now_secs())
    }
}

} // verus!
