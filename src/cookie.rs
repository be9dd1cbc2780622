//! Extraction of a flat cookie map from response headers.

use vstd::prelude::*;
use crate::text::{chars_of, string_of, split_spec, split_chars, trim, trim_chars, chars_eq};

verus! {

/// A header name equal to `set-cookie` when ASCII case is ignored.
pub open spec fn is_set_cookie_name(n: Seq<char>) -> bool {
    let lo = seq!['s', 'e', 't', '-', 'c', 'o', 'o', 'k', 'i', 'e'];
    let up = seq!['S', 'E', 'T', '-', 'C', 'O', 'O', 'K', 'I', 'E'];
    n.len() == 10 && forall|i: int| 0 <= i < 10 ==> (#[trigger] n[i] == lo[i] || n[i] == up[i])
}

/// One of the attribute words that a whole segment may equal exactly to be dropped.
pub open spec fn is_stop_word(t: Seq<char>) -> bool {
    t == seq!['p', 'a', 't', 'h'] || t == seq!['e', 'x', 'p', 'i', 'r', 'e', 's']
        || t == seq!['d', 'o', 'm', 'a', 'i', 'n']
        || t == seq!['h', 't', 't', 'p', 'O', 'n', 'l', 'y']
}

/// The name and value that one `;`-segment contributes, if any: the segment,
/// once trimmed, must not be a stop word, and the segment as it stands must
/// split on `=` into exactly two parts, which are kept untrimmed.
pub open spec fn segment_pair(seg: Seq<char>) -> Option<(Seq<char>, Seq<char>)> {
    let parts = split_spec(seg, '=');
    if is_stop_word(trim(seg)) || parts.len() != 2 {
        None
    } else {
        Some((parts[0], parts[1]))
    }
}

/// `m` after the segments, in order; a later name overwrites an earlier one.
pub open spec fn apply_segments(m: Map<Seq<char>, Seq<char>>, segs: Seq<Seq<char>>) -> Map<Seq<char>, Seq<char>>
    decreases segs.len(),
{
    if segs.len() == 0 {
        m
    } else {
        let m2 = apply_segments(m, segs.drop_last());
        match segment_pair(segs.last()) {
            Some(kv) => m2.insert(kv.0, kv.1),
            None => m2,
        }
    }
}

/// The cookie map of a sequence of response headers (name, value).
pub open spec fn cookies_of(hs: Seq<(String, String)>) -> Map<Seq<char>, Seq<char>>
    decreases hs.len(),
{
    if hs.len() == 0 {
        Map::empty()
    } else {
        let m = cookies_of(hs.drop_last());
        if is_set_cookie_name(hs.last().0@) {
            apply_segments(m, split_spec(hs.last().1@, ';'))
        } else {
            m
        }
    }
}

/// A pair of strings as a pair of character sequences.
pub open spec fn pair_view(p: (String, String)) -> (Seq<char>, Seq<char>) {
    (p.0@, p.1@)
}

/// The names in `r` are distinct, and `r` holds exactly the entries of `m`.
pub open spec fn pairs_match(r: Seq<(String, String)>, m: Map<Seq<char>, Seq<char>>) -> bool {
    &&& forall|i: int, j: int| 0 <= i < j < r.len() ==> (#[trigger] r[i]).0@ != (#[trigger] r[j]).0@
    &&& forall|i: int| 0 <= i < r.len() ==> m.contains_key((#[trigger] r[i]).0@) && m[r[i].0@] == r[i].1@
    &&& forall|k: Seq<char>| #[trigger] m.contains_key(k) ==> exists|i: int| 0 <= i < r.len() && (#[trigger] r[i]).0@ == k
}

/// Sets `k` to `v` in a list of distinct names.
fn put(out: &mut Vec<(String, String)>, k: String, v: String, Ghost(m): Ghost<Map<Seq<char>, Seq<char>>>)
    requires
        pairs_match(old(out)@, m),
    ensures
        pairs_match(final(out)@, m.insert(k@, v@)),
{
    let ghost kv = k@;
    let ghost vv = v@;
    let mut i: usize = 0;
    while i < out.len()
        invariant
            i <= out@.len(),
            out@ == old(out)@,
            pairs_match(out@, m),
            k@ == kv,
            v@ == vv,
            forall|j: int| 0 <= j < i ==> (#[trigger] out@[j]).0@ != kv,
        decreases out@.len() - i,
    {
        if out[i].0 == k {
            let ghost before = out@;
            out[i] = (k, v);
            assert(out@ == before.update(i as int, out@[i as int]));
            assert(out@[i as int].0@ == kv && out@[i as int].1@ == vv);
            assert forall|p: int, q: int| 0 <= p < q < out@.len() implies (#[trigger] out@[p]).0@ != (#[trigger] out@[q]).0@ by {
                if p != i && q != i {
                    assert(before[p] == out@[p] && before[q] == out@[q]);
                } else if p == i {
                    assert(before[p].0@ == kv);
                    assert(before[q] == out@[q]);
                } else {
                    assert(before[q].0@ == kv);
                    assert(before[p] == out@[p]);
                }
            }
            assert forall|p: int| 0 <= p < out@.len() implies m.insert(kv, vv).contains_key((#[trigger] out@[p]).0@)
                && m.insert(kv, vv)[out@[p].0@] == out@[p].1@ by {
                if p != i {
                    assert(before[p] == out@[p]);
                    assert(before[p].0@ != before[i as int].0@);
                }
            }
            assert(pairs_match(out@, m.insert(kv, vv))) by {
                assert forall|kk: Seq<char>| #[trigger] m.insert(kv, vv).contains_key(kk) implies
                    exists|j: int| 0 <= j < out@.len() && (#[trigger] out@[j]).0@ == kk by {
                    if kk != kv {
                        let j = choose|j: int| 0 <= j < before.len() && (#[trigger] before[j]).0@ == kk;
                        assert(j != i);
                        assert(out@[j] == before[j]);
                    } else {
                        assert(out@[i as int].0@ == kk);
                    }
                }
            }
            return;
        }
        i = i + 1;
    }
    out.push((k, v));
    assert(pairs_match(out@, m.insert(kv, vv))) by {
        assert forall|kk: Seq<char>| #[trigger] m.insert(kv, vv).contains_key(kk) implies
            exists|j: int| 0 <= j < out@.len() && (#[trigger] out@[j]).0@ == kk by {
            if kk != kv {
                let j = choose|j: int| 0 <= j < old(out)@.len() && (#[trigger] old(out)@[j]).0@ == kk;
                assert(out@[j].0@ == kk);
            } else {
                assert(out@[out@.len() - 1].0@ == kk);
            }
        }
    }
}

fn is_stop_word_chars(t: &Vec<char>) -> (r: bool)
    ensures
        r == is_stop_word(t@),
{
    let a = vec!['p', 'a', 't', 'h'];
    let b = vec!['e', 'x', 'p', 'i', 'r', 'e', 's'];
    let c = vec!['d', 'o', 'm', 'a', 'i', 'n'];
    let d = vec!['h', 't', 't', 'p', 'O', 'n', 'l', 'y'];
    assert(a@ =~= seq!['p', 'a', 't', 'h']);
    assert(b@ =~= seq!['e', 'x', 'p', 'i', 'r', 'e', 's']);
    assert(c@ =~= seq!['d', 'o', 'm', 'a', 'i', 'n']);
    assert(d@ =~= seq!['h', 't', 't', 'p', 'O', 'n', 'l', 'y']);
    chars_eq(t, &a) || chars_eq(t, &b) || chars_eq(t, &c) || chars_eq(t, &d)
}

/// Whether a header name is `set-cookie`, ASCII case ignored.
pub fn is_set_cookie(name: &str) -> (r: bool)
    ensures
        r == is_set_cookie_name(name@),
{
    let n = chars_of(name);
    let lo = vec!['s', 'e', 't', '-', 'c', 'o', 'o', 'k', 'i', 'e'];
    let up = vec!['S', 'E', 'T', '-', 'C', 'O', 'O', 'K', 'I', 'E'];
    assert(lo@ =~= seq!['s', 'e', 't', '-', 'c', 'o', 'o', 'k', 'i', 'e']);
    assert(up@ =~= seq!['S', 'E', 'T', '-', 'C', 'O', 'O', 'K', 'I', 'E']);
    if n.len() != 10 {
        return false;
    }
    let mut i: usize = 0;
    while i < 10
        invariant
            n@.len() == 10,
            n@ == name@,
            lo@ == seq!['s', 'e', 't', '-', 'c', 'o', 'o', 'k', 'i', 'e'],
            up@ == seq!['S', 'E', 'T', '-', 'C', 'O', 'O', 'K', 'I', 'E'],
            i <= 10,
            forall|j: int| 0 <= j < i ==> (#[trigger] n@[j] == lo@[j] || n@[j] == up@[j]),
        decreases 10 - i,
    {
        if n[i] != lo[i] && n[i] != up[i] {
            assert(!(n@[i as int] == lo@[i as int] || n@[i as int] == up@[i as int]));
            return false;
        }
        i = i + 1;
    }
    true
}

/// The name and value of one `;`-segment of a `Set-Cookie` value, if it
/// carries one.
pub fn parse_segment(seg: &Vec<char>) -> (r: Option<(String, String)>)
    ensures
        match segment_pair(seg@) {
            Some(kv) => r is Some && pair_view(r->0) == kv,
            None => r is None,
        },
{
    let t = trim_chars(seg);
    if is_stop_word_chars(&t) {
        return None;
    }
    let parts = split_chars(seg, '=');
    if parts.len() != 2 {
        return None;
    }
    Some((string_of(&parts[0]), string_of(&parts[1])))
}

/// The cookies of response headers: every header named `set-cookie` (ASCII
/// case ignored) is split on `;`; each segment whose trimmed text is not
/// exactly a stop word and which splits on `=` into exactly two parts gives
/// a name and a value, untrimmed. Later cookies overwrite earlier ones of the
/// same name.
pub fn extract_cookies(headers: &Vec<(String, String)>) -> (r: Vec<(String, String)>)
    ensures
        pairs_match(r@, cookies_of(headers@)),
{
    let mut out: Vec<(String, String)> = Vec::new();
    let mut i: usize = 0;
    while i < headers.len()
        invariant
            i <= headers@.len(),
            pairs_match(out@, cookies_of(headers@.take(i as int))),
        decreases headers@.len() - i,
    {
        proof {
            assert(headers@.take(i as int + 1).drop_last() =~= headers@.take(i as int));
        }
        let ghost m0 = cookies_of(headers@.take(i as int));
        if is_set_cookie(headers[i].0.as_str()) {
            let v = chars_of(headers[i].1.as_str());
            let segs = split_chars(&v, ';');
            let ghost ss = split_spec(v@, ';');
            let mut j: usize = 0;
            while j < segs.len()
                invariant
                    j <= segs@.len() == ss.len(),
                    forall|q: int| 0 <= q < segs@.len() ==> #[trigger] segs@[q]@ == ss[q],
                    pairs_match(out@, apply_segments(m0, ss.take(j as int))),
                decreases segs@.len() - j,
            {
                proof {
                    assert(ss.take(j as int + 1).drop_last() =~= ss.take(j as int));
                }
                let ghost m1 = apply_segments(m0, ss.take(j as int));
                match parse_segment(&segs[j]) {
                    Some(kv) => {
                        put(&mut out, kv.0, kv.1, Ghost(m1));
                    },
                    None => {},
                }
                j = j + 1;
            }
            proof {
                assert(ss.take(j as int) =~= ss);
            }
        }
        i = i + 1;
    }
    proof {
        assert(headers@.take(i as int) =~= headers@);
    }
    out
}

} // verus!
