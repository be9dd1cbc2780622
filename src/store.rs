//! The persisted pool: file names in the storage directory, one record per
//! line, and the step that reloading takes.

use vstd::prelude::*;
use crate::profile::Profile;
use crate::text::{chars_of, string_of, split_spec, split_chars, lemma_split_nonempty};

verus! {

/// What reloading does, given whether the current file exists.
#[derive(Clone, Copy, Debug, PartialEq, Eq, Structural)]
pub enum ReloadStep {
    /// Create empty current and backup files; there is nothing to hydrate.
    CreatePlaceholders,
    /// Read every line of the current file, then rename it to the backup.
    ReadThenRotate,
}

/// Reloading reads and rotates an existing current file, and otherwise
/// creates the two placeholders.
pub open spec fn reload_step_spec(current_exists: bool) -> ReloadStep {
    if current_exists {
        ReloadStep::ReadThenRotate
    } else {
        ReloadStep::CreatePlaceholders
    }
}

/// What a reload hands back after its step: nothing to hydrate after
/// creating placeholders, else every record read.
pub open spec fn hydrate_spec(step: ReloadStep, records: Seq<Profile>) -> Option<Seq<Profile>> {
    match step {
        ReloadStep::CreatePlaceholders => None,
        ReloadStep::ReadThenRotate => Some(records),
    }
}

/// The step that reloading takes, given whether the current file exists.
pub fn reload_step(current_exists: bool) -> (r: ReloadStep)
    ensures
        r == reload_step_spec(current_exists),
{
    if current_exists {
        ReloadStep::ReadThenRotate
    } else {
        ReloadStep::CreatePlaceholders
    }
}

/// The result of a reload that took `step` and read `records`.
pub fn hydrate(step: ReloadStep, records: Vec<Profile>) -> (r: Option<Vec<Profile>>)
    ensures
        r is Some == (hydrate_spec(step, records@) is Some),
        r is Some ==> r->0@ == hydrate_spec(step, records@)->0,
{
    match step {
        ReloadStep::CreatePlaceholders => None,
        ReloadStep::ReadThenRotate => Some(records),
    }
}

/// A reload without a current file hands back no profile; a reload of a file
/// whose K lines parsed into K records hands back exactly those K records.
pub proof fn lemma_reload_result(records: Seq<Profile>)
    ensures
        hydrate_spec(reload_step_spec(false), records) is None,
        hydrate_spec(reload_step_spec(true), records) == Some(records),
        hydrate_spec(reload_step_spec(true), records)->0.len() == records.len(),
{
}

fn join_path(dir: &str, name: &str) -> (r: String)
    ensures
        r@ == dir@ + seq!['/'] + name@,
{
    let mut v = chars_of(dir);
    let n = chars_of(name);
    v.push('/');
    let ghost start = v@;
    let mut i: usize = 0;
    while i < n.len()
        invariant
            i <= n@.len(),
            v@ == start + n@.take(i as int),
        decreases n@.len() - i,
    {
        v.push(n[i]);
        i = i + 1;
        assert(v@ =~= start + n@.take(i as int));
    }
    assert(n@.take(i as int) =~= n@);
    string_of(&v)
}

/// The file that holds the current pool in directory `dir`.
pub fn current_file(dir: &str) -> (r: String)
    ensures
        r@ == dir@ + seq!['/'] + "profile.txt"@,
{
    join_path(dir, "profile.txt")
}

/// The backup file in directory `dir`.
pub fn backup_file(dir: &str) -> (r: String)
    ensures
        r@ == dir@ + seq!['/'] + "profile_old.txt"@,
{
    join_path(dir, "profile_old.txt")
}

/// The text of records written one per line, each ended by a newline.
pub open spec fn framed(ls: Seq<Seq<char>>) -> Seq<char>
    decreases ls.len(),
{
    if ls.len() == 0 {
        Seq::empty()
    } else {
        framed(ls.drop_last()) + ls.last() + seq!['\n']
    }
}

/// A line without its one trailing carriage return, if it has one.
pub open spec fn strip_cr(l: Seq<char>) -> Seq<char> {
    if l.len() > 0 && l.last() == '\r' {
        l.drop_last()
    } else {
        l
    }
}

/// The lines of a text: pieces between newlines, each that a newline ends
/// without its trailing carriage return, and a final unterminated piece,
/// kept as it is, when it is not empty.
pub open spec fn lines_of(s: Seq<char>) -> Seq<Seq<char>> {
    let p = split_spec(s, '\n');
    let body = p.drop_last().map_values(|l: Seq<char>| strip_cr(l));
    if p.last().len() == 0 {
        body
    } else {
        body.push(p.last())
    }
}

/// The views of a list of strings.
pub open spec fn strings_view(v: Seq<String>) -> Seq<Seq<char>> {
    v.map_values(|s: String| s@)
}

/// A line that framing and splitting keep as it is.
pub open spec fn is_plain_line(l: Seq<char>) -> bool {
    &&& forall|i: int| 0 <= i < l.len() ==> #[trigger] l[i] != '\n'
    &&& !(l.len() > 0 && l.last() == '\r')
}

proof fn lemma_split_append(x: Seq<char>, l: Seq<char>, sep: char)
    requires
        forall|i: int| 0 <= i < l.len() ==> #[trigger] l[i] != sep,
    ensures
        split_spec(x + l, sep) == split_spec(x, sep).drop_last().push(split_spec(x, sep).last() + l),
    decreases l.len(),
{
    lemma_split_nonempty(x, sep);
    let r = split_spec(x, sep);
    if l.len() == 0 {
        assert(x + l =~= x);
        assert(r.drop_last().push(r.last() + l) =~= r);
    } else {
        let c = l.last();
        let l2 = l.drop_last();
        assert(l2.len() < l.len());
        assert forall|i: int| 0 <= i < l2.len() implies #[trigger] l2[i] != sep by {
            assert(l2[i] == l[i]);
        }
        lemma_split_append(x, l2, sep);
        assert((x + l).drop_last() =~= x + l2);
        assert((x + l).last() == c);
        assert(c == l[l.len() - 1]);
        let r2 = split_spec(x + l2, sep);
        assert(r2 == r.drop_last().push(r.last() + l2));
        assert(r2.update(r2.len() - 1, r2.last().push(c)) =~= r.drop_last().push(r.last() + l)) by {
            assert(r.last() + l2.push(c) =~= r.last() + l);
            assert((r.last() + l2).push(c) =~= r.last() + l);
        }
    }
}

proof fn lemma_split_framed(ls: Seq<Seq<char>>)
    requires
        forall|i: int| 0 <= i < ls.len() ==> is_plain_line(#[trigger] ls[i]),
    ensures
        split_spec(framed(ls), '\n') == ls.push(Seq::<char>::empty()),
    decreases ls.len(),
{
    if ls.len() == 0 {
        assert(split_spec(Seq::<char>::empty(), '\n') =~= seq![Seq::<char>::empty()]);
        assert(ls.push(Seq::<char>::empty()) =~= seq![Seq::<char>::empty()]);
    } else {
        let dl = ls.drop_last();
        let l = ls.last();
        assert(is_plain_line(ls[ls.len() - 1]));
        assert forall|i: int| 0 <= i < dl.len() implies is_plain_line(#[trigger] dl[i]) by {
            assert(dl[i] == ls[i]);
        }
        lemma_split_framed(dl);
        let x = framed(dl);
        lemma_split_append(x, l, '\n');
        let y = x + l;
        let s = y + seq!['\n'];
        assert(framed(ls) == s);
        assert(s.drop_last() =~= y);
        assert(split_spec(s, '\n') == split_spec(y, '\n').push(Seq::<char>::empty()));
        assert(split_spec(y, '\n') =~= ls);
    }
}

/// Records written one per line come back, as lines, exactly as written,
/// as many as were written, provided no record holds a newline or ends in a
/// carriage return (a JSON text on one line holds neither).
pub proof fn lemma_lines_of_framed(ls: Seq<Seq<char>>)
    requires
        forall|i: int| 0 <= i < ls.len() ==> is_plain_line(#[trigger] ls[i]),
    ensures
        lines_of(framed(ls)) == ls,
        lines_of(framed(ls)).len() == ls.len(),
{
    lemma_split_framed(ls);
    let p = split_spec(framed(ls), '\n');
    assert(p.drop_last() =~= ls);
    assert(p.last().len() == 0);
    assert forall|i: int| 0 <= i < ls.len() implies strip_cr(#[trigger] ls[i]) == ls[i] by {
        assert(is_plain_line(ls[i]));
    }
    assert(p.drop_last().map_values(|l: Seq<char>| strip_cr(l)) =~= ls);
}

/// The text of the records, each on its own line.
pub fn frame_lines(lines: &Vec<String>) -> (r: String)
    ensures
        r@ == framed(strings_view(lines@)),
{
    let mut out: Vec<char> = Vec::new();
    let mut i: usize = 0;
    while i < lines.len()
        invariant
            i <= lines@.len(),
            out@ == framed(strings_view(lines@.take(i as int))),
        decreases lines@.len() - i,
    {
        let l = chars_of(lines[i].as_str());
        let ghost before = out@;
        let mut k: usize = 0;
        while k < l.len()
            invariant
                k <= l@.len(),
                out@ == before + l@.take(k as int),
            decreases l@.len() - k,
        {
            out.push(l[k]);
            k = k + 1;
            assert(out@ =~= before + l@.take(k as int));
        }
        out.push('\n');
        proof {
            assert(l@.take(k as int) =~= l@);
            let t = strings_view(lines@.take(i as int + 1));
            assert(t.drop_last() =~= strings_view(lines@.take(i as int)));
            assert(t.last() == lines@[i as int]@);
        }
        i = i + 1;
    }
    proof {
        assert(lines@.take(i as int) =~= lines@);
    }
    string_of(&out)
}

/// The lines of a text, as a line reader gives them.
pub fn split_lines(content: &str) -> (r: Vec<String>)
    ensures
        strings_view(r@) == lines_of(content@),
{
    let c = chars_of(content);
    let pieces = split_chars(&c, '\n');
    let ghost p = split_spec(content@, '\n');
    proof {
        lemma_split_nonempty(content@, '\n');
    }
    let last = pieces.len() - 1;
    let mut out: Vec<String> = Vec::new();
    let mut i: usize = 0;
    while i < last
        invariant
            i <= last,
            last + 1 == pieces@.len() == p.len(),
            forall|j: int| 0 <= j < pieces@.len() ==> #[trigger] pieces@[j]@ == p[j],
            strings_view(out@) == p.take(i as int).map_values(|l: Seq<char>| strip_cr(l)),
        decreases last - i,
    {
        let piece = &pieces[i];
        let line: String;
        if piece.len() > 0 && piece[piece.len() - 1] == '\r' {
            let mut v: Vec<char> = Vec::new();
            let mut k: usize = 0;
            while k < piece.len() - 1
                invariant
                    piece@.len() > 0,
                    k <= piece@.len() - 1,
                    v@ == piece@.take(k as int),
                decreases piece@.len() - 1 - k,
            {
                v.push(piece[k]);
                k = k + 1;
                assert(v@ =~= piece@.take(k as int));
            }
            assert(v@ =~= piece@.drop_last());
            line = string_of(&v);
        } else {
            line = string_of(piece);
        }
        assert(piece@ == p[i as int]);
        assert(line@ == strip_cr(p[i as int]));
        let ghost before = out@;
        out.push(line);
        proof {
            assert(strings_view(out@) =~= strings_view(before).push(strip_cr(p[i as int])));
            assert(p.take(i as int + 1).map_values(|l: Seq<char>| strip_cr(l)) =~= p.take(i as int).map_values(|l: Seq<char>| strip_cr(l)).push(strip_cr(p[i as int])));
        }
        i = i + 1;
    }
    assert(p.take(i as int) =~= p.drop_last());
    if pieces[last].len() > 0 {
        let ghost before = out@;
        out.push(string_of(&pieces[last]));
        assert(strings_view(out@) =~= strings_view(before).push(p.last()));
    }
    out
}

} // verus!
