//! Character-level helpers shared by the classifier and the catalog.
use vstd::prelude::*;

verus! {

/// True when `p` is a prefix of `s`.
pub open spec fn starts_with(s: Seq<char>, p: Seq<char>) -> bool {
    p.len() <= s.len() && s.subrange(0, p.len() as int) == p
}

/// Relies on `String::push`: it appends `ch` to the end of the string.
pub assume_specification[ String::push ](s: &mut String, ch: char)
    ensures
        final(s)@ == old(s)@.push(ch),
;

/// The characters of `s`, in order.
pub fn chars_of(s: &str) -> (r: Vec<char>)
    ensures
        r@ == s@,
{
    let mut r: Vec<char> = Vec::new();
    for c in it: s.chars()
        invariant
            r@ == it.seq().take(it.index() as int),
    {
        r.push(c);
    }
    r
}

/// Drops one trailing carriage return, as a `\r\n` line ending leaves it.
pub open spec fn strip_cr(s: Seq<char>) -> Seq<char> {
    if s.len() > 0 && s.last() == '\r' {
        s.drop_last()
    } else {
        s
    }
}

/// The pieces of `t` between newline characters; there is always at least one.
pub open spec fn pieces(t: Seq<char>) -> Seq<Seq<char>>
    decreases t.len(),
{
    if t.len() == 0 {
        seq![Seq::empty()]
    } else {
        let p = pieces(t.drop_last());
        if t.last() == '\n' {
            p.push(Seq::empty())
        } else {
            p.update(p.len() - 1, p.last().push(t.last()))
        }
    }
}

/// The lines of `t`: every piece that a newline ends loses a trailing carriage
/// return, and an empty piece after the last newline is no line.
pub open spec fn lines_of(t: Seq<char>) -> Seq<Seq<char>> {
    let p = pieces(t);
    let ended = p.drop_last().map_values(|l: Seq<char>| strip_cr(l));
    if p.last().len() == 0 {
        ended
    } else {
        ended.push(p.last())
    }
}

pub proof fn lemma_pieces_nonempty(t: Seq<char>)
    ensures
        pieces(t).len() >= 1,
    decreases t.len(),
{
    if t.len() > 0 {
        lemma_pieces_nonempty(t.drop_last());
    }
}

/// Whether `p` is a prefix of `s`.
pub fn has_prefix(s: &Vec<char>, p: &[char]) -> (r: bool)
    ensures
        r == starts_with(s@, p@),
{
    if p.len() > s.len() {
        return false;
    }
    let mut i: usize = 0;
    while i < p.len()
        invariant
            p@.len() <= s@.len(),
            i <= p@.len(),
            forall|k: int| 0 <= k < i ==> s@[k] == p@[k],
        decreases p.len() - i,
    {
        if s[i] != p[i] {
            assert(s@.subrange(0, p@.len() as int)[i as int] != p@[i as int]);
            return false;
        }
        i += 1;
    }
    assert(s@.subrange(0, p@.len() as int) =~= p@);
    true
}

/// A string holding the characters of `cs` from `from` up to `to`.
pub fn string_of_range(cs: &Vec<char>, from: usize, to: usize) -> (r: String)
    requires
        from <= to <= cs@.len(),
    ensures
        r@ == cs@.subrange(from as int, to as int),
{
    let mut r = String::new();
    let mut i: usize = from;
    while i < to
        invariant
            from <= i <= to <= cs@.len(),
            r@ == cs@.subrange(from as int, i as int),
        decreases to - i,
    {
        r.push(cs[i]);
        assert(cs@.subrange(from as int, i + 1) =~= cs@.subrange(from as int, i as int).push(
            cs@[i as int],
        ));
        i += 1;
    }
    r
}

/// A string holding the characters of `cs`.
pub fn string_of(cs: &Vec<char>) -> (r: String)
    ensures
        r@ == cs@,
{
    let r = string_of_range(cs, 0, cs.len());
    assert(cs@.subrange(0, cs@.len() as int) =~= cs@);
    r
}

fn strip_trailing_cr(mut line: Vec<char>) -> (r: Vec<char>)
    ensures
        r@ == strip_cr(line@),
{
    let n = line.len();
    if n > 0 && line[n - 1] == '\r' {
        line.pop();
    }
    line
}

/// Splits `cs` into its lines.
pub fn split_lines(cs: &Vec<char>) -> (r: Vec<Vec<char>>)
    ensures
        r@.len() == lines_of(cs@).len(),
        forall|k: int| 0 <= k < r@.len() ==> r@[k]@ == lines_of(cs@)[k],
{
    let mut out: Vec<Vec<char>> = Vec::new();
    let mut cur: Vec<char> = Vec::new();
    let mut i: usize = 0;
    proof {
        assert(cs@.take(0) =~= Seq::<char>::empty());
    }
    while i < cs.len()
        invariant
            i <= cs@.len(),
            out@.len() + 1 == pieces(cs@.take(i as int)).len(),
            forall|k: int|
                0 <= k < out@.len() ==> out@[k]@ == strip_cr(pieces(cs@.take(i as int))[k]),
            cur@ == pieces(cs@.take(i as int)).last(),
        decreases cs.len() - i,
    {
        let ghost before = cs@.take(i as int);
        let ghost after = cs@.take(i + 1);
        proof {
            assert(after.drop_last() =~= before);
            lemma_pieces_nonempty(before);
        }
        let c = cs[i];
        if c == '\n' {
            let line = strip_trailing_cr(cur);
            out.push(line);
            cur = Vec::new();
            assert(cur@ =~= pieces(after).last());
        } else {
            cur.push(c);
        }
        i += 1;
    }
    proof {
        assert(cs@.take(cs@.len() as int) =~= cs@);
        lemma_pieces_nonempty(cs@);
    }
    if cur.len() > 0 {
        out.push(cur);
    }
    out
}

} // verus!
