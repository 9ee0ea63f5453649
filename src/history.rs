//! Reading the one-line history listing and naming annotation groups.
use vstd::prelude::*;

use crate::text::{
    chars_of, has_prefix, lines_of, split_lines, starts_with, string_of, string_of_range,
};

verus! {

/// The number of bytes of a hash that names an annotation group.
pub const KEY_BYTES: usize = 8;

/// `(id, rest)` splits `line` at its first space: `id` holds no space, and
/// `rest` is what follows that space, or nothing when the line has none.
pub open spec fn splits_at_first_space(line: Seq<char>, id: Seq<char>, rest: Seq<char>) -> bool {
    &&& !id.contains(' ')
    &&& if line.contains(' ') {
        line == id + seq![' '] + rest
    } else {
        id == line && rest.len() == 0
    }
}

/// The number of bytes that `c` takes in UTF-8.
pub open spec fn utf8_width(c: char) -> int {
    if (c as u32) < 0x80 {
        1
    } else if (c as u32) < 0x800 {
        2
    } else if (c as u32) < 0x10000 {
        3
    } else {
        4
    }
}

/// The number of bytes that `s` takes in UTF-8.
pub open spec fn utf8_len(s: Seq<char>) -> int
    decreases s.len(),
{
    if s.len() == 0 {
        0
    } else {
        utf8_len(s.drop_last()) + utf8_width(s.last())
    }
}

/// The number of bytes of `hash` that its key keeps: eight, or all of them
/// when it is shorter.
pub open spec fn key_bytes(hash: Seq<char>) -> int {
    if utf8_len(hash) < KEY_BYTES {
        utf8_len(hash)
    } else {
        KEY_BYTES as int
    }
}

/// Whether the first `k` characters of `hash` span exactly the key's bytes.
pub open spec fn spans_key(hash: Seq<char>, k: int) -> bool {
    0 <= k <= hash.len() && utf8_len(hash.take(k)) == key_bytes(hash)
}

/// The key under which the annotations of a commit with hash `hash` are
/// stored: the characters that make up its first eight bytes (all of it
/// when it is shorter). There is none when the eighth byte ends inside a
/// character.
pub open spec fn key_of(hash: Seq<char>) -> Option<Seq<char>> {
    if exists|k: int| spans_key(hash, k) {
        Some(hash.take(choose|k: int| spans_key(hash, k)))
    } else {
        None
    }
}

proof fn lemma_utf8_len_step(s: Seq<char>, k: int)
    requires
        0 <= k < s.len(),
    ensures
        utf8_len(s.take(k + 1)) == utf8_len(s.take(k)) + utf8_width(s[k]),
{
    assert(s.take(k + 1).drop_last() =~= s.take(k));
}

proof fn lemma_utf8_len_grows(s: Seq<char>, j: int, k: int)
    requires
        0 <= j < k <= s.len(),
    ensures
        utf8_len(s.take(j)) < utf8_len(s.take(k)),
    decreases k - j,
{
    lemma_utf8_len_step(s, k - 1);
    if j < k - 1 {
        lemma_utf8_len_grows(s, j, k - 1);
    }
}

proof fn lemma_key_at(hash: Seq<char>, k: int)
    requires
        spans_key(hash, k),
    ensures
        key_of(hash) == Some(hash.take(k)),
{
    let c = choose|i: int| spans_key(hash, i);
    if c < k {
        lemma_utf8_len_grows(hash, c, k);
    } else if k < c {
        lemma_utf8_len_grows(hash, k, c);
    }
}

fn utf8_width_of(c: char) -> (r: usize)
    ensures
        r == utf8_width(c),
{
    let v = c as u32;
    if v < 0x80 {
        1
    } else if v < 0x800 {
        2
    } else if v < 0x10000 {
        3
    } else {
        4
    }
}

/// The annotation group key for a commit hash: the characters of its first
/// eight bytes, or none when the eighth byte ends inside a character.
pub fn record_key(hash: &str) -> (r: Option<String>)
    ensures
        r matches Some(k) ==> key_of(hash@) == Some(k@),
        r is None ==> key_of(hash@) is None,
{
    let cs = chars_of(hash);
    let mut i: usize = 0;
    let mut used: usize = 0;
    assert(hash@.take(0) =~= Seq::<char>::empty());
    while i < cs.len() && used < KEY_BYTES
        invariant
            cs@ == hash@,
            i <= cs@.len(),
            used == utf8_len(hash@.take(i as int)),
            used <= KEY_BYTES,
        decreases cs.len() - i,
    {
        let w = utf8_width_of(cs[i]);
        proof {
            lemma_utf8_len_step(hash@, i as int);
        }
        if used + w > KEY_BYTES {
            proof {
                assert(utf8_len(hash@) >= used + w) by {
                    if i + 1 < hash@.len() {
                        lemma_utf8_len_grows(hash@, i + 1, hash@.len() as int);
                    }
                    assert(hash@.take(hash@.len() as int) =~= hash@);
                }
                assert forall|k: int| !spans_key(hash@, k) by {
                    if 0 <= k <= hash@.len() {
                        if k < i + 1 {
                            if k < i {
                                lemma_utf8_len_grows(hash@, k, i as int);
                            }
                        } else if k > i + 1 {
                            lemma_utf8_len_grows(hash@, i + 1, k);
                        }
                    }
                }
            }
            return None;
        }
        used = used + w;
        i += 1;
    }
    proof {
        if i == cs.len() {
            assert(hash@.take(i as int) =~= hash@);
        } else {
            if i < hash@.len() {
                lemma_utf8_len_grows(hash@, i as int, hash@.len() as int);
            }
            assert(hash@.take(hash@.len() as int) =~= hash@);
        }
        assert(spans_key(hash@, i as int));
        lemma_key_at(hash@, i as int);
    }
    let r = string_of_range(&cs, 0, i);
    assert(r@ =~= hash@.take(i as int));
    Some(r)
}

/// Whether the group keyed `key` starts with the display hash `short`.
pub fn key_starts_with(key: &str, short: &str) -> (r: bool)
    ensures
        r == starts_with(key@, short@),
{
    let k = chars_of(key);
    let s = chars_of(short);
    has_prefix(&k, s.as_slice())
}

fn split_chars(cs: &Vec<char>) -> (r: (String, String))
    ensures
        splits_at_first_space(cs@, r.0@, r.1@),
{
    let mut p: usize = 0;
    while p < cs.len() && cs[p] != ' '
        invariant
            p <= cs@.len(),
            forall|k: int| 0 <= k < p ==> cs@[k] != ' ',
        decreases cs.len() - p,
    {
        p += 1;
    }
    if p == cs.len() {
        let id = string_of(cs);
        proof {
            assert forall|k: int| 0 <= k < cs@.len() implies cs@[k] != ' ' by {}
        }
        (id, String::new())
    } else {
        let id = string_of_range(cs, 0, p);
        let rest = string_of_range(cs, p + 1, cs.len());
        proof {
            assert(cs@ =~= id@ + seq![' '] + rest@);
            assert(cs@[p as int] == ' ');
            assert(!id@.contains(' ')) by {
                assert forall|k: int| 0 <= k < id@.len() implies id@[k] != ' ' by {}
            }
        }
        (id, rest)
    }
}

/// Splits one line of the history listing into the display hash and the
/// summary.
pub fn parse_log_line(line: &str) -> (r: (String, String))
    ensures
        splits_at_first_space(line@, r.0@, r.1@),
{
    let cs = chars_of(line);
    split_chars(&cs)
}

/// Splits the history listing into `(display hash, summary)` pairs, one per
/// line, in order.
pub fn parse_log(text: &str) -> (r: Vec<(String, String)>)
    ensures
        r@.len() == lines_of(text@).len(),
        forall|k: int|
            0 <= k < r@.len() ==> splits_at_first_space(lines_of(text@)[k], (#[trigger] r@[k]).0@, r@[k].1@),
{
    let cs = chars_of(text);
    let lines = split_lines(&cs);
    let mut out: Vec<(String, String)> = Vec::new();
    let mut i: usize = 0;
    while i < lines.len()
        invariant
            i <= lines@.len(),
            lines@.len() == lines_of(text@).len(),
            forall|k: int| 0 <= k < lines@.len() ==> lines@[k]@ == lines_of(text@)[k],
            out@.len() == i,
            forall|k: int|
                0 <= k < i ==> splits_at_first_space(lines_of(text@)[k], (#[trigger] out@[k]).0@, out@[k].1@),
        decreases lines.len() - i,
    {
        let pair = split_chars(&lines[i]);
        out.push(pair);
        i += 1;
    }
    out
}

/// Which of pull and push a synchronisation runs, as `(pull, push)`: both
/// when neither was asked for, else those asked for.
pub fn sync_plan(push: bool, pull: bool) -> (r: (bool, bool))
    ensures
        r == (if !push && !pull {
            (true, true)
        } else {
            (pull, push)
        }),
{
    if !push && !pull {
        (true, true)
    } else {
        (pull, push)
    }
}

} // verus!
