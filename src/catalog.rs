//! The commit catalog: commits of the history, each with the annotation entries
//! whose group key matches its hash.
use vstd::multiset::Multiset;
use vstd::prelude::*;

use crate::text::{chars_of, has_prefix, starts_with};

verus! {

/// One reasoning entry attached to a commit.
#[derive(Debug)]
pub struct AnnotationEntry {
    pub what: String,
    pub why: String,
    pub how: Option<String>,
    pub backup: Option<String>,
    /// ISO-8601 time of the entry; entries are ordered by it.
    pub timestamp: String,
}

/// The entries stored under one hash-prefix key.
#[derive(Debug)]
pub struct AnnotationGroup {
    pub key: String,
    pub entries: Vec<AnnotationEntry>,
}

/// A commit as the history query delivers it.
#[derive(Debug)]
pub struct CommitHeader {
    pub full_hash: String,
    pub short_hash: String,
    pub summary: String,
}

/// A commit with the annotation entries matched to it, oldest first.
#[derive(Debug)]
pub struct CommitRecord {
    pub full_hash: String,
    pub short_hash: String,
    pub summary: String,
    pub annotations: Vec<AnnotationEntry>,
}

fn copy_opt(s: &Option<String>) -> (r: Option<String>)
    ensures
        r == *s,
{
    match s {
        Some(t) => Some(t.clone()),
        None => None,
    }
}

impl Clone for AnnotationEntry {
    fn clone(&self) -> (r: Self)
        ensures
            r == *self,
    {
        AnnotationEntry {
            what: self.what.clone(),
            why: self.why.clone(),
            how: copy_opt(&self.how),
            backup: copy_opt(&self.backup),
            timestamp: self.timestamp.clone(),
        }
    }
}

/// Whether an annotation group keyed `key` belongs to the commit with hashes
/// `full` and `short`. The store keys groups by the first eight characters of
/// the hash, while the history's display hash may be shorter, so the match
/// goes either way: the key starts the full hash, or the display hash starts
/// the key.
pub open spec fn group_matches(key: Seq<char>, full: Seq<char>, short: Seq<char>) -> bool {
    starts_with(full, key) || starts_with(key, short)
}

/// The index of the first group in `groups` that matches the commit.
pub open spec fn first_match(groups: Seq<AnnotationGroup>, full: Seq<char>, short: Seq<char>) -> Option<int>
    decreases groups.len(),
{
    if groups.len() == 0 {
        None
    } else {
        match first_match(groups.drop_last(), full, short) {
            Some(j) => Some(j),
            None => if group_matches(groups.last().key@, full, short) {
                Some(groups.len() - 1)
            } else {
                None
            },
        }
    }
}

/// Lexicographic order of timestamps, character by character.
pub open spec fn time_le(a: Seq<char>, b: Seq<char>) -> bool
    decreases a.len(),
{
    if a.len() == 0 {
        true
    } else if b.len() == 0 {
        false
    } else if (a[0] as int) < (b[0] as int) {
        true
    } else if (a[0] as int) > (b[0] as int) {
        false
    } else {
        time_le(a.drop_first(), b.drop_first())
    }
}

/// Entries in ascending timestamp order.
pub open spec fn sorted_by_time(s: Seq<AnnotationEntry>) -> bool {
    forall|i: int| 0 <= i < s.len() - 1 ==> time_le(#[trigger] s[i].timestamp@, s[i + 1].timestamp@)
}

/// The annotation entries that a commit with hashes `full` and `short` gets
/// from `groups`: those of the first matching group, in any order.
pub open spec fn matched_entries(
    groups: Option<Seq<AnnotationGroup>>,
    full: Seq<char>,
    short: Seq<char>,
) -> Multiset<AnnotationEntry> {
    match groups {
        None => Multiset::empty(),
        Some(gs) => match first_match(gs, full, short) {
            None => Multiset::empty(),
            Some(j) => gs[j].entries@.to_multiset(),
        },
    }
}

/// `r` is the record of commit `h` with the annotations it gets from `groups`.
pub open spec fn record_of(
    r: CommitRecord,
    h: CommitHeader,
    groups: Option<Seq<AnnotationGroup>>,
) -> bool {
    &&& r.full_hash == h.full_hash
    &&& r.short_hash == h.short_hash
    &&& r.summary == h.summary
    &&& r.annotations@.to_multiset() == matched_entries(groups, h.full_hash@, h.short_hash@)
    &&& sorted_by_time(r.annotations@)
}

proof fn lemma_time_total(a: Seq<char>, b: Seq<char>)
    ensures
        time_le(a, b) || time_le(b, a),
    decreases a.len(),
{
    if a.len() > 0 && b.len() > 0 && a[0] == b[0] {
        lemma_time_total(a.drop_first(), b.drop_first());
    }
}

proof fn lemma_first_match_bounds(groups: Seq<AnnotationGroup>, full: Seq<char>, short: Seq<char>)
    ensures
        first_match(groups, full, short) matches Some(j) ==> 0 <= j < groups.len(),
    decreases groups.len(),
{
    if groups.len() > 0 {
        lemma_first_match_bounds(groups.drop_last(), full, short);
    }
}

/// Whether the group keyed `key` belongs to the commit with hashes `full` and
/// `short`.
pub fn matches_commit(key: &str, full: &str, short: &str) -> (r: bool)
    ensures
        r == group_matches(key@, full@, short@),
{
    let k = chars_of(key);
    let f = chars_of(full);
    let s = chars_of(short);
    has_prefix(&f, k.as_slice()) || has_prefix(&k, s.as_slice())
}

/// Whether timestamp `a` sorts no later than `b`.
pub fn time_not_after(a: &str, b: &str) -> (r: bool)
    ensures
        r == time_le(a@, b@),
{
    let x = chars_of(a);
    let y = chars_of(b);
    let mut i: usize = 0;
    assert(a@.skip(0) =~= a@ && b@.skip(0) =~= b@);
    while i < x.len() && i < y.len()
        invariant
            i <= x@.len(),
            i <= y@.len(),
            x@ == a@,
            y@ == b@,
            time_le(a@, b@) == time_le(a@.skip(i as int), b@.skip(i as int)),
        decreases x.len() - i,
    {
        let (c, d) = (x[i], y[i]);
        if c < d {
            return true;
        }
        if c > d {
            return false;
        }
        assert(a@.skip(i as int).drop_first() =~= a@.skip(i + 1));
        assert(b@.skip(i as int).drop_first() =~= b@.skip(i + 1));
        i += 1;
    }
    i == x.len()
}

proof fn lemma_insert_to_multiset(s: Seq<AnnotationEntry>, j: int, x: AnnotationEntry)
    requires
        0 <= j <= s.len(),
    ensures
        s.insert(j, x).to_multiset() == s.to_multiset().insert(x),
{
    let t = s.insert(j, x);
    t.to_multiset_ensures();
    assert(t.remove(j) =~= s);
    assert(t[j] == x);
    assert(t.to_multiset().count(x) > 0);
    assert(t.to_multiset() =~= s.to_multiset().insert(x));
}

proof fn lemma_insert_sorted(s: Seq<AnnotationEntry>, j: int, x: AnnotationEntry)
    requires
        0 <= j <= s.len(),
        sorted_by_time(s),
        j > 0 ==> time_le(s[j - 1].timestamp@, x.timestamp@),
        j < s.len() ==> !time_le(s[j].timestamp@, x.timestamp@),
    ensures
        sorted_by_time(s.insert(j, x)),
{
    let t = s.insert(j, x);
    if j < s.len() {
        lemma_time_total(s[j].timestamp@, x.timestamp@);
    }
    assert forall|i: int| 0 <= i < t.len() - 1 implies time_le(
        #[trigger] t[i].timestamp@,
        t[i + 1].timestamp@,
    ) by {
        if i + 1 < j {
            assert(t[i] == s[i] && t[i + 1] == s[i + 1]);
        } else if i > j {
            assert(t[i] == s[i - 1] && t[i + 1] == s[i]);
        }
    }
}

fn insert_by_time(out: &mut Vec<AnnotationEntry>, x: AnnotationEntry)
    requires
        sorted_by_time(old(out)@),
    ensures
        sorted_by_time(final(out)@),
        final(out)@.to_multiset() == old(out)@.to_multiset().insert(x),
{
    let mut j: usize = out.len();
    while j > 0 && !time_not_after(out[j - 1].timestamp.as_str(), x.timestamp.as_str())
        invariant
            j <= out@.len(),
            out@ == old(out)@,
            forall|k: int| j <= k < out@.len() ==> !time_le(#[trigger] out@[k].timestamp@, x.timestamp@),
        decreases j,
    {
        j -= 1;
    }
    proof {
        lemma_insert_sorted(out@, j as int, x);
        lemma_insert_to_multiset(out@, j as int, x);
    }
    out.insert(j, x);
}

/// Sorts entries by ascending timestamp.
pub fn sort_by_time(v: Vec<AnnotationEntry>) -> (r: Vec<AnnotationEntry>)
    ensures
        r@.to_multiset() == v@.to_multiset(),
        sorted_by_time(r@),
{
    let mut out: Vec<AnnotationEntry> = Vec::new();
    let mut rest = v;
    let ghost orig = rest@;
    proof {
        out@.to_multiset_ensures();
        assert(out@.to_multiset() =~= Multiset::empty());
        assert(out@.to_multiset().add(rest@.to_multiset()) =~= orig.to_multiset());
    }
    while rest.len() > 0
        invariant
            sorted_by_time(out@),
            out@.to_multiset().add(rest@.to_multiset()) == orig.to_multiset(),
        decreases rest.len(),
    {
        let ghost before_rest = rest@;
        let ghost before_out = out@;
        let x = rest.remove(0);
        proof {
            before_rest.to_multiset_ensures();
            assert(before_rest.to_multiset().remove(x) == rest@.to_multiset());
            assert(before_rest.to_multiset().count(x) > 0);
            assert(before_rest.to_multiset() =~= rest@.to_multiset().insert(x));
        }
        insert_by_time(&mut out, x);
        assert(out@.to_multiset().add(rest@.to_multiset()) =~= before_out.to_multiset().add(
            before_rest.to_multiset(),
        ));
    }
    proof {
        rest@.to_multiset_ensures();
        assert(rest@.to_multiset() =~= Multiset::empty());
        assert(out@.to_multiset() =~= orig.to_multiset());
    }
    out
}

/// The annotation groups as a sequence, when the store could be read.
pub open spec fn groups_view(groups: Option<Vec<AnnotationGroup>>) -> Option<Seq<AnnotationGroup>> {
    match groups {
        Some(g) => Some(g@),
        None => None,
    }
}

proof fn lemma_first_match_extends(gs: Seq<AnnotationGroup>, k: int, full: Seq<char>, short: Seq<char>)
    requires
        0 <= k <= gs.len(),
        first_match(gs.take(k), full, short) is Some,
    ensures
        first_match(gs, full, short) == first_match(gs.take(k), full, short),
    decreases gs.len(),
{
    if k == gs.len() {
        assert(gs.take(k) =~= gs);
    } else {
        assert(gs.drop_last().take(k) =~= gs.take(k));
        lemma_first_match_extends(gs.drop_last(), k, full, short);
    }
}

fn find_group(groups: &Vec<AnnotationGroup>, full: &str, short: &str) -> (r: Option<usize>)
    ensures
        r matches Some(j) ==> first_match(groups@, full@, short@) == Some(j as int),
        r is None ==> first_match(groups@, full@, short@) is None,
{
    let mut i: usize = 0;
    assert(groups@.take(0) =~= Seq::<AnnotationGroup>::empty());
    while i < groups.len()
        invariant
            i <= groups@.len(),
            first_match(groups@.take(i as int), full@, short@) is None,
        decreases groups.len() - i,
    {
        assert(groups@.take(i + 1).drop_last() =~= groups@.take(i as int));
        if matches_commit(groups[i].key.as_str(), full, short) {
            proof {
                lemma_first_match_extends(groups@, i + 1, full@, short@);
            }
            return Some(i);
        }
        i += 1;
    }
    assert(groups@.take(groups@.len() as int) =~= groups@);
    None
}

fn copy_entries(v: &Vec<AnnotationEntry>) -> (r: Vec<AnnotationEntry>)
    ensures
        r@ == v@,
{
    let mut r: Vec<AnnotationEntry> = Vec::new();
    let mut i: usize = 0;
    while i < v.len()
        invariant
            i <= v@.len(),
            r@ == v@.take(i as int),
        decreases v.len() - i,
    {
        r.push(v[i].clone());
        assert(v@.take(i + 1) =~= v@.take(i as int).push(v@[i as int]));
        i += 1;
    }
    assert(v@.take(v@.len() as int) =~= v@);
    r
}

/// The record of one commit, with the entries of the first annotation group
/// that matches it sorted by time; no entries when nothing matches or the
/// store could not be read.
pub fn record_for(h: &CommitHeader, groups: &Option<Vec<AnnotationGroup>>) -> (r: CommitRecord)
    ensures
        record_of(r, *h, groups_view(*groups)),
{
    let mut entries: Vec<AnnotationEntry> = Vec::new();
    if let Some(gs) = groups {
        if let Some(j) = find_group(gs, h.full_hash.as_str(), h.short_hash.as_str()) {
            proof {
                lemma_first_match_bounds(gs@, h.full_hash@, h.short_hash@);
            }
            entries = copy_entries(&gs[j].entries);
        }
    }
    proof {
        if entries@.len() == 0 {
            entries@.to_multiset_ensures();
            assert(entries@.to_multiset() =~= Multiset::empty());
        }
    }
    let sorted = sort_by_time(entries);
    CommitRecord {
        full_hash: h.full_hash.clone(),
        short_hash: h.short_hash.clone(),
        summary: h.summary.clone(),
        annotations: sorted,
    }
}

/// The catalog of the session: one record per commit of `history`, in the
/// order given.
pub fn build_catalog(history: &Vec<CommitHeader>, groups: &Option<Vec<AnnotationGroup>>) -> (r: Vec<
    CommitRecord,
>)
    ensures
        r@.len() == history@.len(),
        forall|i: int| 0 <= i < r@.len() ==> record_of(#[trigger] r@[i], history@[i], groups_view(*groups)),
{
    let mut out: Vec<CommitRecord> = Vec::new();
    let mut i: usize = 0;
    while i < history.len()
        invariant
            i <= history@.len(),
            out@.len() == i,
            forall|k: int| 0 <= k < i ==> record_of(#[trigger] out@[k], history@[k], groups_view(*groups)),
        decreases history.len() - i,
    {
        let rec = record_for(&history[i], groups);
        out.push(rec);
        i += 1;
    }
    out
}

/// `order` lists indices of `stamps`, each once, newest timestamp first.
pub open spec fn newest_order(stamps: Seq<String>, order: Seq<usize>) -> bool {
    &&& order.to_multiset() == Seq::new(stamps.len(), |i: int| i as usize).to_multiset()
    &&& forall|k: int|
        0 <= k < order.len() - 1 ==> time_le(
            stamps[order[k + 1] as int]@,
            #[trigger] stamps[order[k] as int]@,
        )
}

fn insert_newest(out: &mut Vec<usize>, x: usize, stamps: &Vec<String>)
    requires
        forall|k: int| 0 <= k < old(out)@.len() ==> (#[trigger] old(out)@[k]) < stamps@.len(),
        x < stamps@.len(),
        forall|k: int|
            0 <= k < old(out)@.len() - 1 ==> time_le(
                stamps@[old(out)@[k + 1] as int]@,
                #[trigger] stamps@[old(out)@[k] as int]@,
            ),
    ensures
        forall|k: int| 0 <= k < final(out)@.len() ==> (#[trigger] final(out)@[k]) < stamps@.len(),
        forall|k: int|
            0 <= k < final(out)@.len() - 1 ==> time_le(
                stamps@[final(out)@[k + 1] as int]@,
                #[trigger] stamps@[final(out)@[k] as int]@,
            ),
        final(out)@.to_multiset() == old(out)@.to_multiset().insert(x),
{
    let mut j: usize = out.len();
    while j > 0 && !time_not_after(stamps[x].as_str(), stamps[out[j - 1]].as_str())
        invariant
            j <= out@.len(),
            out@ == old(out)@,
            x < stamps@.len(),
            forall|k: int| 0 <= k < out@.len() ==> (#[trigger] out@[k]) < stamps@.len(),
            forall|k: int|
                j <= k < out@.len() ==> !time_le(
                    stamps@[x as int]@,
                    #[trigger] stamps@[out@[k] as int]@,
                ),
        decreases j,
    {
        j -= 1;
    }
    let ghost s = out@;
    proof {
        let t = s.insert(j as int, x);
        if j < s.len() {
            lemma_time_total(stamps@[x as int]@, stamps@[s[j as int] as int]@);
        }
        assert forall|i: int| 0 <= i < t.len() - 1 implies time_le(
            stamps@[t[i + 1] as int]@,
            #[trigger] stamps@[t[i] as int]@,
        ) by {
            if i + 1 < j {
                assert(t[i] == s[i] && t[i + 1] == s[i + 1]);
            } else if i > j {
                assert(t[i] == s[i - 1] && t[i + 1] == s[i]);
            }
        }
        t.to_multiset_ensures();
        assert(t.remove(j as int) =~= s);
        assert(t[j as int] == x);
        assert(t.to_multiset().count(x) > 0);
        assert(t.to_multiset() =~= s.to_multiset().insert(x));
    }
    out.insert(j, x);
}

/// The indices of the `limit` newest timestamps of `stamps`, newest first.
pub fn newest_first(stamps: &Vec<String>, limit: usize) -> (r: Vec<usize>)
    ensures
        exists|order: Seq<usize>|
            newest_order(stamps@, order) && r@ == order.take(
                if limit < stamps@.len() {
                    limit as int
                } else {
                    stamps@.len() as int
                },
            ),
{
    let mut out: Vec<usize> = Vec::new();
    let n = stamps.len();
    let mut i: usize = 0;
    proof {
        out@.to_multiset_ensures();
        assert(Seq::new(0, |k: int| k as usize) =~= Seq::<usize>::empty());
        assert(out@ =~= Seq::<usize>::empty());
    }
    while i < n
        invariant
            n == stamps@.len(),
            i <= n,
            out@.to_multiset() == Seq::new(i as nat, |k: int| k as usize).to_multiset(),
            forall|k: int| 0 <= k < out@.len() ==> (#[trigger] out@[k]) < n,
            forall|k: int|
                0 <= k < out@.len() - 1 ==> time_le(
                    stamps@[out@[k + 1] as int]@,
                    #[trigger] stamps@[out@[k] as int]@,
                ),
        decreases n - i,
    {
        insert_newest(&mut out, i, stamps);
        proof {
            let a = Seq::new(i as nat, |k: int| k as usize);
            let b = Seq::new((i + 1) as nat, |k: int| k as usize);
            assert(b =~= a.push(i));
            a.to_multiset_ensures();
        }
        i += 1;
    }
    let ghost order = out@;
    proof {
        let all = Seq::new(stamps@.len(), |k: int| k as usize);
        assert(Seq::new(i as nat, |k: int| k as usize) =~= all);
        out@.to_multiset_ensures();
        all.to_multiset_ensures();
        assert(out@.len() == n);
        assert(newest_order(stamps@, order));
    }
    let keep = if limit < n {
        limit
    } else {
        n
    };
    out.truncate(keep);
    proof {
        assert(out@ =~= order.take(keep as int));
    }
    out
}

/// Without a readable store no commit gets any annotation entry.
pub proof fn lemma_no_store_no_annotations(r: CommitRecord, h: CommitHeader)
    requires
        record_of(r, h, None),
    ensures
        r.annotations@.len() == 0,
{
    r.annotations@.to_multiset_ensures();
}

/// The text that presents one entry.
pub open spec fn entry_text(e: AnnotationEntry) -> Seq<char> {
    "what: "@ + e.what@ + "\nwhy:  "@ + e.why@ + match e.how {
        Some(h) => "\nhow:  "@ + h@,
        None => Seq::empty(),
    } + match e.backup {
        Some(b) => "\nback: "@ + b@,
        None => Seq::empty(),
    }
}

/// The texts of `es`, in order, with a separator line between each two.
pub open spec fn entries_text(es: Seq<AnnotationEntry>) -> Seq<char>
    decreases es.len(),
{
    if es.len() == 0 {
        Seq::empty()
    } else if es.len() == 1 {
        entry_text(es[0])
    } else {
        entries_text(es.drop_last()) + "\n\n---\n\n"@ + entry_text(es.last())
    }
}

/// The reasoning shown for the selected commit, if any.
pub open spec fn reasoning_of(c: Option<CommitRecord>) -> Seq<char> {
    match c {
        None => "No commit selected"@,
        Some(c) => if c.annotations@.len() == 0 {
            "(no annotation for this commit)"@
        } else {
            entries_text(c.annotations@)
        },
    }
}

fn append_entry(s: &mut String, e: &AnnotationEntry)
    ensures
        final(s)@ == old(s)@ + entry_text(*e),
{
    s.append("what: ");
    s.append(e.what.as_str());
    s.append("\nwhy:  ");
    s.append(e.why.as_str());
    if let Some(h) = &e.how {
        s.append("\nhow:  ");
        s.append(h.as_str());
    }
    if let Some(b) = &e.backup {
        s.append("\nback: ");
        s.append(b.as_str());
    }
    assert(s@ =~= old(s)@ + entry_text(*e));
}

/// The reasoning text of a commit: its entries separated by a rule, or a
/// note that it has none, or that no commit is selected.
pub fn reasoning_text(commit: Option<&CommitRecord>) -> (r: String)
    ensures
        r@ == reasoning_of(match commit {
            Some(c) => Some(*c),
            None => None,
        }),
{
    match commit {
        None => String::from_str("No commit selected"),
        Some(c) => {
            if c.annotations.len() == 0 {
                String::from_str("(no annotation for this commit)")
            } else {
                let mut s = String::new();
                append_entry(&mut s, &c.annotations[0]);
                let mut i: usize = 1;
                assert(c.annotations@.take(1).drop_last() =~= Seq::<AnnotationEntry>::empty());
                assert(s@ =~= entries_text(c.annotations@.take(1)));
                while i < c.annotations.len()
                    invariant
                        1 <= i <= c.annotations@.len(),
                        s@ == entries_text(c.annotations@.take(i as int)),
                    decreases c.annotations.len() - i,
                {
                    s.append("\n\n---\n\n");
                    append_entry(&mut s, &c.annotations[i]);
                    assert(c.annotations@.take(i + 1).drop_last() =~= c.annotations@.take(i as int));
                    i += 1;
                }
                assert(c.annotations@.take(c.annotations@.len() as int) =~= c.annotations@);
                s
            }
        },
    }
}

} // verus!
