//! Simulation data file management.
//!
//! A data file is held in memory with a sorted OID index, built once when
//! the file is loaded; lookups find the record line of an OID and evaluate
//! it with the record handler of the file's kind.

use vstd::prelude::*;

use crate::error::SnmpsimError;
use crate::grammar::dump::DumpGrammar;
use crate::grammar::snmprec::SnmprecGrammar;
use crate::grammar::walk::WalkGrammar;
use crate::grammar::Grammar;
use crate::oid::{is_prefix, oid_lt, oid_parse, Oid};
use crate::record::{
    eval_step, record_fields, EvalContext, EvalFlags, RecordHandler, RecordKind,
};
use crate::snmp_value::{SnmpValue, SpecValue};
use crate::text::{chars_of, ends_with, starts_with, string_from};
use crate::record::snmprec::EvalState;
use crate::variation::last_value;

verus! {

/// Label used when context engine ID matches "self".
pub const SELF_LABEL: &'static str = "self";

// ─── Index entry ─────────────────────────────────────────────────────────────

/// Entry in the OID index for a data file.
#[derive(Debug, Clone, Copy, PartialEq, Eq)]
pub struct IndexEntry {
    /// Byte offset of the record line in the data file.
    pub offset: u64,
    /// True if this OID record serves a subtree (tag starts with ':').
    pub subtree_flag: bool,
    /// Byte offset of the previous subtree record, if any.
    pub prev_offset: Option<u64>,
}

// ─── Lines ───────────────────────────────────────────────────────────────────

/// ASCII whitespace, as `u8::is_ascii_whitespace` tests it.
pub open spec fn is_ascii_ws(b: u8) -> bool {
    b == 32 || b == 9 || b == 10 || b == 12 || b == 13
}

/// A line that is empty after trimming ASCII whitespace, or starts with `#`.
pub open spec fn blank_or_comment(l: Seq<u8>) -> bool
    decreases l.len(),
{
    if l.len() == 0 {
        true
    } else if is_ascii_ws(l[0]) {
        blank_or_comment(l.drop_first())
    } else {
        l[0] == 35
    }
}

fn blank_or_comment_exec(l: &[u8]) -> (r: bool)
    ensures
        r == blank_or_comment(l@),
{
    let mut i: usize = 0;
    assert(l@.skip(0) =~= l@);
    while i < l.len()
        invariant
            i <= l@.len(),
            blank_or_comment(l@) == blank_or_comment(l@.skip(i as int)),
        decreases l@.len() - i,
    {
        let b = l[i];
        assert(l@.skip(i as int)[0] == b);
        if !(b == 32 || b == 9 || b == 10 || b == 12 || b == 13) {
            return b == 35;
        }
        assert(l@.skip(i as int).drop_first() =~= l@.skip(i + 1));
        i += 1;
    }
    true
}

/// The first position of byte `b` in `s`.
pub open spec fn first_byte(s: Seq<u8>, b: u8) -> Option<int>
    decreases s.len(),
{
    if s.len() == 0 {
        None
    } else if s[0] == b {
        Some(0)
    } else {
        match first_byte(s.drop_first(), b) {
            Some(i) => Some(i + 1),
            None => None,
        }
    }
}

/// The first index of a byte holds it, and no earlier index does.
pub proof fn lemma_first_byte(s: Seq<u8>, b: u8)
    ensures
        first_byte(s, b) matches Some(i) ==> 0 <= i < s.len() && s[i] == b && forall|j: int|
            0 <= j < i ==> s[j] != b,
        first_byte(s, b) is None ==> forall|j: int| 0 <= j < s.len() ==> s[j] != b,
    decreases s.len(),
{
    if s.len() > 0 && s[0] != b {
        let t = s.drop_first();
        lemma_first_byte(t, b);
        match first_byte(t, b) {
            Some(i) => {
                assert(s[i + 1] == t[i]);
                assert forall|j: int| 0 <= j < i + 1 implies s[j] != b by {
                    if j > 0 {
                        assert(s[j] == t[j - 1]);
                    }
                }
            },
            None => {
                assert forall|j: int| 0 <= j < s.len() implies s[j] != b by {
                    if j > 0 {
                        assert(s[j] == t[j - 1]);
                    }
                }
            },
        }
    }
}

/// One past the end of the line starting at `pos` (after its `\n`, or the
/// end of the data).
pub open spec fn line_end(data: Seq<u8>, pos: int) -> int {
    match first_byte(data.subrange(pos, data.len() as int), 10) {
        Some(i) => pos + i + 1,
        None => data.len() as int,
    }
}

/// The line starting at `pos`, with its `\n` (empty past the end).
pub open spec fn line_at(data: Seq<u8>, pos: int) -> Seq<u8> {
    if 0 <= pos < data.len() {
        data.subrange(pos, line_end(data, pos))
    } else {
        Seq::empty()
    }
}

/// A line that starts inside the data ends after its start and within the data.
pub proof fn lemma_line_end(data: Seq<u8>, pos: int)
    requires
        0 <= pos < data.len(),
    ensures
        pos < line_end(data, pos) <= data.len(),
{
    lemma_first_byte(data.subrange(pos, data.len() as int), 10);
}

/// Finds the end of the line starting at `pos`.
fn line_end_exec(data: &[u8], pos: usize) -> (r: usize)
    requires
        pos < data.len(),
    ensures
        r == line_end(data@, pos as int),
        pos < r <= data.len(),
{
    proof {
        lemma_line_end(data@, pos as int);
        lemma_first_byte(data@.subrange(pos as int, data@.len() as int), 10);
    }
    let mut i = pos;
    while i < data.len()
        invariant
            pos <= i <= data@.len(),
            forall|j: int| pos <= j < i ==> data@[j] != 10,
        decreases data@.len() - i,
    {
        if data[i] == 10 {
            proof {
                let s = data@.subrange(pos as int, data@.len() as int);
                assert(s[i - pos] == 10);
                assert(forall|j: int| 0 <= j < i - pos ==> s[j] != 10);
                lemma_first_byte(s, 10);
                if let Some(k) = first_byte(s, 10) {
                    assert(k == i - pos) by {
                        if k < i - pos {
                            assert(s[k] != 10);
                        }
                        if k > i - pos {
                            assert(s[i - pos] != 10);
                        }
                    }
                }
            }
            return i + 1;
        }
        i += 1;
    }
    proof {
        let s = data@.subrange(pos as int, data@.len() as int);
        if let Some(k) = first_byte(s, 10) {
            assert(s[k] == data@[pos + k]);
        }
    }
    data.len()
}

/// The line starting at `offset`, with its `\n` (empty past the end).
fn read_line_in(data: &[u8], offset: u64) -> (r: Vec<u8>)
    ensures
        r@ == line_at(data@, offset as int),
{
    if offset >= data.len() as u64 {
        return Vec::new();
    }
    let pos = offset as usize;
    let end = line_end_exec(data, pos);
    let mut v: Vec<u8> = Vec::new();
    let mut i = pos;
    while i < end
        invariant
            pos <= i <= end <= data@.len(),
            v@ == data@.subrange(pos as int, i as int),
        decreases end - i,
    {
        v.push(data[i]);
        assert(data@.subrange(pos as int, i + 1) =~= data@.subrange(pos as int, i as int).push(
            data@[i as int],
        ));
        i += 1;
    }
    v
}

/// Where the next record line (not blank, not a comment) starts at or after
/// `pos`: blank and comment lines are passed over; `None` when only such
/// lines are left.
pub open spec fn next_record(data: Seq<u8>, pos: int) -> Option<int>
    decreases data.len() - pos,
{
    if pos < 0 || pos >= data.len() {
        None
    } else if !blank_or_comment(line_at(data, pos)) {
        Some(pos)
    } else {
        proof {
            lemma_line_end(data, pos);
        }
        next_record(data, line_end(data, pos))
    }
}

/// Read the next record line (not blank, not a comment) from `data` at
/// `*pos`; `*pos` and `*offset` advance past every line read, the blank and
/// comment lines passed over included. `None` at the end of the data.
pub fn read_record(data: &[u8], pos: &mut usize, offset: &mut u64) -> (r: Option<Vec<u8>>)
    requires
        *old(pos) <= data.len(),
        *old(offset) + data.len() <= u64::MAX,
    ensures
        *old(pos) <= *final(pos) <= data.len(),
        *final(offset) == *old(offset) + (*final(pos) - *old(pos)),
        match next_record(data@, *old(pos) as int) {
            Some(start) => r matches Some(l) && l@ == line_at(data@, start) && *final(pos)
                == line_end(data@, start),
            None => r is None && *final(pos) == data.len(),
        },
{
    while *pos < data.len()
        invariant
            *old(pos) <= *pos <= data@.len(),
            *offset == *old(offset) + (*pos - *old(pos)),
            *old(offset) + data@.len() <= u64::MAX,
            next_record(data@, *pos as int) == next_record(data@, *old(pos) as int),
        decreases data@.len() - *pos,
    {
        let start = *pos;
        let end = line_end_exec(data, start);
        let line = read_line_in(data, start as u64);
        proof {
            lemma_line_end(data@, start as int);
        }
        *offset = *offset + (end - start) as u64;
        *pos = end;
        if !blank_or_comment_exec(line.as_slice()) {
            return Some(line);
        }
    }
    None
}

// ─── Index ───────────────────────────────────────────────────────────────────

/// Keys in strictly increasing OID order.
pub open spec fn sorted_keys<V>(v: Seq<(Seq<u32>, V)>) -> bool {
    forall|i: int, j: int| 0 <= i < j < v.len() ==> oid_lt(#[trigger] v[i].0, #[trigger] v[j].0)
}

/// The index entries that the lines of `data` from `pos` on give, in file
/// order: one per record line whose OID parses, with the offset of the
/// line, whether its tag starts with `:`, and the offset of the subtree
/// record line just before it (`prev`).
pub open spec fn index_entries(
    kind: RecordKind,
    data: Seq<u8>,
    pos: int,
    prev: Option<u64>,
) -> Seq<(Seq<u32>, IndexEntry)>
    decreases data.len() - pos,
{
    if pos < 0 || pos >= data.len() {
        Seq::empty()
    } else {
        proof {
            lemma_line_end(data, pos);
        }
        let end = line_end(data, pos);
        let line = data.subrange(pos, end);
        if blank_or_comment(line) {
            index_entries(kind, data, end, prev)
        } else {
            match record_fields(kind, line) {
                None => index_entries(kind, data, end, prev),
                Some((o, t, _)) => match oid_parse(o) {
                    Err(_) => index_entries(kind, data, end, prev),
                    Ok(c) => {
                        let sub = t.len() > 0 && t[0] == ':';
                        let e = IndexEntry { offset: pos as u64, subtree_flag: sub, prev_offset: prev };
                        seq![(c, e)] + index_entries(
                            kind,
                            data,
                            end,
                            if sub {
                                Some(pos as u64)
                            } else {
                                None
                            },
                        )
                    },
                },
            }
        }
    }
}

/// The keys and entries of an index.
pub open spec fn index_view(v: Seq<(Oid, IndexEntry)>) -> Seq<(Seq<u32>, IndexEntry)> {
    Seq::new(v.len(), |i: int| (v[i].0@, v[i].1))
}

proof fn lemma_lv_unique<V>(s: Seq<(Seq<u32>, V)>, i: int)
    requires
        sorted_keys(s),
        0 <= i < s.len(),
    ensures
        last_value(s, s[i].0) == Some(s[i].1),
    decreases s.len(),
{
    if i < s.len() - 1 {
        assert(oid_lt(s[i].0, s[s.len() - 1].0));
        crate::oid::lemma_oid_lt_irreflexive(s[i].0);
        let t = s.drop_last();
        assert(t[i] == s[i]);
        lemma_lv_unique(t, i);
    }
}


/// The value of a key in a sorted index: the entry holding that key.
proof fn lemma_lv_sorted<V>(s: Seq<(Seq<u32>, V)>, k: Seq<u32>)
    requires
        sorted_keys(s),
    ensures
        (exists|i: int| 0 <= i < s.len() && s[i].0 == k) ==> last_value(s, k) == Some(
            s[choose|i: int| 0 <= i < s.len() && s[i].0 == k].1,
        ),
        !(exists|i: int| 0 <= i < s.len() && s[i].0 == k) ==> last_value(s, k) is None,
{
    if exists|i: int| 0 <= i < s.len() && s[i].0 == k {
        let i = choose|i: int| 0 <= i < s.len() && s[i].0 == k;
        lemma_lv_unique(s, i);
    } else {
        crate::variation::lemma_last_value_absent(s, k);
    }
}

/// `a` comes before `b` in OID order.
fn oid_less(a: &Oid, b: &Oid) -> (r: bool)
    ensures
        r == oid_lt(a@, b@),
{
    match a.compare(b) {
        crate::oid::OidOrdering::Less => true,
        _ => false,
    }
}

/// Inserts an entry into a sorted index, replacing the entry of an equal OID.
fn index_insert(idx: &mut Vec<(Oid, IndexEntry)>, oid: Oid, e: IndexEntry)
    requires
        sorted_keys(index_view(old(idx)@)),
    ensures
        sorted_keys(index_view(final(idx)@)),
        forall|k: Seq<u32>|
            #![trigger last_value(index_view(final(idx)@), k)]
            last_value(index_view(final(idx)@), k) == if k == oid@ {
                Some(e)
            } else {
                last_value(index_view(old(idx)@), k)
            },
{
    let ghost v0 = index_view(idx@);
    let mut p: usize = 0;
    while p < idx.len() && oid_less(&idx[p].0, &oid)
        invariant
            p <= idx@.len(),
            v0 == index_view(idx@),
            forall|j: int| 0 <= j < p ==> oid_lt(#[trigger] v0[j].0, oid@),
        decreases idx@.len() - p,
    {
        p += 1;
    }
    proof {
        crate::oid::lemma_oid_lt_irreflexive(oid@);
    }
    if p < idx.len() && idx[p].0.equals(&oid) {
        idx.set(p, (oid, e));
        proof {
            let v1 = index_view(idx@);
            assert(v1 =~= v0.update(p as int, (v0[p as int].0, e)));
            assert(sorted_keys(v1)) by {
                assert forall|i: int, j: int| 0 <= i < j < v1.len() implies oid_lt(
                    #[trigger] v1[i].0,
                    #[trigger] v1[j].0,
                ) by {
                    assert(v1[i].0 == v0[i].0 && v1[j].0 == v0[j].0);
                }
            }
            assert forall|k: Seq<u32>|
                last_value(v1, k) == if k == oid@ {
                    Some(e)
                } else {
                    last_value(v0, k)
                } by {
                lemma_lv_sorted(v0, k);
                lemma_lv_sorted(v1, k);
                if k == oid@ {
                    lemma_lv_unique(v1, p as int);
                } else {
                    if exists|i: int| 0 <= i < v0.len() && v0[i].0 == k {
                        let i = choose|i: int| 0 <= i < v0.len() && v0[i].0 == k;
                        assert(i != p);
                        assert(v1[i] == v0[i]);
                        lemma_lv_unique(v0, i);
                        lemma_lv_unique(v1, i);
                    } else {
                        assert forall|i: int| 0 <= i < v1.len() implies v1[i].0 != k by {
                            assert(v1[i].0 == v0[i].0);
                        }
                        crate::variation::lemma_last_value_absent(v1, k);
                        crate::variation::lemma_last_value_absent(v0, k);
                    }
                }
            }
        }
    } else {
        proof {
            if p < idx@.len() {
                // The key at p is not below the new one and differs from it.
                crate::oid::lemma_oid_lt_total(v0[p as int].0, oid@);
            }
        }
        let ghost ov = oid@;
        idx.insert(p, (oid, e));
        proof {
            let v1 = index_view(idx@);
            assert(v1 =~= v0.insert(p as int, (ov, e)));
            assert forall|j: int| p < j < v0.len() implies oid_lt(ov, #[trigger] v0[j].0) by {
                assert(oid_lt(v0[p as int].0, v0[j].0));
                if v0[p as int].0 != ov {
                    crate::oid::lemma_oid_lt_transitive(ov, v0[p as int].0, v0[j].0);
                }
            }
            assert(sorted_keys(v1)) by {
                assert forall|i: int, j: int| 0 <= i < j < v1.len() implies oid_lt(
                    #[trigger] v1[i].0,
                    #[trigger] v1[j].0,
                ) by {
                    if j < p {
                        assert(v1[i] == v0[i] && v1[j] == v0[j]);
                    } else if j == p {
                        assert(v1[i] == v0[i]);
                    } else if i < p {
                        assert(v1[i] == v0[i] && v1[j] == v0[j - 1]);
                        if j - 1 == p {
                            crate::oid::lemma_oid_lt_transitive(v0[i].0, ov, v0[j - 1].0);
                        } else {
                            assert(oid_lt(v0[i].0, v0[j - 1].0));
                        }
                    } else if i == p {
                        assert(v1[j] == v0[j - 1]);
                    } else {
                        assert(v1[i] == v0[i - 1] && v1[j] == v0[j - 1]);
                    }
                }
            }
            assert forall|k: Seq<u32>|
                last_value(v1, k) == if k == ov {
                    Some(e)
                } else {
                    last_value(v0, k)
                } by {
                lemma_lv_sorted(v0, k);
                lemma_lv_sorted(v1, k);
                if k == ov {
                    lemma_lv_unique(v1, p as int);
                } else {
                    if exists|i: int| 0 <= i < v0.len() && v0[i].0 == k {
                        let i = choose|i: int| 0 <= i < v0.len() && v0[i].0 == k;
                        let i1 = if i < p {
                            i
                        } else {
                            i + 1
                        };
                        assert(v1[i1] == v0[i]);
                        lemma_lv_unique(v0, i);
                        lemma_lv_unique(v1, i1);
                    } else {
                        assert forall|i: int| 0 <= i < v1.len() implies v1[i].0 != k by {
                            if i < p {
                                assert(v1[i] == v0[i]);
                            } else if i > p {
                                assert(v1[i] == v0[i - 1]);
                            }
                        }
                        crate::variation::lemma_last_value_absent(v1, k);
                        crate::variation::lemma_last_value_absent(v0, k);
                    }
                }
            }
        }
    }
}

/// The fields of a line, parsed by the grammar of the given kind.
fn parse_fields(kind: RecordKind, line: &[u8]) -> (r: Option<(String, String, String)>)
    ensures
        match record_fields(kind, line@) {
            Some((o, t, v)) => r matches Some(x) && x.0@ == o && x.1@ == t && x.2@ == v,
            None => r is None,
        },
{
    let parsed = match kind {
        RecordKind::Walk => WalkGrammar::new().parse(line),
        RecordKind::Dump => DumpGrammar::new().parse(line),
        _ => SnmprecGrammar::new().parse(line),
    };
    match parsed {
        Ok(f) => Some(f),
        Err(_) => None,
    }
}

fn starts_with_colon(s: &str) -> (r: bool)
    ensures
        r == (s@.len() > 0 && s@[0] == ':'),
{
    let cs = chars_of(s);
    cs.len() > 0 && cs[0] == ':'
}

/// Build the OID index of a data file's text: one entry per OID (a later
/// line for the same OID replaces an earlier one), in OID order.
pub fn build_index(kind: RecordKind, data: &[u8]) -> (r: Vec<(Oid, IndexEntry)>)
    ensures
        sorted_keys(index_view(r@)),
        forall|k: Seq<u32>|
            #![trigger last_value(index_view(r@), k)]
            last_value(index_view(r@), k) == last_value(index_entries(kind, data@, 0, None), k),
{
    let mut idx: Vec<(Oid, IndexEntry)> = Vec::new();
    let mut pos: usize = 0;
    let mut prev: Option<u64> = None;
    let ghost mut done: Seq<(Seq<u32>, IndexEntry)> = Seq::empty();
    assert(index_entries(kind, data@, 0, None) =~= done + index_entries(kind, data@, 0, None));
    assert(index_view(idx@) =~= Seq::<(Seq<u32>, IndexEntry)>::empty());
    while pos < data.len()
        invariant
            pos <= data@.len(),
            sorted_keys(index_view(idx@)),
            index_entries(kind, data@, 0, None) == done + index_entries(kind, data@, pos as int, prev),
            forall|k: Seq<u32>|
                #![trigger last_value(index_view(idx@), k)]
                last_value(index_view(idx@), k) == last_value(done, k),
        decreases data@.len() - pos,
    {
        let end = line_end_exec(data, pos);
        let line = read_line_in(data, pos as u64);
        let ghost rest = index_entries(kind, data@, end as int, prev);
        if !blank_or_comment_exec(line.as_slice()) {
            match parse_fields(kind, line.as_slice()) {
                Some((o, t, _)) => match Oid::parse_str(o.as_str()) {
                    Ok(c) => {
                        let sub = starts_with_colon(t.as_str());
                        let e = IndexEntry { offset: pos as u64, subtree_flag: sub, prev_offset: prev };
                        let ghost cv = c@;
                        index_insert(&mut idx, c, e);
                        let ghost old_done = done;
                        proof {
                            done = done.push((cv, e));
                            assert forall|k: Seq<u32>|
                                #![trigger last_value(index_view(idx@), k)]
                                last_value(index_view(idx@), k) == last_value(done, k) by {
                                assert(done.drop_last() =~= old_done);
                            }
                        }
                        prev = if sub {
                            Some(pos as u64)
                        } else {
                            None
                        };
                        proof {
                            assert(old_done + (seq![(cv, e)] + index_entries(
                                kind,
                                data@,
                                end as int,
                                prev,
                            )) =~= done + index_entries(kind, data@, end as int, prev));
                        }
                    },
                    Err(_) => {},
                },
                None => {},
            }
        }
        pos = end;
    }
    assert(done + Seq::<(Seq<u32>, IndexEntry)>::empty() =~= done);
    idx
}

// ─── Lookups ─────────────────────────────────────────────────────────────────

/// What a lookup in a data file found.
pub enum Lookup {
    /// A record answered with this OID and value.
    Found(Seq<u32>, SpecValue),
    /// No record answers the request.
    Missing,
    /// The record could not be evaluated.
    Failed,
}

/// Evaluating the record line at an index entry with the given flags: the
/// lookup, the handler's new cache and new pending delay. The reply carries
/// the record's OID, or `reply` when given.
pub open spec fn lookup_at(
    kind: RecordKind,
    content: Seq<u8>,
    cache: EvalState,
    delay: u64,
    e: IndexEntry,
    flags: EvalFlags,
    reply: Option<Seq<u32>>,
) -> (Lookup, EvalState, u64) {
    let (x, c, d) = eval_step(kind, line_at(content, e.offset as int), cache, delay, flags);
    (
        match x {
            Some((o, Some(v))) => Lookup::Found(
                match reply {
                    Some(q) => q,
                    None => o,
                },
                v,
            ),
            Some((_, None)) => Lookup::Missing,
            None => Lookup::Failed,
        },
        c,
        d,
    )
}

/// The flags of a lookup in a data file: always an exact match with the
/// request's OID.
pub open spec fn lookup_flags(next_flag: bool, set_flag: bool) -> EvalFlags {
    EvalFlags {
        next_flag,
        set_flag,
        exact_match: true,
        has_orig_oid: true,
        oid_only: false,
    }
}

/// The last subtree entry before `oid` whose OID is a prefix of `oid`.
pub open spec fn subtree_for(idx: Seq<(Seq<u32>, IndexEntry)>, oid: Seq<u32>) -> Option<IndexEntry>
    decreases idx.len(),
{
    if idx.len() == 0 {
        None
    } else {
        let l = idx.last();
        if oid_lt(l.0, oid) && l.1.subtree_flag && is_prefix(l.0, oid) {
            Some(l.1)
        } else {
            subtree_for(idx.drop_last(), oid)
        }
    }
}

/// The first entry after `oid` in OID order.
pub open spec fn next_after(idx: Seq<(Seq<u32>, IndexEntry)>, oid: Seq<u32>) -> Option<IndexEntry>
    decreases idx.len(),
{
    if idx.len() == 0 {
        None
    } else if oid_lt(oid, idx[0].0) {
        Some(idx[0].1)
    } else {
        next_after(idx.drop_first(), oid)
    }
}

/// GET: the record of the OID itself, else the subtree record covering it
/// (answering for the requested OID), else nothing.
pub open spec fn spec_get_exact(
    kind: RecordKind,
    idx: Seq<(Seq<u32>, IndexEntry)>,
    content: Seq<u8>,
    cache: EvalState,
    delay: u64,
    oid: Seq<u32>,
    set_flag: bool,
) -> (Lookup, EvalState, u64) {
    match last_value(idx, oid) {
        Some(e) => lookup_at(kind, content, cache, delay, e, lookup_flags(false, set_flag), None),
        None => match subtree_for(idx, oid) {
            Some(e) => lookup_at(
                kind,
                content,
                cache,
                delay,
                e,
                lookup_flags(false, set_flag),
                Some(oid),
            ),
            None => (Lookup::Missing, cache, delay),
        },
    }
}

/// GETNEXT: a subtree record at the OID itself answers for it; else the
/// record of the next OID in order; else a subtree record covering the OID
/// (answering for it); else nothing.
pub open spec fn spec_get_next(
    kind: RecordKind,
    idx: Seq<(Seq<u32>, IndexEntry)>,
    content: Seq<u8>,
    cache: EvalState,
    delay: u64,
    oid: Seq<u32>,
) -> (Lookup, EvalState, u64) {
    let flags = lookup_flags(true, false);
    match last_value(idx, oid) {
        Some(e) if e.subtree_flag => lookup_at(kind, content, cache, delay, e, flags, Some(oid)),
        _ => match next_after(idx, oid) {
            Some(e) => lookup_at(kind, content, cache, delay, e, flags, None),
            None => match subtree_for(idx, oid) {
                Some(e) => lookup_at(kind, content, cache, delay, e, flags, Some(oid)),
                None => (Lookup::Missing, cache, delay),
            },
        },
    }
}

/// The responses to a list of requested OIDs, processed in order, with the
/// handler's final cache and pending delay: each request answers its lookup,
/// or (for a missing or failed one) the requested OID with endOfMibView for
/// GETNEXT and noSuchInstance otherwise.
pub open spec fn spec_process(
    kind: RecordKind,
    idx: Seq<(Seq<u32>, IndexEntry)>,
    content: Seq<u8>,
    cache: EvalState,
    delay: u64,
    reqs: Seq<Seq<u32>>,
    next_flag: bool,
    set_flag: bool,
) -> (Seq<(Seq<u32>, SpecValue)>, EvalState, u64)
    decreases reqs.len(),
{
    if reqs.len() == 0 {
        (Seq::empty(), cache, delay)
    } else {
        let (prev, c1, d1) = spec_process(
            kind,
            idx,
            content,
            cache,
            delay,
            reqs.drop_last(),
            next_flag,
            set_flag,
        );
        let oid = reqs.last();
        let (l, c2, d2) = if next_flag {
            spec_get_next(kind, idx, content, c1, d1, oid)
        } else {
            spec_get_exact(kind, idx, content, c1, d1, oid, set_flag)
        };
        let resp = match l {
            Lookup::Found(o, v) => (o, v),
            _ => (
                oid,
                if next_flag {
                    SpecValue::EndOfMibView
                } else {
                    SpecValue::NoSuchInstance
                },
            ),
        };
        (prev.push(resp), c2, d2)
    }
}

/// `r` is the outcome of the lookup `l`: found (with its OID and value),
/// nothing, or an error.
pub open spec fn lookup_outcome(r: Result<Option<(Oid, SnmpValue)>, SnmpsimError>, l: Lookup) -> bool {
    match l {
        Lookup::Found(o, v) => r matches Ok(Some(x)) && x.0@ == o && x.1@ == v,
        Lookup::Missing => r matches Ok(None),
        Lookup::Failed => r is Err,
    }
}

/// The OIDs and values of a list of var-binds.
pub open spec fn pairs_of(v: Seq<(Oid, SnmpValue)>) -> Seq<(Seq<u32>, SpecValue)> {
    Seq::new(v.len(), |i: int| (v[i].0@, v[i].1@))
}

/// A loaded simulation data file with an in-memory OID index.
pub struct DataFile {
    /// Path to the data file on disk.
    pub path: String,
    kind: RecordKind,
    index: Vec<(Oid, IndexEntry)>,
    content: Vec<u8>,
}

impl DataFile {
    /// The path of the file.
    pub closed spec fn path_text(&self) -> Seq<char> {
        self.path@
    }


    /// The index: OIDs and entries, in OID order.
    pub closed spec fn index(&self) -> Seq<(Seq<u32>, IndexEntry)> {
        index_view(self.index@)
    }

    /// The bytes of the file, which record lines are read from.
    pub closed spec fn content(&self) -> Seq<u8> {
        self.content@
    }

    /// The kind of record handler that reads the file.
    pub closed spec fn kind(&self) -> RecordKind {
        self.kind
    }

    /// The index is in strictly increasing OID order.
    pub closed spec fn wf(&self) -> bool {
        sorted_keys(self.index())
    }

    /// Build a data file from its text: the index is built from it and
    /// record lines are read from it at the indexed offsets.
    pub fn load(path: &str, kind: RecordKind, data: Vec<u8>) -> (r: DataFile)
        ensures
            r.wf(),
            r.path_text() == path@,
            r.kind() == kind,
            r.content() == data@,
            forall|k: Seq<u32>|
                #![trigger last_value(r.index(), k)]
                last_value(r.index(), k) == last_value(index_entries(kind, data@, 0, None), k),
    {
        let index = build_index(kind, data.as_slice());
        DataFile { path: crate::text::copy_string(path), kind, index, content: data }
    }

    /// Build a .snmprec.bz2 data file from the compressed bytes of the
    /// file: the decompressed text is what is indexed and what record lines
    /// are read from. Fails with the decoder's I/O error exactly when the
    /// bytes do not decompress.
    pub fn load_compressed(path: &str, file: &[u8]) -> (r: Result<DataFile, SnmpsimError>)
        ensures
            r is Ok <==> bz2_decoded(file@) is Some,
            r matches Ok(d) ==> ({
                let text = bz2_decoded(file@)->Some_0;
                &&& d.wf()
                &&& d.path_text() == path@
                &&& d.kind() == RecordKind::CompressedSnmprec
                &&& d.content() == text
                &&& forall|k: Seq<u32>|
                    #![trigger last_value(d.index(), k)]
                    last_value(d.index(), k) == last_value(
                        index_entries(RecordKind::CompressedSnmprec, text, 0, None),
                        k,
                    )
            }),
            r matches Err(e) ==> e is Io,
    {
        match bz2_decompress(file) {
            Ok(text) => Ok(DataFile::load(path, RecordKind::CompressedSnmprec, text)),
            Err(e) => Err(SnmpsimError::Io(e)),
        }
    }

    /// The path of the file.
    pub fn path_str(&self) -> (r: &str)
        ensures
            r@ == self.path_text(),
    {
        self.path.as_str()
    }

    /// `DataFile(` followed by the quoted path and `)`, as the file is shown
    /// in messages.
    pub fn display_string(&self) -> (r: String)
        ensures
            r@ == "DataFile("@ + crate::text::debug_text(self.path_text()) + ")"@,
    {
        let q = crate::text::debug_quoted(self.path.as_str());
        let mut out: Vec<char> = crate::text::chars_of("DataFile(");
        crate::text::append_str(&mut out, q.as_str());
        crate::text::append_str(&mut out, ")");
        crate::text::string_from(out.as_slice())
    }

    /// The kind of record handler that reads this file.
    pub fn record(&self) -> (r: RecordKind)
        ensures
            r == self.kind(),
    {
        self.kind
    }

    /// Return the number of OIDs in the index.
    pub fn len(&self) -> (r: usize)
        ensures
            r == self.index().len(),
    {
        self.index.len()
    }

    pub fn is_empty(&self) -> (r: bool)
        ensures
            r == (self.index().len() == 0),
    {
        self.index.len() == 0
    }

    /// The entry of an OID, if indexed.
    fn entry_of(&self, oid: &Oid) -> (r: Option<IndexEntry>)
        ensures
            r == last_value(self.index(), oid@),
    {
        let ghost pv = self.index();
        let mut i: usize = self.index.len();
        assert(pv.take(pv.len() as int) =~= pv);
        while i > 0
            invariant
                i <= self.index@.len(),
                pv == self.index(),
                last_value(pv, oid@) == last_value(pv.take(i as int), oid@),
            decreases i,
        {
            assert(pv.take(i as int).drop_last() =~= pv.take(i - 1));
            assert(pv.take(i as int).last() == pv[i - 1]);
            if self.index[i - 1].0.equals(oid) {
                return Some(self.index[i - 1].1);
            }
            i -= 1;
        }
        None
    }

    /// Find the closest subtree OID before `oid` that is a prefix of it.
    fn find_subtree_for(&self, oid: &Oid) -> (r: Option<IndexEntry>)
        ensures
            r == subtree_for(self.index(), oid@),
    {
        let ghost pv = self.index();
        let mut i: usize = self.index.len();
        assert(pv.take(pv.len() as int) =~= pv);
        while i > 0
            invariant
                i <= self.index@.len(),
                pv == self.index(),
                subtree_for(pv, oid@) == subtree_for(pv.take(i as int), oid@),
            decreases i,
        {
            assert(pv.take(i as int).drop_last() =~= pv.take(i - 1));
            assert(pv.take(i as int).last() == pv[i - 1]);
            let k = &self.index[i - 1].0;
            let e = self.index[i - 1].1;
            if oid_less(k, oid) && e.subtree_flag && k.is_prefix_of(oid) {
                return Some(e);
            }
            i -= 1;
        }
        None
    }

    /// The first entry after `oid` in OID order.
    fn next_entry(&self, oid: &Oid) -> (r: Option<IndexEntry>)
        ensures
            r == next_after(self.index(), oid@),
    {
        let ghost pv = self.index();
        let mut i: usize = 0;
        assert(pv.skip(0) =~= pv);
        while i < self.index.len()
            invariant
                i <= self.index@.len(),
                pv == self.index(),
                next_after(pv, oid@) == next_after(pv.skip(i as int), oid@),
            decreases self.index@.len() - i,
        {
            assert(pv.skip(i as int).drop_first() =~= pv.skip(i + 1));
            assert(pv.skip(i as int)[0] == pv[i as int]);
            if oid_less(oid, &self.index[i].0) {
                return Some(self.index[i].1);
            }
            i += 1;
        }
        None
    }

    /// Evaluate the record line at an entry; the reply carries `reply` as
    /// its OID when given, else the record's OID.
    fn evaluate_at(
        &self,
        handler: &mut RecordHandler,
        e: IndexEntry,
        oid: &Oid,
        next_flag: bool,
        set_flag: bool,
        reply_with_request: bool,
    ) -> (r: Result<Option<(Oid, SnmpValue)>, SnmpsimError>)
        requires
            old(handler).wf(),
            old(handler).kind() == self.kind(),
        ensures
            final(handler).wf(),
            final(handler).kind() == old(handler).kind(),
            ({
                let (l, c, d) = lookup_at(
                    self.kind(),
                    self.content(),
                    old(handler).cache(),
                    old(handler).pending_delay(),
                    e,
                    lookup_flags(next_flag, set_flag),
                    if reply_with_request {
                        Some(oid@)
                    } else {
                        None
                    },
                );
                lookup_outcome(r, l) && final(handler).cache() == c && final(handler).pending_delay()
                    == d
            }),
    {
        let line = read_line_in(self.content.as_slice(), e.offset);
        let ctx = EvalContext {
            next_flag,
            set_flag,
            exact_match: true,
            subtree_flag: e.subtree_flag,
            orig_oid: Some(oid.duplicate()),
            data_file: String::new(),
            oid_only: false,
        };
        assert(ctx.flags() == lookup_flags(next_flag, set_flag));
        match handler.evaluate(line.as_slice(), &ctx) {
            Ok((result_oid, val)) => match val {
                Some(v) => {
                    if reply_with_request {
                        Ok(Some((oid.duplicate(), v)))
                    } else {
                        Ok(Some((result_oid, v)))
                    }
                },
                None => Ok(None),
            },
            Err(e) => Err(e),
        }
    }

    /// GET: look up an exact OID match.
    fn get_exact(&self, handler: &mut RecordHandler, oid: &Oid, set_flag: bool) -> (r: Result<
        Option<(Oid, SnmpValue)>,
        SnmpsimError,
    >)
        requires
            old(handler).wf(),
            old(handler).kind() == self.kind(),
        ensures
            final(handler).wf(),
            final(handler).kind() == old(handler).kind(),
            ({
                let (l, c, d) = spec_get_exact(
                    self.kind(),
                    self.index(),
                    self.content(),
                    old(handler).cache(),
                    old(handler).pending_delay(),
                    oid@,
                    set_flag,
                );
                lookup_outcome(r, l) && final(handler).cache() == c && final(handler).pending_delay()
                    == d
            }),
    {
        if let Some(entry) = self.entry_of(oid) {
            return self.evaluate_at(handler, entry, oid, false, set_flag, false);
        }
        if let Some(entry) = self.find_subtree_for(oid) {
            return self.evaluate_at(handler, entry, oid, false, set_flag, true);
        }
        Ok(None)
    }

    /// GETNEXT: find the OID that follows `oid` in OID order.
    fn get_next(&self, handler: &mut RecordHandler, oid: &Oid) -> (r: Result<
        Option<(Oid, SnmpValue)>,
        SnmpsimError,
    >)
        requires
            old(handler).wf(),
            old(handler).kind() == self.kind(),
        ensures
            final(handler).wf(),
            final(handler).kind() == old(handler).kind(),
            ({
                let (l, c, d) = spec_get_next(
                    self.kind(),
                    self.index(),
                    self.content(),
                    old(handler).cache(),
                    old(handler).pending_delay(),
                    oid@,
                );
                lookup_outcome(r, l) && final(handler).cache() == c && final(handler).pending_delay()
                    == d
            }),
    {
        if let Some(entry) = self.entry_of(oid) {
            if entry.subtree_flag {
                return self.evaluate_at(handler, entry, oid, true, false, true);
            }
        }
        match self.next_entry(oid) {
            Some(entry) => self.evaluate_at(handler, entry, oid, true, false, false),
            None => {
                if let Some(entry) = self.find_subtree_for(oid) {
                    return self.evaluate_at(handler, entry, oid, true, false, true);
                }
                Ok(None)
            },
        }
    }

    /// Process a list of var-bind requests and return the response var-binds.
    pub fn process_var_binds(
        &self,
        handler: &mut RecordHandler,
        requests: &[(Oid, SnmpValue)],
        next_flag: bool,
        set_flag: bool,
    ) -> (r: Vec<(Oid, SnmpValue)>)
        requires
            old(handler).wf(),
            old(handler).kind() == self.kind(),
        ensures
            final(handler).wf(),
            final(handler).kind() == old(handler).kind(),
            ({
                let (resp, c, d) = spec_process(
                    self.kind(),
                    self.index(),
                    self.content(),
                    old(handler).cache(),
                    old(handler).pending_delay(),
                    Seq::new(requests@.len(), |i: int| requests@[i].0@),
                    next_flag,
                    set_flag,
                );
                pairs_of(r@) == resp && final(handler).cache() == c && final(handler).pending_delay()
                    == d
            }),
    {
        let ghost reqs = Seq::new(requests@.len(), |i: int| requests@[i].0@);
        let ghost c0 = handler.cache();
        let ghost d0 = handler.pending_delay();
        let mut responses: Vec<(Oid, SnmpValue)> = Vec::new();
        let mut i: usize = 0;
        while i < requests.len()
            invariant
                i <= requests@.len(),
                reqs == Seq::new(requests@.len(), |i: int| requests@[i].0@),
                handler.wf(),
                handler.kind() == self.kind(),
                ({
                    let (resp, c, d) = spec_process(
                        self.kind(),
                        self.index(),
                        self.content(),
                        c0,
                        d0,
                        reqs.take(i as int),
                        next_flag,
                        set_flag,
                    );
                    pairs_of(responses@) == resp && handler.cache() == c && handler.pending_delay() == d
                }),
            decreases requests@.len() - i,
        {
            assert(reqs.take(i + 1).drop_last() =~= reqs.take(i as int));
            assert(reqs.take(i + 1).last() == requests@[i as int].0@);
            let req_oid = &requests[i].0;
            let result = if next_flag {
                self.get_next(handler, req_oid)
            } else {
                self.get_exact(handler, req_oid, set_flag)
            };
            let resp = match result {
                Ok(Some(x)) => x,
                _ => {
                    let v = if next_flag {
                        SnmpValue::EndOfMibView
                    } else {
                        SnmpValue::NoSuchInstance
                    };
                    (req_oid.duplicate(), v)
                },
            };
            responses.push(resp);
            assert(pairs_of(responses@) =~= spec_process(
                self.kind(),
                self.index(),
                self.content(),
                c0,
                d0,
                reqs.take(i + 1),
                next_flag,
                set_flag,
            ).0);
            i += 1;
        }
        assert(reqs.take(requests@.len() as int) =~= reqs);
        responses
    }
}

// ─── Compressed data files ───────────────────────────────────────────────────

/// The text that bzip2-compressed bytes decompress to, or `None` when they
/// are not a valid bzip2 stream.
pub uninterp spec fn bz2_decoded(data: Seq<u8>) -> Option<Seq<u8>>;

/// `bzip2::read::BzDecoder` read to the end: the decompressed text of the
/// first bzip2 stream in the bytes, or the I/O error the decoder reports for
/// bytes that do not decompress. The result depends on the bytes alone; what
/// the error says is not stated.
#[verifier::external_body]
fn bz2_decompress(data: &[u8]) -> (r: Result<Vec<u8>, std::io::Error>)
    ensures
        r is Ok <==> bz2_decoded(data@) is Some,
        r matches Ok(v) ==> bz2_decoded(data@) == Some(v@),
{
    let mut out: Vec<u8> = Vec::new();
    match std::io::Read::read_to_end(&mut bzip2::read::BzDecoder::new(data), &mut out) {
        Ok(_) => Ok(out),
        Err(e) => Err(e),
    }
}

// ─── Data file discovery ─────────────────────────────────────────────────────

/// The file name ends with `.ext`.
pub open spec fn has_ext(filename: Seq<char>, ext: Seq<char>) -> bool {
    ends_with(filename, seq!['.'] + ext)
}

/// The first of the known extensions (snmprec, snmprec.bz2, dump, snmpwalk,
/// walk, mvc, sap) that the file name ends with, after a dot.
pub open spec fn spec_match_extension(filename: Seq<char>) -> Option<Seq<char>> {
    if has_ext(filename, "snmprec"@) {
        Some("snmprec"@)
    } else if has_ext(filename, "snmprec.bz2"@) {
        Some("snmprec.bz2"@)
    } else if has_ext(filename, "dump"@) {
        Some("dump"@)
    } else if has_ext(filename, "snmpwalk"@) {
        Some("snmpwalk"@)
    } else if has_ext(filename, "walk"@) {
        Some("walk"@)
    } else if has_ext(filename, "mvc"@) {
        Some("mvc"@)
    } else if has_ext(filename, "sap"@) {
        Some("sap"@)
    } else {
        None
    }
}

fn ends_with_ext(filename: &[char], ext: &str) -> (r: bool)
    ensures
        r == has_ext(filename@, ext@),
{
    let mut d: Vec<char> = Vec::new();
    d.push('.');
    crate::text::append_str(&mut d, ext);
    assert(d@ =~= seq!['.'] + ext@);
    crate::text::has_suffix(filename, d.as_slice())
}

/// Find the known data file extension of a file name, if any.
pub fn match_extension(filename: &str) -> (r: Option<&'static str>)
    ensures
        match spec_match_extension(filename@) {
            Some(e) => r matches Some(x) && x@ == e,
            None => r is None,
        },
{
    let f = chars_of(filename);
    let f = f.as_slice();
    if ends_with_ext(f, "snmprec") {
        return Some("snmprec");
    }
    if ends_with_ext(f, "snmprec.bz2") {
        return Some("snmprec.bz2");
    }
    if ends_with_ext(f, "dump") {
        return Some("dump");
    }
    if ends_with_ext(f, "snmpwalk") {
        return Some("snmpwalk");
    }
    if ends_with_ext(f, "walk") {
        return Some("walk");
    }
    if ends_with_ext(f, "mvc") {
        return Some("mvc");
    }
    if ends_with_ext(f, "sap") {
        return Some("sap");
    }
    None
}

/// The community/context name of a data file from its path relative to
/// the data directory: without the `.ext` suffix, without a leading
/// `self/` (or `self\`), and with `\` turned into `/`.
pub open spec fn spec_community_name(rel: Seq<char>, ext: Seq<char>) -> Seq<char> {
    let d = seq!['.'] + ext;
    let name = if ends_with(rel, d) {
        rel.subrange(0, rel.len() - d.len())
    } else {
        rel
    };
    let name2 = if starts_with(name, "self/"@) {
        name.subrange(("self/"@).len() as int, name.len() as int)
    } else if starts_with(name, "self\\"@) {
        name.subrange(("self\\"@).len() as int, name.len() as int)
    } else {
        name
    };
    Seq::new(
        name2.len(),
        |i: int|
            if name2[i] == '\\' {
                '/'
            } else {
                name2[i]
            },
    )
}

/// Derive the SNMP community/context name from a relative file path.
///
/// For example:
/// - `public.snmprec`          → `"public"`
/// - `self/public.snmprec`     → `"public"`
/// - `1.3.6.1.6.1.1.0/127.0.0.1.snmprec` → `"1.3.6.1.6.1.1.0/127.0.0.1"`
pub fn derive_community_name(rel: &str, ext: &str) -> (r: String)
    ensures
        r@ == spec_community_name(rel@, ext@),
{
    let cs = chars_of(rel);
    let mut d: Vec<char> = Vec::new();
    d.push('.');
    crate::text::append_str(&mut d, ext);
    assert(d@ =~= seq!['.'] + ext@);
    let name = if crate::text::has_suffix(cs.as_slice(), d.as_slice()) {
        crate::text::sub_chars(cs.as_slice(), 0, cs.len() - d.len())
    } else {
        cs
    };
    let p1 = chars_of("self/");
    let p2 = chars_of("self\\");
    let name2 = if crate::text::has_prefix(name.as_slice(), p1.as_slice()) {
        crate::text::sub_chars(name.as_slice(), p1.len(), name.len())
    } else if crate::text::has_prefix(name.as_slice(), p2.as_slice()) {
        crate::text::sub_chars(name.as_slice(), p2.len(), name.len())
    } else {
        name
    };
    let mut out: Vec<char> = Vec::new();
    let mut i: usize = 0;
    while i < name2.len()
        invariant
            i <= name2@.len(),
            out@.len() == i,
            forall|j: int|
                0 <= j < i ==> out@[j] == if name2@[j] == '\\' {
                    '/'
                } else {
                    name2@[j]
                },
        decreases name2@.len() - i,
    {
        let c = name2[i];
        out.push(if c == '\\' { '/' } else { c });
        i += 1;
    }
    assert(out@ =~= spec_community_name(rel@, ext@));
    string_from(out.as_slice())
}

/// The extension and community name of a file found under a data
/// directory, from its file name and its path relative to the directory;
/// `None` for a file with no known data file extension.
pub fn classify_data_file(file_name: &str, rel: &str) -> (r: Option<(String, String)>)
    ensures
        match spec_match_extension(file_name@) {
            None => r is None,
            Some(e) => r matches Some((x, c)) && x@ == e && c@ == spec_community_name(rel@, e),
        },
{
    match match_extension(file_name) {
        None => None,
        Some(ext) => {
            let community = derive_community_name(rel, ext);
            Some((crate::text::copy_string(ext), community))
        },
    }
}

// ─── Laws ────────────────────────────────────────────────────────────────────

/// Two suffixes of one sequence agree where they overlap: the shorter is
/// the tail of the longer (shown on their first two places).
proof fn lemma_two_suffixes(f: Seq<char>, a: Seq<char>, b: Seq<char>)
    requires
        ends_with(f, a),
        ends_with(f, b),
        a.len() >= 2,
        b.len() >= 2,
    ensures
        a.len() <= b.len() ==> a[0] == b[b.len() - a.len()] && a[1] == b[b.len() - a.len() + 1],
        b.len() <= a.len() ==> b[0] == a[a.len() - b.len()] && b[1] == a[a.len() - b.len() + 1],
{
    let sa = f.subrange(f.len() - a.len(), f.len() as int);
    let sb = f.subrange(f.len() - b.len(), f.len() as int);
    assert(sa[0] == a[0] && sa[1] == a[1]);
    assert(sb[0] == b[0] && sb[1] == b[1]);
    if a.len() <= b.len() {
        assert(sb[b.len() - a.len()] == f[f.len() - a.len()]);
        assert(sb[b.len() - a.len() + 1] == f[f.len() - a.len() + 1]);
    } else {
        assert(sa[a.len() - b.len()] == f[f.len() - b.len()]);
        assert(sa[a.len() - b.len() + 1] == f[f.len() - b.len() + 1]);
    }
}

/// A data file whose name ends in `.` and one of the known extensions
/// (snmprec, snmprec.bz2, dump, snmpwalk, walk, mvc, sap) is recognised with
/// exactly that extension: none of them is a dotted tail of another, so the
/// name's extension decides.
pub proof fn lemma_known_extension_recognised(filename: Seq<char>, ext: Seq<char>)
    requires
        ext == "snmprec"@ || ext == "snmprec.bz2"@ || ext == "dump"@ || ext == "snmpwalk"@
            || ext == "walk"@ || ext == "mvc"@ || ext == "sap"@,
        ends_with(filename, seq!['.'] + ext),
    ensures
        spec_match_extension(filename) == Some(ext),
{
    reveal_strlit("snmprec");
    reveal_strlit("snmprec.bz2");
    reveal_strlit("dump");
    reveal_strlit("snmpwalk");
    reveal_strlit("walk");
    reveal_strlit("mvc");
    reveal_strlit("sap");
    let d = seq!['.'] + ext;
    if has_ext(filename, "snmprec"@) {
        lemma_two_suffixes(filename, seq!['.'] + "snmprec"@, d);
    }
    if has_ext(filename, "snmprec.bz2"@) {
        lemma_two_suffixes(filename, seq!['.'] + "snmprec.bz2"@, d);
    }
    if has_ext(filename, "dump"@) {
        lemma_two_suffixes(filename, seq!['.'] + "dump"@, d);
    }
    if has_ext(filename, "snmpwalk"@) {
        lemma_two_suffixes(filename, seq!['.'] + "snmpwalk"@, d);
    }
    if has_ext(filename, "walk"@) {
        lemma_two_suffixes(filename, seq!['.'] + "walk"@, d);
    }
    if has_ext(filename, "mvc"@) {
        lemma_two_suffixes(filename, seq!['.'] + "mvc"@, d);
    }
}


/// GETNEXT moves to the next OID in order: in a sorted index, the entry
/// that `next_after` picks holds the least OID greater than the requested
/// one, and there is none only when no indexed OID is greater.
pub proof fn lemma_next_after_least(idx: Seq<(Seq<u32>, IndexEntry)>, oid: Seq<u32>)
    requires
        sorted_keys(idx),
    ensures
        match next_after(idx, oid) {
            Some(e) => exists|i: int|
                0 <= i < idx.len() && idx[i].1 == e && oid_lt(oid, idx[i].0) && forall|j: int|
                    0 <= j < idx.len() && oid_lt(oid, #[trigger] idx[j].0) ==> j == i || oid_lt(
                        idx[i].0,
                        idx[j].0,
                    ),
            None => forall|j: int| 0 <= j < idx.len() ==> !oid_lt(oid, #[trigger] idx[j].0),
        },
    decreases idx.len(),
{
    if idx.len() > 0 {
        if oid_lt(oid, idx[0].0) {
            assert(idx[0].1 == next_after(idx, oid)->Some_0);
        } else {
            let t = idx.drop_first();
            assert(sorted_keys(t)) by {
                assert forall|i: int, j: int| 0 <= i < j < t.len() implies oid_lt(
                    #[trigger] t[i].0,
                    #[trigger] t[j].0,
                ) by {
                    assert(t[i] == idx[i + 1] && t[j] == idx[j + 1]);
                }
            }
            lemma_next_after_least(t, oid);
            match next_after(t, oid) {
                Some(e) => {
                    let i = choose|i: int|
                        0 <= i < t.len() && t[i].1 == e && oid_lt(oid, t[i].0) && forall|j: int|
                            0 <= j < t.len() && oid_lt(oid, #[trigger] t[j].0) ==> j == i || oid_lt(
                                t[i].0,
                                t[j].0,
                            );
                    assert(idx[i + 1] == t[i]);
                    assert forall|j: int|
                        0 <= j < idx.len() && oid_lt(oid, #[trigger] idx[j].0) implies j == i + 1
                            || oid_lt(idx[i + 1].0, idx[j].0) by {
                        if j > 0 {
                            assert(idx[j] == t[j - 1]);
                        }
                    }
                },
                None => {
                    assert forall|j: int| 0 <= j < idx.len() implies !oid_lt(
                        oid,
                        #[trigger] idx[j].0,
                    ) by {
                        if j > 0 {
                            assert(idx[j] == t[j - 1]);
                        }
                    }
                },
            }
        }
    }
}

/// Every request gets exactly one response, in the order of the requests.
pub proof fn lemma_one_response_per_request(
    kind: RecordKind,
    idx: Seq<(Seq<u32>, IndexEntry)>,
    content: Seq<u8>,
    cache: EvalState,
    delay: u64,
    reqs: Seq<Seq<u32>>,
    next_flag: bool,
    set_flag: bool,
)
    ensures
        spec_process(kind, idx, content, cache, delay, reqs, next_flag, set_flag).0.len()
            == reqs.len(),
    decreases reqs.len(),
{
    if reqs.len() > 0 {
        lemma_one_response_per_request(
            kind,
            idx,
            content,
            cache,
            delay,
            reqs.drop_last(),
            next_flag,
            set_flag,
        );
    }
}

} // verus!
