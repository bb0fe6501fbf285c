//! SNMP request processing.
//!
//! Answers SNMP v1/v2c GET, GETNEXT, GETBULK and SET requests from
//! simulation data files. SNMPv3 messages are answered with a Report PDU
//! saying that the v3 engine is not supported.

use vstd::prelude::*;

use crate::ber::{
    SpecMessage,
    decode_message, encode_message, encode_response, error_status, spec_encode_message, oid_encodable, spec_decode_message,
    spec_encode_response, value_encodable, var_bind_encodable, GetBulkPdu, Pdu, SpecPdu,
    SpecPduBody, SpecVarBind, VarBind, VarBindPdu,
};
use crate::datafile::{pairs_of, spec_process, DataFile, IndexEntry};
use crate::oid::Oid;
use crate::record::{RecordHandler, RecordKind};
use crate::reporting::{bumped, ReportingManager};
use crate::snmp_value::{SnmpValue, SpecValue};
use crate::text::{lossy_text, utf8_lossy};
use crate::record::snmprec::EvalState;
use crate::variation::last_value;

verus! {

// ─── Engine configuration ────────────────────────────────────────────────────

/// Configuration for a single SNMP engine (v3 engine ID + its community mappings).
pub struct EngineConfig {
    /// The engine ID (hex string or "auto").
    pub engine_id: String,
    /// The data files of the engine.
    pub data_files: Vec<DataFile>,
    /// Community name → position in `data_files`; a later pair overrides an
    /// earlier one with the same name.
    pub communities: Vec<(String, usize)>,
    /// UDP v4 endpoints to listen on.
    pub udpv4_endpoints: Vec<String>,
    /// UDP v6 endpoints to listen on.
    pub udpv6_endpoints: Vec<String>,
    /// Maximum variable bindings per response.
    pub max_var_binds: usize,
}

impl EngineConfig {
    pub fn new(engine_id: &str) -> (r: EngineConfig)
        ensures
            r.engine_id@ == engine_id@,
            r.data_files@.len() == 0,
            r.communities@.len() == 0,
            r.udpv4_endpoints@.len() == 0,
            r.udpv6_endpoints@.len() == 0,
            r.max_var_binds == 64,
    {
        EngineConfig {
            engine_id: crate::text::copy_string(engine_id),
            data_files: Vec::new(),
            communities: Vec::new(),
            udpv4_endpoints: Vec::new(),
            udpv6_endpoints: Vec::new(),
            max_var_binds: 64,
        }
    }

    /// Add a data file; returns its position for [`EngineConfig::add_community`].
    pub fn add_data_file(&mut self, data_file: DataFile) -> (r: usize)
        ensures
            r == old(self).data_files@.len(),
            final(self).data_files@ == old(self).data_files@.push(data_file),
            final(self).communities@ == old(self).communities@,
            final(self).max_var_binds == old(self).max_var_binds,
    {
        let r = self.data_files.len();
        self.data_files.push(data_file);
        r
    }

    /// Add a loaded data file under its community name; a name longer than
    /// 32 bytes is registered under `alias` (its digest) as well.
    pub fn add_loaded(&mut self, community: &str, alias: &str, data_file: DataFile)
        ensures
            final(self).data_files@ == old(self).data_files@.push(data_file),
            ({
                let i = old(self).data_files@.len() as usize;
                let first = old(self).communities@.len();
                &&& final(self).communities@.len() == first + if community.len() > 32 {
                    2int
                } else {
                    1int
                }
                &&& final(self).communities@.take(first as int) == old(self).communities@
                &&& final(self).communities@[first as int].0@ == community@
                &&& final(self).communities@[first as int].1 == i
                &&& community.len() > 32 ==> final(self).communities@[first + 1int].0@ == alias@
                    && final(self).communities@[first + 1int].1 == i
            }),
            final(self).max_var_binds == old(self).max_var_binds,
    {
        let i = self.add_data_file(data_file);
        self.add_community(community, i);
        let ghost mid = self.communities@;
        if community.len() > 32 {
            self.add_community(alias, i);
            assert(self.communities@.take(old(self).communities@.len() as int) =~= old(
                self,
            ).communities@);
        } else {
            assert(self.communities@.take(old(self).communities@.len() as int) =~= old(
                self,
            ).communities@);
        }
    }

    /// Register a community name → data file mapping.
    pub fn add_community(&mut self, community: &str, data_file: usize)
        ensures
            final(self).communities@.len() == old(self).communities@.len() + 1,
            final(self).communities@.drop_last() == old(self).communities@,
            final(self).communities@.last().0@ == community@,
            final(self).communities@.last().1 == data_file,
            final(self).data_files@ == old(self).data_files@,
            final(self).max_var_binds == old(self).max_var_binds,
    {
        self.communities.push((crate::text::copy_string(community), data_file));
        assert(self.communities@.drop_last() =~= old(self).communities@);
    }
}

// ─── Community digests ───────────────────────────────────────────────────────

/// The MD5 digest (RFC 1321) of bytes: 16 bytes.
pub uninterp spec fn md5_of(data: Seq<u8>) -> Seq<u8>;

/// `md5::compute`: the MD5 digest of the bytes, as its 16 bytes.
#[verifier::external_body]
fn md5_digest(data: &[u8]) -> (r: Vec<u8>)
    ensures
        r@ == md5_of(data@),
        r@.len() == 16,
{
    md5::compute(data).0.to_vec()
}

proof fn lemma_hex_text_len(b: Seq<u8>)
    ensures
        crate::hex_codec::hex_text(b).len() == 2 * b.len(),
    decreases b.len(),
{
    if b.len() > 0 {
        lemma_hex_text_len(b.drop_last());
    }
}

/// The MD5 hex digest of bytes (32 lowercase hex digits), used as a second
/// name for long community names.
pub fn md5_hex(data: &[u8]) -> (r: String)
    ensures
        r@ == crate::hex_codec::hex_text(md5_of(data@)),
        r@.len() == 32,
{
    let d = md5_digest(data);
    let mut out: Vec<char> = Vec::new();
    let mut i: usize = 0;
    while i < d.len()
        invariant
            i <= d@.len(),
            out@ == crate::hex_codec::hex_text(d@.take(i as int)),
        decreases d@.len() - i,
    {
        proof {
            assert(d@.take(i + 1).drop_last() =~= d@.take(i as int));
        }
        crate::ber::push_hex2(&mut out, d[i]);
        i += 1;
    }
    proof {
        assert(d@.take(i as int) =~= d@);
        lemma_hex_text_len(d@);
    }
    crate::text::string_from(out.as_slice())
}

// ─── Record handlers ─────────────────────────────────────────────────────────

/// One record handler per data file kind, shared by all data files of that kind.
pub struct Handlers {
    pub snmprec: RecordHandler,
    pub compressed: RecordHandler,
    pub walk: RecordHandler,
    pub dump: RecordHandler,
}

impl Handlers {
    /// The handler of a kind.
    pub open spec fn get(&self, k: RecordKind) -> RecordHandler {
        match k {
            RecordKind::Snmprec => self.snmprec,
            RecordKind::CompressedSnmprec => self.compressed,
            RecordKind::Walk => self.walk,
            RecordKind::Dump => self.dump,
        }
    }

    /// Each handler is well formed and reads its own kind.
    pub open spec fn wf(&self) -> bool {
        forall|k: RecordKind| #[trigger] self.get(k).wf() && self.get(k).kind() == k
    }

    pub fn new() -> (r: Handlers)
        ensures
            r.wf(),
            forall|k: RecordKind|
                #[trigger] r.get(k).cache() == crate::record::snmprec::fresh_state()
                    && r.get(k).pending_delay() == 0,
    {
        let r = Handlers {
            snmprec: RecordHandler::new(RecordKind::Snmprec),
            compressed: RecordHandler::new(RecordKind::CompressedSnmprec),
            walk: RecordHandler::new(RecordKind::Walk),
            dump: RecordHandler::new(RecordKind::Dump),
        };
        assert forall|k: RecordKind| #[trigger] r.get(k).wf() && r.get(k).kind() == k by {
            match k {
                RecordKind::Snmprec => {},
                RecordKind::CompressedSnmprec => {},
                RecordKind::Walk => {},
                RecordKind::Dump => {},
            }
        }
        r
    }

    /// Returns the delay asked for by all handlers since the last call
    /// (saturated), and forgets it.
    pub fn take_delay(&mut self) -> (r: u64)
        requires
            old(self).wf(),
        ensures
            final(self).wf(),
            forall|k: RecordKind|
                #[trigger] final(self).get(k).pending_delay() == 0 && final(self).get(k).cache()
                    == old(self).get(k).cache(),
    {
        let a = self.snmprec.take_delay();
        let b = self.compressed.take_delay();
        let c = self.walk.take_delay();
        let d = self.dump.take_delay();
        proof {
            assert(old(self).get(RecordKind::Snmprec).wf());
            assert(old(self).get(RecordKind::CompressedSnmprec).wf());
            assert(old(self).get(RecordKind::Walk).wf());
            assert(old(self).get(RecordKind::Dump).wf());
            assert forall|k: RecordKind| #[trigger] self.get(k).wf() && self.get(k).kind() == k by {
                assert(old(self).get(k).wf() && old(self).get(k).kind() == k);
                match k {
                    RecordKind::Snmprec => {},
                    RecordKind::CompressedSnmprec => {},
                    RecordKind::Walk => {},
                    RecordKind::Dump => {},
                }
            }
            assert forall|k: RecordKind|
                #[trigger] self.get(k).pending_delay() == 0 && self.get(k).cache() == old(self).get(k).cache() by {
                match k {
                    RecordKind::Snmprec => {},
                    RecordKind::CompressedSnmprec => {},
                    RecordKind::Walk => {},
                    RecordKind::Dump => {},
                }
            }
        }
        crate::variation::builtin::add_delay(
            crate::variation::builtin::add_delay(a, b),
            crate::variation::builtin::add_delay(c, d),
        )
    }
}

// ─── Processing requests ─────────────────────────────────────────────────────

/// The OIDs requested by a list of var-binds.
pub open spec fn requested(vbs: Seq<SpecVarBind>) -> Seq<Seq<u32>> {
    Seq::new(vbs.len(), |i: int| vbs[i].oid)
}

/// Pairs of OIDs and values as var-binds.
pub open spec fn as_var_binds(p: Seq<(Seq<u32>, SpecValue)>) -> Seq<SpecVarBind> {
    Seq::new(p.len(), |i: int| SpecVarBind { oid: p[i].0, value: p[i].1 })
}

/// At most the first `n` elements.
pub open spec fn first_n<A>(s: Seq<A>, n: int) -> Seq<A> {
    if n < s.len() {
        s.take(n)
    } else {
        s
    }
}

fn requests_of(vbs: &[VarBind], lo: usize, hi: usize) -> (r: Vec<(Oid, SnmpValue)>)
    requires
        lo <= hi <= vbs@.len(),
    ensures
        Seq::new(r@.len(), |i: int| r@[i].0@) == requested(
            crate::ber::var_binds_view(vbs@),
        ).subrange(lo as int, hi as int),
{
    let ghost want = requested(crate::ber::var_binds_view(vbs@)).subrange(lo as int, hi as int);
    let mut r: Vec<(Oid, SnmpValue)> = Vec::new();
    let mut i = lo;
    while i < hi
        invariant
            lo <= i <= hi <= vbs@.len(),
            r@.len() == i - lo,
            want == requested(crate::ber::var_binds_view(vbs@)).subrange(lo as int, hi as int),
            Seq::new(r@.len(), |j: int| r@[j].0@) == want.take(i - lo),
        decreases hi - i,
    {
        r.push((vbs[i].oid.duplicate(), SnmpValue::Null));
        assert(crate::ber::var_binds_view(vbs@)[i as int] == vbs@[i as int]@);
        assert(want[i - lo] == vbs@[i as int].oid@);
        assert(Seq::new(r@.len(), |j: int| r@[j].0@) =~= want.take(i + 1 - lo));
        i += 1;
    }
    assert(want.take(hi - lo) =~= want);
    r
}

fn to_var_binds(p: Vec<(Oid, SnmpValue)>, limit: usize) -> (r: Vec<VarBind>)
    ensures
        crate::ber::var_binds_view(r@) == as_var_binds(first_n(pairs_of(p@), limit as int)),
{
    let ghost want = as_var_binds(first_n(pairs_of(p@), limit as int));
    let n = if limit < p.len() {
        limit
    } else {
        p.len()
    };
    let mut r: Vec<VarBind> = Vec::new();
    let mut i: usize = 0;
    while i < n
        invariant
            i <= n <= p@.len(),
            r@.len() == i,
            n == if limit < p@.len() {
                limit as int
            } else {
                p@.len() as int
            },
            want == as_var_binds(first_n(pairs_of(p@), limit as int)),
            crate::ber::var_binds_view(r@) == want.take(i as int),
        decreases n - i,
    {
        r.push(VarBind { oid: p[i].0.duplicate(), value: p[i].1.duplicate() });
        assert(first_n(pairs_of(p@), limit as int)[i as int] == (p@[i as int].0@, p@[i as int].1@));
        assert(want[i as int] == SpecVarBind { oid: p@[i as int].0@, value: p@[i as int].1@ });
        assert(crate::ber::var_binds_view(r@)[i as int] == r@[i as int]@);
        assert(crate::ber::var_binds_view(r@) =~= want.take(i + 1));
        i += 1;
    }
    assert(want.take(n as int) =~= want);
    r
}

/// GET: the responses to the requested OIDs, at most `max_var_binds` of them.
fn process_get(
    pdu: &VarBindPdu,
    data_file: &DataFile,
    handler: &mut RecordHandler,
    max_var_binds: usize,
) -> (r: Vec<VarBind>)
    requires
        old(handler).wf(),
        old(handler).kind() == data_file.kind(),
    ensures
        final(handler).wf(),
        final(handler).kind() == old(handler).kind(),
        ({
            let (resp, c, d) = spec_process(
                data_file.kind(),
                data_file.index(),
                data_file.content(),
                old(handler).cache(),
                old(handler).pending_delay(),
                requested(pdu@.var_binds),
                false,
                false,
            );
            crate::ber::var_binds_view(r@) == as_var_binds(first_n(resp, max_var_binds as int))
                && final(handler).cache() == c && final(handler).pending_delay() == d
        }),
{
    let requests = requests_of(pdu.var_binds.as_slice(), 0, pdu.var_binds.len());
    proof {
        let rv = requested(pdu@.var_binds);
        assert(rv.subrange(0, rv.len() as int) =~= rv);
    }
    let responses = data_file.process_var_binds(handler, requests.as_slice(), false, false);
    to_var_binds(responses, max_var_binds)
}

/// GETNEXT: the responses to the requested OIDs, at most `max_var_binds` of them.
fn process_get_next(
    pdu: &VarBindPdu,
    data_file: &DataFile,
    handler: &mut RecordHandler,
    max_var_binds: usize,
) -> (r: Vec<VarBind>)
    requires
        old(handler).wf(),
        old(handler).kind() == data_file.kind(),
    ensures
        final(handler).wf(),
        final(handler).kind() == old(handler).kind(),
        ({
            let (resp, c, d) = spec_process(
                data_file.kind(),
                data_file.index(),
                data_file.content(),
                old(handler).cache(),
                old(handler).pending_delay(),
                requested(pdu@.var_binds),
                true,
                false,
            );
            crate::ber::var_binds_view(r@) == as_var_binds(first_n(resp, max_var_binds as int))
                && final(handler).cache() == c && final(handler).pending_delay() == d
        }),
{
    let requests = requests_of(pdu.var_binds.as_slice(), 0, pdu.var_binds.len());
    proof {
        let rv = requested(pdu@.var_binds);
        assert(rv.subrange(0, rv.len() as int) =~= rv);
    }
    let responses = data_file.process_var_binds(handler, requests.as_slice(), true, false);
    to_var_binds(responses, max_var_binds)
}

/// SET: the responses to the requested OIDs (all of them); values are
/// those of the records, as most records do not store what is set.
fn process_set(pdu: &VarBindPdu, data_file: &DataFile, handler: &mut RecordHandler) -> (r: Vec<
    VarBind,
>)
    requires
        old(handler).wf(),
        old(handler).kind() == data_file.kind(),
    ensures
        final(handler).wf(),
        final(handler).kind() == old(handler).kind(),
        ({
            let (resp, c, d) = spec_process(
                data_file.kind(),
                data_file.index(),
                data_file.content(),
                old(handler).cache(),
                old(handler).pending_delay(),
                requested(pdu@.var_binds),
                false,
                true,
            );
            crate::ber::var_binds_view(r@) == as_var_binds(resp) && final(handler).cache() == c
                && final(handler).pending_delay() == d
        }),
{
    let mut requests: Vec<(Oid, SnmpValue)> = Vec::new();
    let ghost want = requested(pdu@.var_binds);
    let mut i: usize = 0;
    while i < pdu.var_binds.len()
        invariant
            i <= pdu.var_binds@.len(),
            requests@.len() == i,
            want == requested(pdu@.var_binds),
            Seq::new(requests@.len(), |j: int| requests@[j].0@) == want.take(i as int),
        decreases pdu.var_binds@.len() - i,
    {
        let vb = &pdu.var_binds[i];
        requests.push((vb.oid.duplicate(), vb.value.duplicate()));
        assert(pdu@.var_binds[i as int] == pdu.var_binds@[i as int]@);
        assert(want[i as int] == vb.oid@);
        assert(Seq::new(requests@.len(), |j: int| requests@[j].0@) =~= want.take(i + 1));
        i += 1;
    }
    assert(want.take(want.len() as int) =~= want);
    let responses = data_file.process_var_binds(handler, requests.as_slice(), false, true);
    let ghost rv = pairs_of(responses@);
    let n = responses.len();
    let r = to_var_binds(responses, n);
    assert(first_n(rv, n as int) =~= rv);
    r
}

// ─── GETBULK ─────────────────────────────────────────────────────────────────

/// One round of repetitions: the responses are added in order until the
/// response is full; the OIDs not at the end of the MIB are kept for the next
/// round, and `all_end` stays true while every added response is endOfMibView.
pub open spec fn push_round(
    acc: Seq<(Seq<u32>, SpecValue)>,
    resp: Seq<(Seq<u32>, SpecValue)>,
    max: int,
    next: Seq<Seq<u32>>,
    all_end: bool,
) -> (Seq<(Seq<u32>, SpecValue)>, Seq<Seq<u32>>, bool)
    decreases resp.len(),
{
    if resp.len() == 0 {
        (acc, next, all_end)
    } else {
        let (o, v) = resp[0];
        let acc1 = acc.push((o, v));
        let (next1, end1) = if v is EndOfMibView {
            (next, all_end)
        } else {
            (next.push(o), false)
        };
        if acc1.len() >= max {
            (acc1, next1, end1)
        } else {
            push_round(acc1, resp.drop_first(), max, next1, end1)
        }
    }
}

/// The repetitions of a GETBULK: while repetitions are left, OIDs remain
/// and the response is not full, GETNEXT is done for every current OID and
/// the round is added; an all-endOfMibView round ends them.
pub open spec fn bulk_reps(
    kind: RecordKind,
    idx: Seq<(Seq<u32>, IndexEntry)>,
    content: Seq<u8>,
    cache: EvalState,
    delay: u64,
    current: Seq<Seq<u32>>,
    reps_left: nat,
    acc: Seq<(Seq<u32>, SpecValue)>,
    max: int,
) -> (Seq<(Seq<u32>, SpecValue)>, EvalState, u64)
    decreases reps_left,
{
    if reps_left == 0 || current.len() == 0 || acc.len() >= max {
        (acc, cache, delay)
    } else {
        let (resp, c, d) = spec_process(kind, idx, content, cache, delay, current, true, false);
        let (acc2, next, all_end) = push_round(acc, resp, max, Seq::empty(), true);
        if all_end {
            (acc2, c, d)
        } else {
            bulk_reps(kind, idx, content, c, d, next, (reps_left - 1) as nat, acc2, max)
        }
    }
}

/// A count field of a GETBULK as a `usize` (negative counts are zero).
pub open spec fn count_field(n: i64) -> usize {
    (if n > 0 {
        n
    } else {
        0
    }) as usize
}

/// GETBULK: GETNEXT once for each of the first `non_repeaters` OIDs, then
/// the repetitions for the others.
pub open spec fn spec_get_bulk(
    kind: RecordKind,
    idx: Seq<(Seq<u32>, IndexEntry)>,
    content: Seq<u8>,
    cache: EvalState,
    delay: u64,
    body: SpecPduBody,
    max: int,
) -> (Seq<(Seq<u32>, SpecValue)>, EvalState, u64) {
    let reqs = requested(body.var_binds);
    let nr = count_field(body.field2) as int;
    let nr_count = if nr < reqs.len() {
        nr
    } else {
        reqs.len() as int
    };
    let (first, c1, d1) = if nr_count > 0 {
        spec_process(kind, idx, content, cache, delay, reqs.take(nr_count), true, false)
    } else {
        (Seq::empty(), cache, delay)
    };
    bulk_reps(
        kind,
        idx,
        content,
        c1,
        d1,
        reqs.skip(nr_count),
        count_field(body.field3) as nat,
        first,
        max,
    )
}

fn is_end_of_mib_view(v: &SnmpValue) -> (r: bool)
    ensures
        r == (v@ is EndOfMibView),
{
    match v {
        SnmpValue::EndOfMibView => true,
        _ => false,
    }
}

/// Adds one round of responses (see [`push_round`]); returns the OIDs for the
/// next round and whether every added response was endOfMibView.
fn add_round(
    response: &mut Vec<(Oid, SnmpValue)>,
    responses: &Vec<(Oid, SnmpValue)>,
    max_var_binds: usize,
) -> (r: (Vec<Oid>, bool))
    ensures
        push_round(
            pairs_of(old(response)@),
            pairs_of(responses@),
            max_var_binds as int,
            Seq::empty(),
            true,
        ) == (pairs_of(final(response)@), Seq::new(r.0@.len(), |k: int| r.0@[k]@), r.1),
{
    let ghost resp = pairs_of(responses@);
    let ghost acc0 = pairs_of(response@);
    let mut all_end = true;
    let mut next: Vec<Oid> = Vec::new();
    let mut j: usize = 0;
    assert(resp.skip(0) =~= resp);
    assert(Seq::new(next@.len(), |k: int| next@[k]@) =~= Seq::<Seq<u32>>::empty());
    while j < responses.len()
        invariant
            j <= responses@.len(),
            resp == pairs_of(responses@),
            acc0 == pairs_of(old(response)@),
            push_round(acc0, resp, max_var_binds as int, Seq::empty(), true) == push_round(
                pairs_of(response@),
                resp.skip(j as int),
                max_var_binds as int,
                Seq::new(next@.len(), |k: int| next@[k]@),
                all_end,
            ),
        decreases responses@.len() - j,
    {
        let ghost rest = resp.skip(j as int);
        let ghost before = pairs_of(response@);
        let ghost nv0 = Seq::new(next@.len(), |k: int| next@[k]@);
        assert(rest[0] == resp[j as int]);
        assert(rest.drop_first() =~= resp.skip(j + 1));
        let oid = responses[j].0.duplicate();
        let val = responses[j].1.duplicate();
        if is_end_of_mib_view(&val) {
            response.push((oid, val));
        } else {
            all_end = false;
            next.push(oid.duplicate());
            assert(Seq::new(next@.len(), |k: int| next@[k]@) =~= nv0.push(oid@));
            response.push((oid, val));
        }
        assert(pairs_of(response@) =~= before.push(resp[j as int]));
        if response.len() >= max_var_binds {
            return (next, all_end);
        }
        j += 1;
    }
    assert(resp.skip(j as int) =~= Seq::<(Seq<u32>, SpecValue)>::empty());
    (next, all_end)
}

/// GETBULK: the response var-binds.
fn process_get_bulk(
    pdu: &GetBulkPdu,
    data_file: &DataFile,
    handler: &mut RecordHandler,
    max_var_binds: usize,
) -> (r: Vec<VarBind>)
    requires
        old(handler).wf(),
        old(handler).kind() == data_file.kind(),
    ensures
        final(handler).wf(),
        final(handler).kind() == old(handler).kind(),
        ({
            let (resp, c, d) = spec_get_bulk(
                data_file.kind(),
                data_file.index(),
                data_file.content(),
                old(handler).cache(),
                old(handler).pending_delay(),
                pdu@,
                max_var_binds as int,
            );
            crate::ber::var_binds_view(r@) == as_var_binds(resp) && final(handler).cache() == c
                && final(handler).pending_delay() == d
        }),
{
    let ghost kind = data_file.kind();
    let ghost idx = data_file.index();
    let ghost content = data_file.content();
    let ghost reqs = requested(pdu@.var_binds);
    let non_repeaters: usize = if pdu.non_repeaters > 0 {
        pdu.non_repeaters as usize
    } else {
        0
    };
    let max_repetitions: usize = if pdu.max_repetitions > 0 {
        pdu.max_repetitions as usize
    } else {
        0
    };
    let n = pdu.var_binds.len();
    let nr_count = if non_repeaters < n {
        non_repeaters
    } else {
        n
    };
    let mut response: Vec<(Oid, SnmpValue)> = Vec::new();
    if nr_count > 0 {
        let nr_requests = requests_of(pdu.var_binds.as_slice(), 0, nr_count);
        assert(reqs.subrange(0, nr_count as int) =~= reqs.take(nr_count as int));
        response = data_file.process_var_binds(handler, nr_requests.as_slice(), true, false);
    }
    assert(pairs_of(response@) =~= spec_get_bulk_first(kind, idx, content, old(handler).cache(), old(handler).pending_delay(), reqs, nr_count as int).0);
    let mut current: Vec<Oid> = Vec::new();
    {
        let rest = requests_of(pdu.var_binds.as_slice(), nr_count, n);
        let mut i: usize = 0;
        while i < rest.len()
            invariant
                i <= rest@.len(),
                current@.len() == i,
                forall|j: int| 0 <= j < i ==> #[trigger] current@[j]@ == rest@[j].0@,
            decreases rest@.len() - i,
        {
            current.push(rest[i].0.duplicate());
            i += 1;
        }
        assert(Seq::new(current@.len(), |j: int| current@[j]@) =~= reqs.skip(nr_count as int));
    }
    let ghost target = spec_get_bulk(
        kind,
        idx,
        content,
        old(handler).cache(),
        old(handler).pending_delay(),
        pdu@,
        max_var_binds as int,
    );
    let mut rep: usize = 0;
    while rep < max_repetitions
        invariant_except_break
            rep <= max_repetitions,
            target == bulk_reps(
                kind,
                idx,
                content,
                handler.cache(),
                handler.pending_delay(),
                Seq::new(current@.len(), |j: int| current@[j]@),
                (max_repetitions - rep) as nat,
                pairs_of(response@),
                max_var_binds as int,
            ),
        invariant
            handler.wf(),
            handler.kind() == kind,
            kind == data_file.kind(),
            idx == data_file.index(),
            content == data_file.content(),
        ensures
            target == (pairs_of(response@), handler.cache(), handler.pending_delay()),
        decreases max_repetitions - rep,
    {
        if current.len() == 0 || response.len() >= max_var_binds {
            break;
        }
        let ghost cur = Seq::new(current@.len(), |j: int| current@[j]@);
        let mut requests: Vec<(Oid, SnmpValue)> = Vec::new();
        let mut i: usize = 0;
        while i < current.len()
            invariant
                i <= current@.len(),
                requests@.len() == i,
                cur == Seq::new(current@.len(), |j: int| current@[j]@),
                Seq::new(requests@.len(), |j: int| requests@[j].0@) == cur.take(i as int),
            decreases current@.len() - i,
        {
            requests.push((current[i].duplicate(), SnmpValue::Null));
            assert(Seq::new(requests@.len(), |j: int| requests@[j].0@) =~= cur.take(i + 1));
            i += 1;
        }
        assert(cur.take(cur.len() as int) =~= cur);
        let responses = data_file.process_var_binds(handler, requests.as_slice(), true, false);
        let (next, all_end) = add_round(&mut response, &responses, max_var_binds);
        if all_end {
            break;
        }
        current = next;
        rep += 1;
    }
    let ghost pv = pairs_of(response@);
    let n = response.len();
    let r = to_var_binds(response, n);
    assert(first_n(pv, n as int) =~= pv);
    r
}

/// The first GETNEXT round of a GETBULK, over the first `nr_count` OIDs.
pub open spec fn spec_get_bulk_first(
    kind: RecordKind,
    idx: Seq<(Seq<u32>, IndexEntry)>,
    content: Seq<u8>,
    cache: EvalState,
    delay: u64,
    reqs: Seq<Seq<u32>>,
    nr_count: int,
) -> (Seq<(Seq<u32>, SpecValue)>, EvalState, u64) {
    if nr_count > 0 {
        spec_process(kind, idx, content, cache, delay, reqs.take(nr_count), true, false)
    } else {
        (Seq::empty(), cache, delay)
    }
}

// ─── Laws ────────────────────────────────────────────────────────────────────

proof fn lemma_push_round_bounded(
    acc: Seq<(Seq<u32>, SpecValue)>,
    resp: Seq<(Seq<u32>, SpecValue)>,
    max: int,
    next: Seq<Seq<u32>>,
    all_end: bool,
)
    requires
        acc.len() < max,
    ensures
        push_round(acc, resp, max, next, all_end).0.len() <= max,
    decreases resp.len(),
{
    if resp.len() > 0 {
        let (o, v) = resp[0];
        let acc1 = acc.push((o, v));
        let (next1, end1) = if v is EndOfMibView {
            (next, all_end)
        } else {
            (next.push(o), false)
        };
        if acc1.len() < max {
            lemma_push_round_bounded(acc1, resp.drop_first(), max, next1, end1);
        }
    }
}

proof fn lemma_bulk_reps_bounded(
    kind: RecordKind,
    idx: Seq<(Seq<u32>, IndexEntry)>,
    content: Seq<u8>,
    cache: EvalState,
    delay: u64,
    current: Seq<Seq<u32>>,
    reps_left: nat,
    acc: Seq<(Seq<u32>, SpecValue)>,
    max: int,
)
    ensures
        ({
            let r = bulk_reps(kind, idx, content, cache, delay, current, reps_left, acc, max).0;
            r.len() <= max || r == acc
        }),
    decreases reps_left,
{
    if !(reps_left == 0 || current.len() == 0 || acc.len() >= max) {
        let (resp, c, d) = spec_process(kind, idx, content, cache, delay, current, true, false);
        let (acc2, next, all_end) = push_round(acc, resp, max, Seq::empty(), true);
        lemma_push_round_bounded(acc, resp, max, Seq::empty(), true);
        if !all_end {
            lemma_bulk_reps_bounded(
                kind,
                idx,
                content,
                c,
                d,
                next,
                (reps_left - 1) as nat,
                acc2,
                max,
            );
        }
    }
}

/// A GETBULK response holds at most `max` variable bindings, unless the
/// non-repeaters alone are more: then it holds just their responses.
pub proof fn lemma_get_bulk_bounded(
    kind: RecordKind,
    idx: Seq<(Seq<u32>, IndexEntry)>,
    content: Seq<u8>,
    cache: EvalState,
    delay: u64,
    body: SpecPduBody,
    max: int,
)
    ensures
        ({
            let r = spec_get_bulk(kind, idx, content, cache, delay, body, max).0;
            r.len() <= max || (r.len() <= count_field(body.field2) && r.len() <= body.var_binds.len())
        }),
{
    let reqs = requested(body.var_binds);
    let nr = count_field(body.field2) as int;
    let nr_count = if nr < reqs.len() {
        nr
    } else {
        reqs.len() as int
    };
    let (first, c1, d1) = if nr_count > 0 {
        spec_process(kind, idx, content, cache, delay, reqs.take(nr_count), true, false)
    } else {
        (Seq::empty(), cache, delay)
    };
    if nr_count > 0 {
        crate::datafile::lemma_one_response_per_request(
            kind,
            idx,
            content,
            cache,
            delay,
            reqs.take(nr_count),
            true,
            false,
        );
    }
    lemma_bulk_reps_bounded(
        kind,
        idx,
        content,
        c1,
        d1,
        reqs.skip(nr_count),
        count_field(body.field3) as nat,
        first,
        max,
    );
}


/// The OIDs of the responses that are not endOfMibView, in order: the
/// columns whose walk goes on.
pub open spec fn live_oids(resp: Seq<(Seq<u32>, SpecValue)>) -> Seq<Seq<u32>>
    decreases resp.len(),
{
    if resp.len() == 0 {
        Seq::empty()
    } else if resp.last().1 is EndOfMibView {
        live_oids(resp.drop_last())
    } else {
        live_oids(resp.drop_last()).push(resp.last().0)
    }
}

/// The live OIDs of a sequence with one more response at its front.
proof fn lemma_live_oids_front(resp: Seq<(Seq<u32>, SpecValue)>)
    requires
        resp.len() > 0,
    ensures
        live_oids(resp) == if resp[0].1 is EndOfMibView {
            live_oids(resp.drop_first())
        } else {
            seq![resp[0].0] + live_oids(resp.drop_first())
        },
    decreases resp.len(),
{
    if resp.len() == 1 {
        assert(resp.drop_last() =~= Seq::<(Seq<u32>, SpecValue)>::empty());
        assert(resp.drop_first() =~= Seq::<(Seq<u32>, SpecValue)>::empty());
        assert(seq![resp[0].0] + Seq::<Seq<u32>>::empty() =~= seq![resp[0].0]);
    } else {
        lemma_live_oids_front(resp.drop_last());
        assert(resp.drop_last().drop_first() =~= resp.drop_first().drop_last());
        assert(resp.drop_first().last() == resp.last());
        assert(resp.drop_last()[0] == resp[0]);
        if !(resp.last().1 is EndOfMibView) {
            let l = live_oids(resp.drop_first().drop_last());
            assert((seq![resp[0].0] + l).push(resp.last().0) =~= seq![resp[0].0] + l.push(
                resp.last().0,
            ));
        }
    }
}

/// A round that fits in the response is added whole; the OIDs kept for the
/// next round grow by one for each response that is not endOfMibView, and
/// `all_end` stays true only if every response of the round is endOfMibView.
proof fn lemma_push_round_fits(
    acc: Seq<(Seq<u32>, SpecValue)>,
    resp: Seq<(Seq<u32>, SpecValue)>,
    max: int,
    next: Seq<Seq<u32>>,
    all_end: bool,
)
    requires
        acc.len() + resp.len() < max,
    ensures
        ({
            let r = push_round(acc, resp, max, next, all_end);
            &&& r.0 == acc + resp
            &&& r.1 == next + live_oids(resp)
            &&& r.1.len() >= next.len()
            &&& !all_end ==> !r.2
            &&& (exists|i: int| 0 <= i < resp.len() && !(resp[i].1 is EndOfMibView)) ==> r.1.len()
                > next.len() && !r.2
        }),
    decreases resp.len(),
{
    if resp.len() == 0 {
        assert(acc + resp =~= acc);
        assert(next + live_oids(resp) =~= next);
    } else {
        let (o, v) = resp[0];
        let acc1 = acc.push((o, v));
        let (next1, end1) = if v is EndOfMibView {
            (next, all_end)
        } else {
            (next.push(o), false)
        };
        let rest = resp.drop_first();
        lemma_push_round_fits(acc1, rest, max, next1, end1);
        lemma_live_oids_front(resp);
        assert(acc1 + rest =~= acc + resp);
        if !(v is EndOfMibView) {
            assert(next.push(o) + live_oids(rest) =~= next + (seq![o] + live_oids(rest)));
        }
        if exists|i: int| 0 <= i < resp.len() && !(resp[i].1 is EndOfMibView) {
            let i = choose|i: int| 0 <= i < resp.len() && !(resp[i].1 is EndOfMibView);
            if i > 0 {
                assert(rest[i - 1] == resp[i]);
            }
        }
    }
}

/// Adding a round keeps what was there, and adds at least one response when
/// the round has one.
proof fn lemma_push_round_grows(
    acc: Seq<(Seq<u32>, SpecValue)>,
    resp: Seq<(Seq<u32>, SpecValue)>,
    max: int,
    next: Seq<Seq<u32>>,
    all_end: bool,
)
    ensures
        ({
            let r = push_round(acc, resp, max, next, all_end).0;
            &&& r.len() >= acc.len()
            &&& r.subrange(0, acc.len() as int) == acc
            &&& resp.len() > 0 ==> r.len() > acc.len() && r[acc.len() as int] == resp[0]
        }),
    decreases resp.len(),
{
    if resp.len() == 0 {
        assert(acc.subrange(0, acc.len() as int) =~= acc);
    } else {
        let (o, v) = resp[0];
        let acc1 = acc.push((o, v));
        let (next1, end1) = if v is EndOfMibView {
            (next, all_end)
        } else {
            (next.push(o), false)
        };
        if acc1.len() >= max {
            assert(acc1.subrange(0, acc.len() as int) =~= acc);
        } else {
            lemma_push_round_grows(acc1, resp.drop_first(), max, next1, end1);
            let r = push_round(acc1, resp.drop_first(), max, next1, end1).0;
            assert(r.subrange(0, acc.len() as int) =~= r.subrange(0, acc1.len() as int).subrange(
                0,
                acc.len() as int,
            ));
            assert(r.subrange(0, acc1.len() as int)[acc.len() as int] == r[acc.len() as int]);
            assert(acc1.subrange(0, acc.len() as int) =~= acc);
        }
    }
}

/// The repetitions keep the responses gathered before them.
proof fn lemma_bulk_reps_grows(
    kind: RecordKind,
    idx: Seq<(Seq<u32>, IndexEntry)>,
    content: Seq<u8>,
    cache: EvalState,
    delay: u64,
    current: Seq<Seq<u32>>,
    reps_left: nat,
    acc: Seq<(Seq<u32>, SpecValue)>,
    max: int,
)
    ensures
        ({
            let r = bulk_reps(kind, idx, content, cache, delay, current, reps_left, acc, max).0;
            r.len() >= acc.len() && r.subrange(0, acc.len() as int) == acc
        }),
    decreases reps_left,
{
    if reps_left == 0 || current.len() == 0 || acc.len() >= max {
        assert(acc.subrange(0, acc.len() as int) =~= acc);
    } else {
        let (resp, c, d) = spec_process(kind, idx, content, cache, delay, current, true, false);
        let (acc2, next, all_end) = push_round(acc, resp, max, Seq::empty(), true);
        lemma_push_round_grows(acc, resp, max, Seq::empty(), true);
        if !all_end {
            lemma_bulk_reps_grows(kind, idx, content, c, d, next, (reps_left - 1) as nat, acc2, max);
            let r = bulk_reps(kind, idx, content, c, d, next, (reps_left - 1) as nat, acc2, max).0;
            assert(r.subrange(0, acc.len() as int) =~= r.subrange(0, acc2.len() as int).subrange(
                0,
                acc.len() as int,
            ));
        }
    }
}

/// max-repetitions bounds the rounds: with one repetition left, the round
/// over the current OIDs is the last one added, all of it when it fits in the
/// response.
pub proof fn lemma_bulk_last_round(
    kind: RecordKind,
    idx: Seq<(Seq<u32>, IndexEntry)>,
    content: Seq<u8>,
    cache: EvalState,
    delay: u64,
    current: Seq<Seq<u32>>,
    acc: Seq<(Seq<u32>, SpecValue)>,
    max: int,
)
    requires
        acc.len() + current.len() < max,
    ensures
        bulk_reps(kind, idx, content, cache, delay, current, 1, acc, max).0 == acc + spec_process(
            kind,
            idx,
            content,
            cache,
            delay,
            current,
            true,
            false,
        ).0,
{
    let (resp, c, d) = spec_process(kind, idx, content, cache, delay, current, true, false);
    crate::datafile::lemma_one_response_per_request(
        kind,
        idx,
        content,
        cache,
        delay,
        current,
        true,
        false,
    );
    if current.len() == 0 {
        assert(acc + resp =~= acc);
    } else {
        lemma_push_round_fits(acc, resp, max, Seq::empty(), true);
        let (acc2, next, all_end) = push_round(acc, resp, max, Seq::empty(), true);
        assert(bulk_reps(kind, idx, content, c, d, next, 0, acc2, max).0 == acc2);
    }
}

/// GETBULK repetitions go on while they can: when a round over the current
/// OIDs gets at least one response that is not endOfMibView, a repetition
/// is left after it and the response still has room after it, the round is
/// kept whole and another round follows it, a GETNEXT for each OID of the
/// round whose walk has not ended (its first response comes next). A round stops the repetitions only when every response in it is
/// endOfMibView, when the repetitions are used up or when the response is
/// full.
#[verifier::spinoff_prover]
pub proof fn lemma_bulk_continues(
    kind: RecordKind,
    idx: Seq<(Seq<u32>, IndexEntry)>,
    content: Seq<u8>,
    cache: EvalState,
    delay: u64,
    current: Seq<Seq<u32>>,
    reps_left: nat,
    acc: Seq<(Seq<u32>, SpecValue)>,
    max: int,
)
    requires
        reps_left >= 2,
        ({
            let resp = spec_process(kind, idx, content, cache, delay, current, true, false).0;
            &&& acc.len() + resp.len() < max
            &&& exists|i: int| 0 <= i < resp.len() && !(resp[i].1 is EndOfMibView)
        }),
    ensures
        ({
            let (resp, c, d) = spec_process(kind, idx, content, cache, delay, current, true, false);
            let resp2 = spec_process(kind, idx, content, c, d, live_oids(resp), true, false).0;
            let r = bulk_reps(kind, idx, content, cache, delay, current, reps_left, acc, max).0;
            &&& r.len() > acc.len() + resp.len()
            &&& r.subrange(0, (acc.len() + resp.len()) as int) == acc + resp
            &&& r[(acc.len() + resp.len()) as int] == resp2[0]
        }),
{
    let (resp, c, d) = spec_process(kind, idx, content, cache, delay, current, true, false);
    crate::datafile::lemma_one_response_per_request(
        kind,
        idx,
        content,
        cache,
        delay,
        current,
        true,
        false,
    );
    let (acc2, next, all_end) = push_round(acc, resp, max, Seq::empty(), true);
    lemma_push_round_fits(acc, resp, max, Seq::empty(), true);
    assert(acc2 == acc + resp);
    assert(!all_end && next.len() > 0);
    let (resp2, c2, d2) = spec_process(kind, idx, content, c, d, next, true, false);
    crate::datafile::lemma_one_response_per_request(kind, idx, content, c, d, next, true, false);
    assert(bulk_reps(kind, idx, content, cache, delay, current, reps_left, acc, max) == bulk_reps(
        kind,
        idx,
        content,
        c,
        d,
        next,
        (reps_left - 1) as nat,
        acc2,
        max,
    ));
    let (acc3, next3, end3) = push_round(acc2, resp2, max, Seq::empty(), true);
    lemma_push_round_grows(acc2, resp2, max, Seq::empty(), true);
    assert(acc3.len() > acc2.len());
    if end3 {
        assert(bulk_reps(kind, idx, content, c, d, next, (reps_left - 1) as nat, acc2, max).0
            == acc3);
    } else {
        assert(bulk_reps(kind, idx, content, c, d, next, (reps_left - 1) as nat, acc2, max)
            == bulk_reps(kind, idx, content, c2, d2, next3, (reps_left - 2) as nat, acc3, max));
    }
    if !end3 {
        lemma_bulk_reps_grows(kind, idx, content, c2, d2, next3, (reps_left - 2) as nat, acc3, max);
        let r = bulk_reps(kind, idx, content, c2, d2, next3, (reps_left - 2) as nat, acc3, max).0;
        assert(r.subrange(0, acc2.len() as int) =~= r.subrange(0, acc3.len() as int).subrange(
            0,
            acc2.len() as int,
        ));
        assert(r.subrange(0, acc3.len() as int)[acc2.len() as int] == r[acc2.len() as int]);
    }
}


// ─── Server state ────────────────────────────────────────────────────────────

/// The var-binds answering a PDU (with its request id), and the new cache
/// and pending delay of the handler; `None` for PDUs that get no answer.
pub open spec fn spec_answer(
    kind: RecordKind,
    idx: Seq<(Seq<u32>, IndexEntry)>,
    content: Seq<u8>,
    cache: EvalState,
    delay: u64,
    pdu: SpecPdu,
    max: int,
) -> Option<(Seq<SpecVarBind>, i64, EvalState, u64)> {
    match pdu {
        SpecPdu::GetRequest(b) => {
            let (resp, c, d) = spec_process(kind, idx, content, cache, delay, requested(b.var_binds), false, false);
            Some((as_var_binds(first_n(resp, max)), b.request_id, c, d))
        },
        SpecPdu::GetNextRequest(b) => {
            let (resp, c, d) = spec_process(kind, idx, content, cache, delay, requested(b.var_binds), true, false);
            Some((as_var_binds(first_n(resp, max)), b.request_id, c, d))
        },
        SpecPdu::GetBulkRequest(b) => {
            let (resp, c, d) = spec_get_bulk(kind, idx, content, cache, delay, b, max);
            Some((as_var_binds(resp), b.request_id, c, d))
        },
        SpecPdu::SetRequest(b) => {
            let (resp, c, d) = spec_process(kind, idx, content, cache, delay, requested(b.var_binds), false, true);
            Some((as_var_binds(resp), b.request_id, c, d))
        },
        _ => None,
    }
}

/// Every var-bind can be encoded.
pub open spec fn all_encodable(vbs: Seq<SpecVarBind>) -> bool {
    forall|i: int| 0 <= i < vbs.len() ==> var_bind_encodable(#[trigger] vbs[i])
}

fn oid_encodable_exec(o: &Oid) -> (r: bool)
    ensures
        r == oid_encodable(o@),
{
    let c = o.components();
    if c.len() < 2 {
        true
    } else {
        (c[0] as u64) * 40 + (c[1] as u64) <= 0xFFFF_FFFF
    }
}

fn all_encodable_exec(vbs: &[VarBind]) -> (r: bool)
    ensures
        r == all_encodable(crate::ber::var_binds_view(vbs@)),
{
    let ghost v = crate::ber::var_binds_view(vbs@);
    let mut i: usize = 0;
    while i < vbs.len()
        invariant
            i <= vbs@.len(),
            v == crate::ber::var_binds_view(vbs@),
            forall|j: int| 0 <= j < i ==> var_bind_encodable(#[trigger] v[j]),
        decreases vbs@.len() - i,
    {
        let vb = &vbs[i];
        assert(v[i as int] == vb@);
        let value_ok = match &vb.value {
            SnmpValue::ObjectIdentifier(o) => oid_encodable_exec(o),
            _ => true,
        };
        if !(oid_encodable_exec(&vb.oid) && value_ok) {
            assert(!var_bind_encodable(v[i as int]));
            return false;
        }
        i += 1;
    }
    true
}

/// State shared by all request processing: the data files, the community
/// names that select them, the record handlers and the metrics.
pub struct ServerState {
    pub data_files: Vec<DataFile>,
    /// Community name → position in `data_files`; a later pair overrides
    /// an earlier one.
    pub communities: Vec<(String, usize)>,
    pub handlers: Handlers,
    pub max_var_binds: usize,
    pub reporting: ReportingManager,
}

impl ServerState {
    /// The data files.
    pub open spec fn files(&self) -> Seq<DataFile> {
        self.data_files@
    }

    /// Community names and the positions of their data files; a later pair
    /// overrides an earlier one.
    pub open spec fn community_pairs(&self) -> Seq<(Seq<char>, usize)> {
        Seq::new(self.communities@.len(), |i: int| (self.communities@[i].0@, self.communities@[i].1))
    }

    /// The record handler of a kind.
    pub open spec fn handler(&self, k: RecordKind) -> RecordHandler {
        self.handlers.get(k)
    }

    /// Communities name existing data files, and handlers are well formed.
    pub open spec fn wf(&self) -> bool {
        &&& self.handlers.wf()
        &&& forall|i: int| 0 <= i < self.communities@.len() ==> #[trigger] self.communities@[i].1 < self.data_files@.len()
    }

    pub fn new(max_var_binds: usize, reporting: ReportingManager) -> (r: ServerState)
        ensures
            r.wf(),
            r.files().len() == 0,
            r.community_pairs().len() == 0,
            r.max_var_binds == max_var_binds,
            r.reporting == reporting,
            forall|k: RecordKind|
                #[trigger] r.handler(k).cache() == crate::record::snmprec::fresh_state()
                    && r.handler(k).pending_delay() == 0,
    {
        let r = ServerState {
            data_files: Vec::new(),
            communities: Vec::new(),
            handlers: Handlers::new(),
            max_var_binds,
            reporting,
        };
        assert(r.community_pairs() =~= Seq::<(Seq<char>, usize)>::empty());
        r
    }

    /// Take over the data files and community mappings of an engine; its
    /// communities override earlier ones of the same name.
    pub fn add_engine(&mut self, engine: EngineConfig)
        requires
            old(self).wf(),
            forall|i: int|
                0 <= i < engine.communities@.len() ==> #[trigger] engine.communities@[i].1
                    < engine.data_files@.len(),
        ensures
            final(self).wf(),
            final(self).files() == old(self).files() + engine.data_files@,
            final(self).community_pairs() == old(self).community_pairs() + Seq::new(
                engine.communities@.len(),
                |i: int|
                    (
                        engine.communities@[i].0@,
                        (engine.communities@[i].1 + old(self).files().len()) as usize,
                    ),
            ),
            forall|k: RecordKind| #[trigger] final(self).handler(k) == old(self).handler(k),
            final(self).max_var_binds == old(self).max_var_binds,
            final(self).reporting == old(self).reporting,
    {
        let base = self.data_files.len();
        let ghost old_files = self.data_files@;
        let ghost old_pairs = self.community_pairs();
        let ghost new_pairs = Seq::new(
            engine.communities@.len(),
            |i: int| (engine.communities@[i].0@, (engine.communities@[i].1 + base) as usize),
        );
        let ghost engine_files = engine.data_files@;
        let EngineConfig { data_files, communities, .. } = engine;
        let mut files = data_files;
        let n = files.len();
        self.data_files.append(&mut files);
        assert(self.data_files@ =~= old_files + engine_files);
        let total = self.data_files.len();
        let mut i: usize = 0;
        while i < communities.len()
            invariant
                i <= communities@.len(),
                base == old_files.len(),
                self.data_files@ == old_files + engine_files,
                n == engine_files.len(),
                total == base + n,
                total == self.data_files@.len(),
                forall|j: int| 0 <= j < communities@.len() ==> #[trigger] communities@[j].1 < n,
                new_pairs == Seq::new(
                    communities@.len(),
                    |j: int| (communities@[j].0@, (communities@[j].1 + base) as usize),
                ),
                self.community_pairs() == old_pairs + new_pairs.take(i as int),
                self.handlers == old(self).handlers,
                self.max_var_binds == old(self).max_var_binds,
                self.reporting == old(self).reporting,
                forall|j: int|
                    0 <= j < self.communities@.len() ==> #[trigger] self.communities@[j].1
                        < self.data_files@.len(),
            decreases communities@.len() - i,
        {
            let name = crate::text::copy_string(communities[i].0.as_str());
            assert(communities@[i as int].1 < n);
            let idx = communities[i].1 + base;
            let ghost before = self.community_pairs();
            self.communities.push((name, idx));
            assert(new_pairs[i as int] == (communities@[i as int].0@, idx));
            assert(self.community_pairs() =~= before.push((communities@[i as int].0@, idx)));
            assert(self.community_pairs() =~= old_pairs + new_pairs.take(i + 1));
            i += 1;
        }
        assert(new_pairs.take(communities@.len() as int) =~= new_pairs);
    }

    /// Look up a data file by community name (the bytes read as UTF-8, with
    /// invalid sequences replaced).
    pub fn find_data_file(&self, community: &[u8]) -> (r: Option<usize>)
        requires
            self.wf(),
        ensures
            r == last_value(self.community_pairs(), lossy_text(community@)),
            r matches Some(i) ==> i < self.files().len(),
    {
        let name = utf8_lossy(community);
        let ghost pv = self.community_pairs();
        let mut i: usize = self.communities.len();
        assert(pv.take(pv.len() as int) =~= pv);
        while i > 0
            invariant
                i <= self.communities@.len(),
                pv == self.community_pairs(),
                name@ == lossy_text(community@),
                self.wf(),
                last_value(pv, name@) == last_value(pv.take(i as int), name@),
            decreases i,
        {
            assert(pv.take(i as int).drop_last() =~= pv.take(i - 1));
            assert(pv.take(i as int).last() == pv[i - 1]);
            if crate::text::str_eq(self.communities[i - 1].0.as_str(), name.as_str()) {
                assert(self.communities@[i - 1].1 < self.data_files@.len());
                return Some(self.communities[i - 1].1);
            }
            i -= 1;
        }
        None
    }

    /// The data file at a position.
    pub fn data_file(&self, i: usize) -> (r: &DataFile)
        requires
            i < self.files().len(),
        ensures
            *r == self.files()[i as int],
    {
        &self.data_files[i]
    }

    /// Returns the delay (ms) asked for by delay modules since the last
    /// call, and forgets it.
    pub fn take_delay(&mut self) -> (r: u64)
        requires
            old(self).wf(),
        ensures
            final(self).wf(),
            final(self).files() == old(self).files(),
            final(self).community_pairs() == old(self).community_pairs(),
            forall|k: RecordKind|
                #[trigger] final(self).handler(k).pending_delay() == 0 && final(self).handler(
                    k,
                ).cache() == old(self).handler(k).cache(),
    {
        self.handlers.take_delay()
    }
}

// ─── Datagrams ───────────────────────────────────────────────────────────────

fn answer_with(pdu: &Pdu, data_file: &DataFile, handler: &mut RecordHandler, max_var_binds: usize) -> (r:
    Option<(Vec<VarBind>, i64)>)
    requires
        old(handler).wf(),
        old(handler).kind() == data_file.kind(),
    ensures
        final(handler).kind() == old(handler).kind(),
        match spec_answer(
            data_file.kind(),
            data_file.index(),
            data_file.content(),
            old(handler).cache(),
            old(handler).pending_delay(),
            pdu@,
            max_var_binds as int,
        ) {
            None => r is None && *final(handler) == *old(handler),
            Some((vbs, rid, c, d)) => r matches Some(x) && crate::ber::var_binds_view(x.0@) == vbs
                && x.1 == rid && final(handler).wf() && final(handler).cache() == c
                && final(handler).pending_delay() == d,
        },
{
    match pdu {
        Pdu::GetRequest(p) => Some(
            (process_get(p, data_file, handler, max_var_binds), p.request_id),
        ),
        Pdu::GetNextRequest(p) => Some(
            (process_get_next(p, data_file, handler, max_var_binds), p.request_id),
        ),
        Pdu::GetBulkRequest(p) => Some(
            (process_get_bulk(p, data_file, handler, max_var_binds), p.request_id),
        ),
        Pdu::SetRequest(p) => Some((process_set(p, data_file, handler), p.request_id)),
        Pdu::GetResponse(_) => None,
        Pdu::Unknown(_) => None,
    }
}

fn answer_pdu(pdu: &Pdu, data_file: &DataFile, handlers: &mut Handlers, max_var_binds: usize) -> (r:
    Option<(Vec<VarBind>, i64)>)
    requires
        old(handlers).wf(),
    ensures
        final(handlers).wf(),
        forall|k: RecordKind|
            k != data_file.kind() ==> #[trigger] final(handlers).get(k) == old(handlers).get(k),
        match spec_answer(
            data_file.kind(),
            data_file.index(),
            data_file.content(),
            old(handlers).get(data_file.kind()).cache(),
            old(handlers).get(data_file.kind()).pending_delay(),
            pdu@,
            max_var_binds as int,
        ) {
            None => r is None && *final(handlers) == *old(handlers),
            Some((vbs, rid, c, d)) => r matches Some(x) && crate::ber::var_binds_view(x.0@) == vbs
                && x.1 == rid && final(handlers).get(data_file.kind()).cache() == c && final(handlers).get(data_file.kind()).pending_delay() == d,
        },
{
    let ghost h0 = *handlers;
    proof {
        assert(h0.get(data_file.kind()).wf());
        assert(h0.get(data_file.kind()).kind() == data_file.kind());
    }
    let r = match data_file.record() {
        RecordKind::Snmprec => answer_with(pdu, data_file, &mut handlers.snmprec, max_var_binds),
        RecordKind::CompressedSnmprec => answer_with(
            pdu,
            data_file,
            &mut handlers.compressed,
            max_var_binds,
        ),
        RecordKind::Walk => answer_with(pdu, data_file, &mut handlers.walk, max_var_binds),
        RecordKind::Dump => answer_with(pdu, data_file, &mut handlers.dump, max_var_binds),
    };
    proof {
        assert(h0.get(RecordKind::Snmprec).wf() && h0.get(RecordKind::Snmprec).kind() == RecordKind::Snmprec);
        assert(h0.get(RecordKind::CompressedSnmprec).wf() && h0.get(RecordKind::CompressedSnmprec).kind() == RecordKind::CompressedSnmprec);
        assert(h0.get(RecordKind::Walk).wf() && h0.get(RecordKind::Walk).kind() == RecordKind::Walk);
        assert(h0.get(RecordKind::Dump).wf() && h0.get(RecordKind::Dump).kind() == RecordKind::Dump);
        assert forall|k: RecordKind| #[trigger] handlers.get(k).wf() && handlers.get(k).kind() == k by {
            match k {
                RecordKind::Snmprec => {},
                RecordKind::CompressedSnmprec => {},
                RecordKind::Walk => {},
                RecordKind::Dump => {},
            }
        }
    }
    r
}

/// The effect of answering message `m` with data file `fi`: the handler of
/// the file's kind changes as the answer says, the file's metrics count one
/// transport call and one data-file call, and the response is the encoded
/// GetResponse when every var-bind can be encoded. `None` when the PDU is not
/// a request, and then nothing changes.
pub open spec fn answered(
    old_state: ServerState,
    new_state: ServerState,
    fi: usize,
    m: crate::ber::SpecMessage,
    r: Option<Vec<u8>>,
) -> bool {
    let df = old_state.files()[fi as int];
    let k = df.kind();
    let h = old_state.handler(k);
    match spec_answer(
        k,
        df.index(),
        df.content(),
        h.cache(),
        h.pending_delay(),
        m.pdu,
        old_state.max_var_binds as int,
    ) {
        None => r is None && new_state == old_state,
        Some((vbs, rid, c, d)) => {
            &&& new_state.handler(k).cache() == c
            &&& new_state.handler(k).pending_delay() == d
            &&& forall|k2: RecordKind|
                k2 != k ==> #[trigger] new_state.handler(k2) == old_state.handler(k2)
            &&& if all_encodable(vbs) {
                &&& r matches Some(b) && b@ == spec_encode_response(
                    m.version,
                    m.community,
                    rid,
                    error_status::NO_ERROR,
                    0,
                    vbs,
                )
                &&& forall|name: Seq<char>|
                    #![trigger last_value(new_state.reporting.view(), name)]
                    last_value(new_state.reporting.view(), name) == if name == df.path_text() {
                        Some(
                            bumped(last_value(old_state.reporting.view(), name), true, true, false, 0),
                        )
                    } else {
                        last_value(old_state.reporting.view(), name)
                    }
            } else {
                &&& r is None
                &&& new_state.reporting == old_state.reporting
            }
        },
    }
}

/// Answer a decoded message with data file `fi`.
fn respond(state: &mut ServerState, fi: usize, message: &crate::ber::SnmpMessage) -> (r: Option<Vec<u8>>)
    requires
        old(state).wf(),
        fi < old(state).files().len(),
    ensures
        final(state).wf(),
        final(state).files() == old(state).files(),
        final(state).community_pairs() == old(state).community_pairs(),
        final(state).max_var_binds == old(state).max_var_binds,
        final(state).reporting.json_path == old(state).reporting.json_path,
        final(state).reporting.reporter == old(state).reporting.reporter,
        answered(*old(state), *final(state), fi, message@, r),
{
    let max_var_binds = state.max_var_binds;
    let answer = answer_pdu(&message.pdu, &state.data_files[fi], &mut state.handlers, max_var_binds);
    let (vbs, request_id) = match answer {
        Some(a) => a,
        None => {
            return None;
        },
    };
    if !all_encodable_exec(vbs.as_slice()) {
        return None;
    }
    let path = crate::text::copy_string(state.data_files[fi].path_str());
    state.reporting.update(path.as_str(), true, true, false, 0);
    proof {
        assert forall|i: int| 0 <= i < vbs@.len() implies var_bind_encodable(
            #[trigger] vbs@[i]@,
        ) by {
            assert(crate::ber::var_binds_view(vbs@)[i] == vbs@[i]@);
        }
    }
    Some(
        encode_response(
            message.version,
            message.community.as_slice(),
            request_id,
            error_status::NO_ERROR,
            0,
            vbs.as_slice(),
        ),
    )
}

/// `snmpUnknownSecurityModels.0`, the counter that a Report names when no
/// security model can handle a message.
pub open spec fn unknown_security_models() -> Seq<u32> {
    seq![1u32, 3, 6, 1, 6, 3, 11, 2, 1, 1, 0]
}

/// The request id of a PDU (0 for a PDU of unknown type).
pub open spec fn pdu_request_id(p: SpecPdu) -> i64 {
    match p {
        SpecPdu::GetRequest(b) => b.request_id,
        SpecPdu::GetNextRequest(b) => b.request_id,
        SpecPdu::GetResponse(b) => b.request_id,
        SpecPdu::SetRequest(b) => b.request_id,
        SpecPdu::GetBulkRequest(b) => b.request_id,
        SpecPdu::Unknown(_) => 0,
    }
}

/// The answer to an SNMPv3 message: a message with its version, community
/// and request id whose Report PDU (no error) holds the one var-bind
/// `snmpUnknownSecurityModels.0 = Counter32(1)`, saying that the v3 engine is
/// not supported.
pub open spec fn v3_report(m: SpecMessage) -> Seq<u8> {
    spec_encode_message(
        crate::snmp_value::ber_tags::REPORT,
        m.version,
        m.community,
        pdu_request_id(m.pdu),
        0,
        0,
        seq![SpecVarBind { oid: unknown_security_models(), value: SpecValue::Counter32(1) }],
    )
}

fn report_v3(message: &crate::ber::SnmpMessage) -> (r: Vec<u8>)
    ensures
        r@ == v3_report(message@),
{
    let request_id = match &message.pdu {
        Pdu::GetRequest(p) => p.request_id,
        Pdu::GetNextRequest(p) => p.request_id,
        Pdu::GetResponse(p) => p.request_id,
        Pdu::SetRequest(p) => p.request_id,
        Pdu::GetBulkRequest(p) => p.request_id,
        Pdu::Unknown(_) => 0,
    };
    let vb = VarBind {
        oid: Oid::new(vec![1u32, 3, 6, 1, 6, 3, 11, 2, 1, 1, 0]),
        value: SnmpValue::Counter32(1),
    };
    let vbs = vec![vb];
    proof {
        assert(vbs@[0].oid@ =~= unknown_security_models());
        assert(crate::ber::var_binds_view(vbs@) =~= seq![
            SpecVarBind { oid: unknown_security_models(), value: SpecValue::Counter32(1) },
        ]);
    }
    encode_message(
        crate::snmp_value::ber_tags::REPORT,
        message.version,
        message.community.as_slice(),
        request_id,
        0,
        0,
        vbs.as_slice(),
    )
}

/// Process a received UDP datagram and return the response bytes (or
/// `None` when nothing is sent): an SNMPv3 message gets the Report of
/// [`v3_report`]; malformed messages, unknown communities and PDUs that are
/// not requests get no answer. Neither changes anything. A request is
/// answered by the data file of its community (see [`answered`]).
pub fn process_packet(data: &[u8], state: &mut ServerState) -> (r: Option<Vec<u8>>)
    requires
        old(state).wf(),
    ensures
        final(state).wf(),
        final(state).files() == old(state).files(),
        final(state).community_pairs() == old(state).community_pairs(),
        final(state).max_var_binds == old(state).max_var_binds,
        final(state).reporting.json_path == old(state).reporting.json_path,
        final(state).reporting.reporter == old(state).reporting.reporter,
        match spec_decode_message(data@) {
            Err(_) => r is None && *final(state) == *old(state),
            Ok(m) => if m.version == 3 {
                r matches Some(b) && b@ == v3_report(m) && *final(state) == *old(state)
            } else {
                match last_value(old(state).community_pairs(), lossy_text(m.community)) {
                    None => r is None && *final(state) == *old(state),
                    Some(fi) => answered(*old(state), *final(state), fi, m, r),
                }
            },
        },
{
    let message = match decode_message(data) {
        Ok(m) => m,
        Err(_) => {
            return None;
        },
    };
    // SNMPv3 is not supported: answer with a Report saying so
    if message.version == 3 {
        return Some(report_v3(&message));
    }
    let fi = match state.find_data_file(message.community.as_slice()) {
        Some(i) => i,
        None => {
            return None;
        },
    };
    respond(state, fi, &message)
}

} // verus!
