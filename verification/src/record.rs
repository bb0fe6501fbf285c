//! Record types for simulation data files.
//!
//! Each record type understands how to parse a file line into a typed
//! (Oid, SnmpValue) pair, and how to format one back.

pub mod dump;
pub mod laws;
pub mod snmprec;
pub mod walk;

use vstd::prelude::*;

use crate::error::SnmpsimError;
use crate::grammar::snmprec::snmprec_parse;
use crate::oid::Oid;
use crate::record::dump::DumpRecord;
use crate::record::snmprec::{
    fresh_state, line_outcome, spec_evaluate_line, CompressedSnmprecRecord, EvalState,
    SnmprecRecord,
};
use crate::record::walk::{walk_fields_of, WalkRecord};
use crate::snmp_value::{SnmpValue, SpecValue};
use crate::variation::{clamp_delay, EvalError};

verus! {

/// The context in which a record is being evaluated.
#[derive(Debug, Clone, Default)]
pub struct EvalContext {
    /// True if this is a GET-NEXT operation.
    pub next_flag: bool,
    /// True if this is a SET operation.
    pub set_flag: bool,
    /// True if the OID was an exact match in the index.
    pub exact_match: bool,
    /// True if the matched record serves a subtree.
    pub subtree_flag: bool,
    /// The original OID from the request.
    pub orig_oid: Option<Oid>,
    /// The path to the data file being accessed.
    pub data_file: String,
    /// Only parse the OID, skip value evaluation.
    pub oid_only: bool,
}

/// The flags of an evaluation context that decide a record's value.
#[derive(Clone, Copy, Debug, PartialEq, Eq)]
pub struct EvalFlags {
    pub next_flag: bool,
    pub set_flag: bool,
    pub exact_match: bool,
    /// The request carried an original OID.
    pub has_orig_oid: bool,
    pub oid_only: bool,
}

impl EvalContext {
    /// The flags of this context.
    pub open spec fn flags(&self) -> EvalFlags {
        EvalFlags {
            next_flag: self.next_flag,
            set_flag: self.set_flag,
            exact_match: self.exact_match,
            has_orig_oid: self.orig_oid is Some,
            oid_only: self.oid_only,
        }
    }
}

/// The data file formats that have a record handler.
#[derive(Clone, Copy, Debug, PartialEq, Eq)]
pub enum RecordKind {
    Snmprec,
    CompressedSnmprec,
    Walk,
    Dump,
}

/// The (oid, tag, value) fields of a line in a file of the given kind, when
/// the line parses.
pub open spec fn record_fields(kind: RecordKind, line: Seq<u8>) -> Option<
    (Seq<char>, Seq<char>, Seq<char>),
> {
    match kind {
        RecordKind::Walk => walk_fields_of(line),
        _ => snmprec_parse(line),
    }
}

/// The message of the parse error for a line that the grammar of a kind
/// refuses.
pub open spec fn record_refusal(kind: RecordKind, line: Seq<u8>) -> Seq<char> {
    match kind {
        RecordKind::Walk => crate::record::walk::walk_refusal(line),
        RecordKind::Dump => crate::grammar::dump::dump_refusal(line),
        _ => crate::grammar::snmprec::snmprec_refusal(line),
    }
}

/// The outcome of evaluating a line with a handler whose writecache holds
/// `cache` and whose pending delay is `delay`: the OID and value (or a
/// failure), the new cache and the new pending delay.
pub open spec fn eval_step(
    kind: RecordKind,
    line: Seq<u8>,
    cache: EvalState,
    delay: u64,
    ctx: EvalFlags,
) -> (Option<(Seq<u32>, Option<SpecValue>)>, EvalState, u64) {
    match spec_evaluate_line(cache, record_fields(kind, line), ctx) {
        None => (None, cache, delay),
        Some((Ok(x), c, d)) => (Some(x), c, clamp_delay((delay + d) as nat)),
        Some((Err(_), c, _)) => (None, c, delay),
    }
}

/// A record handler of one of the known kinds.
pub enum RecordHandler {
    Snmprec(SnmprecRecord),
    CompressedSnmprec(CompressedSnmprecRecord),
    Walk(WalkRecord),
    Dump(DumpRecord),
}

impl RecordHandler {
    /// The kind of data file this handler reads.
    pub open spec fn kind(&self) -> RecordKind {
        match self {
            RecordHandler::Snmprec(_) => RecordKind::Snmprec,
            RecordHandler::CompressedSnmprec(_) => RecordKind::CompressedSnmprec,
            RecordHandler::Walk(_) => RecordKind::Walk,
            RecordHandler::Dump(_) => RecordKind::Dump,
        }
    }

    /// Every built-in variation module is registered.
    pub open spec fn wf(&self) -> bool {
        match self {
            RecordHandler::Snmprec(r) => r.wf(),
            RecordHandler::CompressedSnmprec(r) => r.inner.wf(),
            RecordHandler::Walk(r) => r.wf(),
            RecordHandler::Dump(r) => r.wf(),
        }
    }

    /// The values that the handler's writecache module holds, by OID.
    pub open spec fn cache(&self) -> EvalState {
        match self {
            RecordHandler::Snmprec(r) => r.cache(),
            RecordHandler::CompressedSnmprec(r) => r.inner.cache(),
            RecordHandler::Walk(r) => r.cache(),
            RecordHandler::Dump(r) => r.cache(),
        }
    }

    /// The delay (ms) asked for by delay modules since it was last taken.
    pub open spec fn pending_delay(&self) -> u64 {
        match self {
            RecordHandler::Snmprec(r) => r.pending_delay(),
            RecordHandler::CompressedSnmprec(r) => r.inner.pending_delay(),
            RecordHandler::Walk(r) => r.pending_delay(),
            RecordHandler::Dump(r) => r.pending_delay(),
        }
    }

    /// A new handler of the given kind.
    pub fn new(kind: RecordKind) -> (r: RecordHandler)
        ensures
            r.kind() == kind,
            r.wf(),
            r.cache() == fresh_state(),
            r.pending_delay() == 0,
    {
        match kind {
            RecordKind::Snmprec => RecordHandler::Snmprec(SnmprecRecord::new()),
            RecordKind::CompressedSnmprec => RecordHandler::CompressedSnmprec(
                CompressedSnmprecRecord::new(),
            ),
            RecordKind::Walk => RecordHandler::Walk(WalkRecord::new()),
            RecordKind::Dump => RecordHandler::Dump(DumpRecord::new()),
        }
    }

    /// The file extension of the handler's record type (without leading dot).
    pub fn extension(&self) -> (r: &'static str)
        ensures
            r@ == kind_extension(self.kind()),
    {
        match self {
            RecordHandler::Snmprec(r) => r.extension(),
            RecordHandler::CompressedSnmprec(r) => r.extension(),
            RecordHandler::Walk(r) => r.extension(),
            RecordHandler::Dump(r) => r.extension(),
        }
    }

    /// Parse a full data file line into (Oid, SnmpValue).
    pub fn evaluate(&mut self, line: &[u8], ctx: &EvalContext) -> (r: Result<
        (Oid, Option<SnmpValue>),
        SnmpsimError,
    >)
        requires
            old(self).wf(),
        ensures
            final(self).wf(),
            final(self).kind() == old(self).kind(),
            line_outcome(
                r,
                spec_evaluate_line(old(self).cache(), record_fields(old(self).kind(), line@), ctx.flags()),
                record_refusal(old(self).kind(), line@),
            ),
            ({
                let (x, c, d) = eval_step(
                    old(self).kind(),
                    line@,
                    old(self).cache(),
                    old(self).pending_delay(),
                    ctx.flags(),
                );
                final(self).cache() == c && final(self).pending_delay() == d
            }),
    {
        match self {
            RecordHandler::Snmprec(r) => r.evaluate(line, ctx),
            RecordHandler::CompressedSnmprec(r) => r.inner.evaluate(line, ctx),
            RecordHandler::Walk(r) => r.evaluate(line, ctx),
            RecordHandler::Dump(r) => r.evaluate(line, ctx),
        }
    }

    /// Returns the delay asked for since the last call, and forgets it.
    pub fn take_delay(&mut self) -> (r: u64)
        ensures
            r == old(self).pending_delay(),
            final(self).pending_delay() == 0,
            final(self).wf() == old(self).wf(),
            final(self).kind() == old(self).kind(),
            final(self).cache() == old(self).cache(),
    {
        match self {
            RecordHandler::Snmprec(r) => r.take_delay(),
            RecordHandler::CompressedSnmprec(r) => r.inner.take_delay(),
            RecordHandler::Walk(r) => r.take_delay(),
            RecordHandler::Dump(r) => r.take_delay(),
        }
    }

    /// Build a record line from (oid, value) in the handler's format.
    pub fn format(&self, oid: &Oid, value: &SnmpValue) -> (r: Result<Vec<u8>, SnmpsimError>)
        ensures
            self.kind() == RecordKind::Walk ==> (r matches Err(e) && e matches SnmpsimError::Parse(
                m,
            ) && m@ == "WalkGrammar does not support build; convert to snmprec first"@),
            self.kind() != RecordKind::Walk ==> ({
                let (o, t, v) = crate::record::snmprec::spec_format_value(oid@, value@);
                &&& r is Ok <==> o.len() > 0
                &&& r matches Ok(b) ==> b@ == vstd::utf8::encode_utf8(
                    crate::grammar::pipe_line(o, t, v),
                )
                &&& r matches Err(e) ==> (e matches SnmpsimError::Parse(m) && m@
                    == crate::grammar::empty_oid_tag_text(o, t))
            }),
    {
        match self {
            RecordHandler::Snmprec(r) => r.format(oid, value),
            RecordHandler::CompressedSnmprec(r) => r.inner.format(oid, value),
            RecordHandler::Walk(r) => r.format(oid, value),
            RecordHandler::Dump(r) => r.format(oid, value),
        }
    }
}

/// The file extension of each kind.
pub open spec fn kind_extension(kind: RecordKind) -> Seq<char> {
    match kind {
        RecordKind::Snmprec => "snmprec"@,
        RecordKind::CompressedSnmprec => "snmprec.bz2"@,
        RecordKind::Walk => "snmpwalk"@,
        RecordKind::Dump => "dump"@,
    }
}

/// The kind of record handler that reads files with an extension, if any
/// reads them.
pub fn kind_for_extension(ext: &str) -> (r: Option<RecordKind>)
    ensures
        match r {
            Some(k) => kind_extension(k) == ext@,
            None => forall|k: RecordKind| kind_extension(k) != ext@,
        },
{
    if crate::text::str_eq(ext, "snmprec") {
        Some(RecordKind::Snmprec)
    } else if crate::text::str_eq(ext, "snmprec.bz2") {
        Some(RecordKind::CompressedSnmprec)
    } else if crate::text::str_eq(ext, "snmpwalk") {
        Some(RecordKind::Walk)
    } else if crate::text::str_eq(ext, "dump") {
        Some(RecordKind::Dump)
    } else {
        None
    }
}

} // verus!
