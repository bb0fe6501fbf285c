//! Record implementation for .dump format files.

use vstd::prelude::*;

use crate::error::SnmpsimError;
use crate::grammar::dump::DumpGrammar;
use crate::grammar::snmprec::snmprec_parse;
use crate::grammar::{empty_oid_tag_text, pipe_line};
use crate::grammar::Grammar;
use crate::oid::{oid_error_text, oid_parse, oid_text, Oid};
use crate::record::snmprec::{
    fresh_state, line_outcome, spec_evaluate_line, spec_evaluate_value, spec_format_value,
    value_outcome, EvalState, SnmprecRecord,
};
use crate::record::{EvalContext, EvalFlags};
use crate::snmp_value::{SnmpValue, SpecValue};
use crate::text::IntErrorKind;
use crate::variation::clamp_delay;

verus! {

/// Record handler for .dump files: lines are `OID|tag|value` as in .snmprec,
/// and values are evaluated as .snmprec does.
pub struct DumpRecord {
    grammar: DumpGrammar,
    snmprec: SnmprecRecord,
}

impl Default for DumpRecord {
    fn default() -> (r: DumpRecord)
        ensures
            r.wf(),
            r.cache() == fresh_state(),
            r.pending_delay() == 0,
    {
        DumpRecord::new()
    }
}

impl DumpRecord {
    /// Every built-in variation module is registered.
    pub closed spec fn wf(&self) -> bool {
        self.snmprec.wf()
    }

    /// The values that the writecache module holds, by OID.
    pub closed spec fn cache(&self) -> EvalState {
        self.snmprec.cache()
    }

    /// The delay (ms) asked for by delay modules since it was last taken.
    pub closed spec fn pending_delay(&self) -> u64 {
        self.snmprec.pending_delay()
    }

    pub fn new() -> (r: DumpRecord)
        ensures
            r.wf(),
            r.cache() == fresh_state(),
            r.pending_delay() == 0,
    {
        DumpRecord { grammar: DumpGrammar::new(), snmprec: SnmprecRecord::new() }
    }

    /// The grammar that reads this record type's lines.
    pub fn grammar(&self) -> (r: &DumpGrammar) {
        &self.grammar
    }

    /// The file extension of this record type (without leading dot).
    pub fn extension(&self) -> (r: &'static str)
        ensures
            r@ == "dump"@,
    {
        "dump"
    }

    /// Returns the delay asked for since the last call, and forgets it.
    pub fn take_delay(&mut self) -> (r: u64)
        ensures
            r == old(self).pending_delay(),
            final(self).pending_delay() == 0,
            final(self).wf() == old(self).wf(),
            final(self).cache() == old(self).cache(),
    {
        self.snmprec.take_delay()
    }

    /// Parse an OID string into a typed Oid.
    pub fn evaluate_oid(&self, oid_str: &str) -> (r: Result<Oid, SnmpsimError>)
        ensures
            r matches Ok(o) ==> oid_parse(oid_str@) == Ok::<Seq<u32>, IntErrorKind>(o@),
            r matches Err(e) ==> (oid_parse(oid_str@) is Err && (e matches SnmpsimError::Parse(m)
                && m@ == oid_error_text(oid_str@, oid_parse(oid_str@)->Err_0))),
    {
        Oid::parse_str(oid_str)
    }

    /// Parse a (tag, value) string pair into a typed SnmpValue, as .snmprec does.
    pub fn evaluate_value(
        &mut self,
        oid: &Oid,
        tag: &str,
        value_str: &str,
        ctx: &EvalContext,
    ) -> (r: Result<SnmpValue, SnmpsimError>)
        requires
            old(self).wf(),
        ensures
            final(self).wf(),
            ({
                let (s, c, d) = spec_evaluate_value(old(self).cache(), oid@, tag@, value_str@, ctx.flags());
                value_outcome(r, s) && final(self).cache() == c && (r is Ok ==> final(self).pending_delay()
                    == clamp_delay((old(self).pending_delay() + d) as nat)) && (r is Err
                    ==> final(self).pending_delay() == old(self).pending_delay())
            }),
    {
        self.snmprec.evaluate_value(oid, tag, value_str, ctx)
    }

    /// Parse a full data file line into (Oid, SnmpValue).
    pub fn evaluate(&mut self, line: &[u8], ctx: &EvalContext) -> (r: Result<
        (Oid, Option<SnmpValue>),
        SnmpsimError,
    >)
        requires
            old(self).wf(),
        ensures
            final(self).wf(),
            line_outcome(
                r,
                spec_evaluate_line(old(self).cache(), snmprec_parse(line@), ctx.flags()),
                crate::grammar::dump::dump_refusal(line@),
            ),
            match spec_evaluate_line(old(self).cache(), snmprec_parse(line@), ctx.flags()) {
                Some((s, c, d)) => final(self).cache() == c && (s is Ok ==> final(self).pending_delay()
                    == clamp_delay((old(self).pending_delay() + d) as nat)),
                None => final(self).cache() == old(self).cache(),
            },
            r is Err ==> final(self).pending_delay() == old(self).pending_delay(),
    {
        let (oid_str, tag, value_str) = match self.grammar.parse(line) {
            Ok(f) => f,
            Err(e) => {
                return Err(e);
            },
        };
        let oid = match self.evaluate_oid(oid_str.as_str()) {
            Ok(o) => o,
            Err(e) => {
                return Err(e);
            },
        };
        if ctx.oid_only {
            return Ok((oid, None));
        }
        match self.evaluate_value(&oid, tag.as_str(), value_str.as_str(), ctx) {
            Ok(v) => Ok((oid, Some(v))),
            Err(e) => Err(e),
        }
    }

    /// Format an OID for output.
    pub fn format_oid(&self, oid: &Oid) -> (r: String)
        ensures
            r@ == oid_text(oid@),
    {
        oid.to_dotted_string()
    }

    /// The (oid, tag, value) strings of a value, as .snmprec writes them.
    pub fn format_value(&self, oid: &Oid, value: &SnmpValue) -> (r: (String, String, String))
        ensures
            (r.0@, r.1@, r.2@) == spec_format_value(oid@, value@),
    {
        self.snmprec.format_value(oid, value)
    }

    /// Build a record line from (oid, value).
    pub fn format(&self, oid: &Oid, value: &SnmpValue) -> (r: Result<Vec<u8>, SnmpsimError>)
        ensures
            ({
                let (o, t, v) = spec_format_value(oid@, value@);
                &&& r is Ok <==> o.len() > 0
                &&& r matches Ok(b) ==> b@ == vstd::utf8::encode_utf8(pipe_line(o, t, v))
                &&& r matches Err(e) ==> (e matches SnmpsimError::Parse(m) && m@
                    == empty_oid_tag_text(o, t))
            }),
    {
        let (o, t, v) = self.format_value(oid, value);
        proof {
            crate::snmp_value::lemma_snmprec_tag_nonempty(value@);
        }
        self.grammar.build(o.as_str(), t.as_str(), v.as_str())
    }
}

} // verus!
