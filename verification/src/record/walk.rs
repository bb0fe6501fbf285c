//! Record implementation for .snmpwalk format files.

use vstd::prelude::*;

use crate::error::SnmpsimError;
use crate::grammar::walk::{walk_parse, WalkGrammar};
use crate::grammar::Grammar;
use crate::oid::{oid_error_text, oid_parse, oid_text, Oid};
use crate::record::snmprec::{
    fresh_state, line_outcome, spec_evaluate_line, spec_evaluate_value, spec_format_value,
    value_outcome, EvalState, SnmprecRecord,
};
use crate::record::{EvalContext, EvalFlags};
use crate::snmp_value::{SnmpValue, SpecValue};
use crate::text::IntErrorKind;
use crate::variation::clamp_delay;

verus! {

/// The fields of a walk line, when it parses.
pub open spec fn walk_fields_of(line: Seq<u8>) -> Option<(Seq<char>, Seq<char>, Seq<char>)> {
    match walk_parse(line) {
        Ok(f) => Some(f),
        Err(_) => None,
    }
}

/// The message of the parse error for a line that the walk grammar refuses.
pub open spec fn walk_refusal(line: Seq<u8>) -> Seq<char> {
    match walk_parse(line) {
        Err(m) => m,
        Ok(_) => Seq::empty(),
    }
}

/// Record handler for .snmpwalk files: parsing uses the walk grammar, value
/// evaluation is that of .snmprec records.
pub struct WalkRecord {
    grammar: WalkGrammar,
    snmprec: SnmprecRecord,
}

impl Default for WalkRecord {
    fn default() -> (r: WalkRecord)
        ensures
            r.wf(),
            r.cache() == fresh_state(),
            r.pending_delay() == 0,
    {
        WalkRecord::new()
    }
}

impl WalkRecord {
    /// Every built-in variation module is registered.
    pub closed spec fn wf(&self) -> bool {
        self.snmprec.wf()
    }

    /// The values that the writecache module holds, by OID.
    pub closed spec fn cache(&self) -> EvalState {
        self.snmprec.cache()
    }

    /// The delay (ms) asked for by delay modules since it was last taken.
    pub closed spec fn pending_delay(&self) -> u64 {
        self.snmprec.pending_delay()
    }

    pub fn new() -> (r: WalkRecord)
        ensures
            r.wf(),
            r.cache() == fresh_state(),
            r.pending_delay() == 0,
    {
        WalkRecord { grammar: WalkGrammar::new(), snmprec: SnmprecRecord::new() }
    }

    /// The grammar that reads this record type's lines.
    pub fn grammar(&self) -> (r: &WalkGrammar) {
        &self.grammar
    }

    /// The file extension of this record type (without leading dot).
    pub fn extension(&self) -> (r: &'static str)
        ensures
            r@ == "snmpwalk"@,
    {
        "snmpwalk"
    }

    /// Returns the delay asked for since the last call, and forgets it.
    pub fn take_delay(&mut self) -> (r: u64)
        ensures
            r == old(self).pending_delay(),
            final(self).pending_delay() == 0,
            final(self).wf() == old(self).wf(),
            final(self).cache() == old(self).cache(),
    {
        self.snmprec.take_delay()
    }

    /// Parse an OID string into a typed Oid.
    pub fn evaluate_oid(&self, oid_str: &str) -> (r: Result<Oid, SnmpsimError>)
        ensures
            r matches Ok(o) ==> oid_parse(oid_str@) == Ok::<Seq<u32>, IntErrorKind>(o@),
            r matches Err(e) ==> (oid_parse(oid_str@) is Err && (e matches SnmpsimError::Parse(m)
                && m@ == oid_error_text(oid_str@, oid_parse(oid_str@)->Err_0))),
    {
        Oid::parse_str(oid_str)
    }

    /// Parse a (tag, value) string pair into a typed SnmpValue, as .snmprec does.
    pub fn evaluate_value(
        &mut self,
        oid: &Oid,
        tag: &str,
        value_str: &str,
        ctx: &EvalContext,
    ) -> (r: Result<SnmpValue, SnmpsimError>)
        requires
            old(self).wf(),
        ensures
            final(self).wf(),
            ({
                let (s, c, d) = spec_evaluate_value(old(self).cache(), oid@, tag@, value_str@, ctx.flags());
                value_outcome(r, s) && final(self).cache() == c && (r is Ok ==> final(self).pending_delay()
                    == clamp_delay((old(self).pending_delay() + d) as nat)) && (r is Err
                    ==> final(self).pending_delay() == old(self).pending_delay())
            }),
    {
        self.snmprec.evaluate_value(oid, tag, value_str, ctx)
    }

    /// Parse a full data file line into (Oid, SnmpValue).
    pub fn evaluate(&mut self, line: &[u8], ctx: &EvalContext) -> (r: Result<
        (Oid, Option<SnmpValue>),
        SnmpsimError,
    >)
        requires
            old(self).wf(),
        ensures
            final(self).wf(),
            line_outcome(
                r,
                spec_evaluate_line(old(self).cache(), walk_fields_of(line@), ctx.flags()),
                walk_refusal(line@),
            ),
            match spec_evaluate_line(old(self).cache(), walk_fields_of(line@), ctx.flags()) {
                Some((s, c, d)) => final(self).cache() == c && (s is Ok ==> final(self).pending_delay()
                    == clamp_delay((old(self).pending_delay() + d) as nat)),
                None => final(self).cache() == old(self).cache(),
            },
            r is Err ==> final(self).pending_delay() == old(self).pending_delay(),
    {
        let (oid_str, tag, value_str) = match self.grammar.parse(line) {
            Ok(f) => f,
            Err(e) => {
                return Err(e);
            },
        };
        let oid = match self.evaluate_oid(oid_str.as_str()) {
            Ok(o) => o,
            Err(e) => {
                return Err(e);
            },
        };
        if ctx.oid_only {
            return Ok((oid, None));
        }
        match self.evaluate_value(&oid, tag.as_str(), value_str.as_str(), ctx) {
            Ok(v) => Ok((oid, Some(v))),
            Err(e) => Err(e),
        }
    }

    /// Format an OID for output.
    pub fn format_oid(&self, oid: &Oid) -> (r: String)
        ensures
            r@ == oid_text(oid@),
    {
        oid.to_dotted_string()
    }

    /// The (oid, tag, value) strings of a value, as .snmprec writes them.
    pub fn format_value(&self, oid: &Oid, value: &SnmpValue) -> (r: (String, String, String))
        ensures
            (r.0@, r.1@, r.2@) == spec_format_value(oid@, value@),
    {
        self.snmprec.format_value(oid, value)
    }

    /// Build a record line from (oid, value): the walk grammar cannot build
    /// lines, so this always fails.
    pub fn format(&self, oid: &Oid, value: &SnmpValue) -> (r: Result<Vec<u8>, SnmpsimError>)
        ensures
            r matches Err(e) && (e matches SnmpsimError::Parse(m) && m@
                == "WalkGrammar does not support build; convert to snmprec first"@),
    {
        let (o, t, v) = self.format_value(oid, value);
        self.grammar.build(o.as_str(), t.as_str(), v.as_str())
    }
}

} // verus!
