//! Grammar for .dump file format (legacy SNMP dump format).
//!
//! The format is the one of .snmprec: `OID|tag|value`.

use vstd::prelude::*;

use crate::error::SnmpsimError;
use crate::grammar::{
    empty_oid_tag_error, empty_oid_tag_text, non_utf8_error, pipe_line, pipe_record,
    quoted_error, split_pipe_fields, FieldSplit, Grammar,
};
use crate::grammar::snmprec::snmprec_parse;
use crate::text::{debug_text, trim, utf8_text};

verus! {

/// The message of the parse error for a line that the grammar refuses.
pub open spec fn dump_refusal(line: Seq<u8>) -> Seq<char> {
    crate::grammar::pipe_refusal(line, "Broken .dump record: "@, "Empty OID or tag in .dump record: "@)
}

/// Grammar for .dump format files.
pub struct DumpGrammar;

impl Default for DumpGrammar {
    fn default() -> (r: DumpGrammar)
        ensures
            r == DumpGrammar,
    {
        DumpGrammar::new()
    }
}

impl DumpGrammar {
    pub fn new() -> (r: DumpGrammar) {
        DumpGrammar
    }
}

impl Grammar for DumpGrammar {
    /// Parse a .dump line into (oid, tag, value): the same fields as .snmprec.
    fn parse(&self, line: &[u8]) -> (r: Result<(String, String, String), SnmpsimError>)
        ensures
            r is Ok <==> snmprec_parse(line@) is Some,
            r matches Ok(f) ==> snmprec_parse(line@) == Some((f.0@, f.1@, f.2@)),
            r matches Err(e) ==> (e matches SnmpsimError::Parse(m) && m@ == dump_refusal(line@)),
    {
        let cs = match crate::text::decode_line(line) {
            Ok(v) => v,
            Err(detail) => {
                return Err(non_utf8_error(detail.as_str()));
            },
        };
        let (trimmed, fields) = split_pipe_fields(cs.as_slice());
        match fields {
            FieldSplit::Broken => Err(quoted_error("Broken .dump record: ", trimmed.as_slice())),
            FieldSplit::EmptyField => Err(
                quoted_error("Empty OID or tag in .dump record: ", trimmed.as_slice()),
            ),
            FieldSplit::Fields(oid, tag, value) => Ok(
                (
                    crate::text::string_from(oid.as_slice()),
                    crate::text::string_from(tag.as_slice()),
                    crate::text::string_from(value.as_slice()),
                ),
            ),
        }
    }

    /// Build a .dump record line from (oid, tag, value).
    fn build(&self, oid: &str, tag: &str, val: &str) -> (r: Result<Vec<u8>, SnmpsimError>)
        ensures
            r is Ok <==> oid@.len() > 0 && tag@.len() > 0,
            r matches Ok(b) ==> b@ == vstd::utf8::encode_utf8(pipe_line(oid@, tag@, val@)),
            r matches Err(e) ==> (e matches SnmpsimError::Parse(m) && m@ == empty_oid_tag_text(
                oid@,
                tag@,
            )),
    {
        if oid.is_empty() || tag.is_empty() {
            return Err(empty_oid_tag_error(oid, tag));
        }
        Ok(pipe_record(oid, tag, val))
    }
}

} // verus!
