//! Grammar for the .snmprec file format.
//!
//! Format: OID|tag|value
//! - OID: dotted decimal string, e.g. "1.3.6.1.2.1.1.1.0"
//! - tag: numeric string corresponding to SNMP type, optionally followed by
//!        'x' (hex-encoded) or 'e' (escaped), and optionally followed by
//!        ':module_name' for variation module references.
//! - value: string representation of the value

use vstd::prelude::*;
use vstd::string::StrSliceExecFns;

use crate::error::SnmpsimError;
use crate::grammar::{
    empty_oid_tag_error, empty_oid_tag_text, non_utf8_error, pipe_fields, pipe_line, pipe_record,
    quoted_error, split_pipe_fields, FieldSplit, Grammar,
};
use crate::oid::int_error_text;
use crate::text::{debug_text, first_index_of, parse_int, trim, utf8_text, IntErrorKind};

verus! {

/// The message of the parse error for a line that the grammar refuses.
pub open spec fn snmprec_refusal(line: Seq<u8>) -> Seq<char> {
    crate::grammar::pipe_refusal(line, "Broken .snmprec record: expected OID|tag|value, got "@, "Empty OID or tag in record: "@)
}

/// Grammar for .snmprec format files.
pub struct SnmprecGrammar;

/// The tag without its encoding suffix, and the suffix (`x` or `e`).
pub open spec fn spec_unpack_tag(t: Seq<char>) -> (Seq<char>, Option<char>) {
    if t.len() > 0 && t.last() == 'x' {
        (t.drop_last(), Some('x'))
    } else if t.len() > 0 && t.last() == 'e' {
        (t.drop_last(), Some('e'))
    } else {
        (t, None)
    }
}

/// The tag before the first `:`, and the module name after it.
pub open spec fn spec_split_module(t: Seq<char>) -> (Seq<char>, Option<Seq<char>>) {
    match first_index_of(t, ':') {
        Some(i) => (t.subrange(0, i), Some(t.subrange(i + 1, t.len() as int))),
        None => (t, None),
    }
}

/// `b` placed before a successful result; errors pass through.
pub open spec fn prepend_byte(b: u8, r: Result<Seq<u8>, Seq<char>>) -> Result<Seq<u8>, Seq<char>> {
    match r {
        Ok(v) => Ok(seq![b] + v),
        Err(e) => Err(e),
    }
}

/// The byte a simple escape letter stands for.
pub open spec fn simple_escape(c: char) -> Option<u8> {
    if c == '\\' {
        Some(0x5C)
    } else if c == '\'' {
        Some(0x27)
    } else if c == '"' {
        Some(0x22)
    } else if c == 'a' {
        Some(0x07)
    } else if c == 'b' {
        Some(0x08)
    } else if c == 'f' {
        Some(0x0C)
    } else if c == 'n' {
        Some(0x0A)
    } else if c == 'r' {
        Some(0x0D)
    } else if c == 't' {
        Some(0x09)
    } else if c == 'v' {
        Some(0x0B)
    } else {
        None
    }
}

/// What evaluating an escaped string gives: each plain character as its low
/// byte, each escape as the byte it names, or the message of the first bad
/// escape.
pub open spec fn unescape(s: Seq<char>) -> Result<Seq<u8>, Seq<char>>
    decreases s.len(),
{
    if s.len() == 0 {
        Ok(Seq::<u8>::empty())
    } else if s[0] != '\\' {
        prepend_byte(s[0] as u8, unescape(s.drop_first()))
    } else if s.len() == 1 {
        Err("Trailing backslash in escaped string"@)
    } else {
        let c = s[1];
        match simple_escape(c) {
            Some(b) => prepend_byte(b, unescape(s.skip(2))),
            None => if c == 'x' {
                if s.len() < 4 {
                    Err("Truncated \\x escape"@)
                } else {
                    match parse_int(seq![s[2], s[3]], 16, 0, 255) {
                        Err(k) => Err("Invalid \\x escape: "@ + int_error_text(k)),
                        Ok(b) => prepend_byte(b as u8, unescape(s.skip(4))),
                    }
                }
            } else {
                Err("Unknown escape character: "@ + seq![c])
            },
        }
    }
}

/// What parsing a .snmprec line gives, or `None` when it is refused.
pub open spec fn snmprec_parse(line: Seq<u8>) -> Option<(Seq<char>, Seq<char>, Seq<char>)> {
    match utf8_text(line) {
        None => None,
        Some(t) => pipe_fields(t),
    }
}

fn simple_escape_exec(c: char) -> (r: Option<u8>)
    ensures
        r == simple_escape(c),
{
    if c == '\\' {
        Some(0x5C)
    } else if c == '\'' {
        Some(0x27)
    } else if c == '"' {
        Some(0x22)
    } else if c == 'a' {
        Some(0x07)
    } else if c == 'b' {
        Some(0x08)
    } else if c == 'f' {
        Some(0x0C)
    } else if c == 'n' {
        Some(0x0A)
    } else if c == 'r' {
        Some(0x0D)
    } else if c == 't' {
        Some(0x09)
    } else if c == 'v' {
        Some(0x0B)
    } else {
        None
    }
}

/// `out` placed before a result: errors pass through.
pub open spec fn prefix_bytes(out: Seq<u8>, r: Result<Seq<u8>, Seq<char>>) -> Result<
    Seq<u8>,
    Seq<char>,
> {
    match r {
        Ok(v) => Ok(out + v),
        Err(e) => Err(e),
    }
}

/// Prepending a byte to a result and then prefixing it is prefixing with the
/// byte appended.
pub proof fn lemma_prefix_push(out: Seq<u8>, b: u8, r: Result<Seq<u8>, Seq<char>>)
    ensures
        prefix_bytes(out, prepend_byte(b, r)) == prefix_bytes(out.push(b), r),
{
    if let Ok(v) = r {
        assert(out + (seq![b] + v) =~= out.push(b) + v);
    }
}

impl Default for SnmprecGrammar {
    fn default() -> (r: SnmprecGrammar)
        ensures
            r == SnmprecGrammar,
    {
        SnmprecGrammar::new()
    }
}

impl SnmprecGrammar {
    pub fn new() -> (r: SnmprecGrammar) {
        SnmprecGrammar
    }

    /// Unpack the encoding suffix from a tag string.
    /// Returns `(base_tag, encoding)` where encoding is `Some('x')`, `Some('e')` or `None`.
    pub fn unpack_tag(tag: &str) -> (r: (&str, Option<char>))
        ensures
            (r.0@, r.1) == spec_unpack_tag(tag@),
    {
        let n = tag.unicode_len();
        if n > 0 && tag.get_char(n - 1) == 'x' {
            (tag.substring_char(0, n - 1), Some('x'))
        } else if n > 0 && tag.get_char(n - 1) == 'e' {
            (tag.substring_char(0, n - 1), Some('e'))
        } else {
            (tag, None)
        }
    }

    /// Split a tag into (type_tag, module_name) for variation module support.
    /// For "4:redis" returns ("4", Some("redis")).
    /// For "4x:delay" returns ("4x", Some("delay")).
    pub fn split_module(tag: &str) -> (r: (&str, Option<&str>))
        ensures
            r.0@ == spec_split_module(tag@).0,
            r.1 is Some <==> spec_split_module(tag@).1 is Some,
            r.1 matches Some(m) ==> spec_split_module(tag@).1 == Some(m@),
    {
        let cs = crate::text::chars_of(tag);
        let n = cs.len();
        match crate::text::find_char(cs.as_slice(), ':') {
            Some(i) => (tag.substring_char(0, i), Some(tag.substring_char(i + 1, n))),
            None => (tag, None),
        }
    }

    /// Evaluate an escaped string: backslash escapes such as `\n`, `\t` and
    /// `\xHH` give the bytes they name (see [`unescape`]).
    pub fn evaluate_escaped(s: &str) -> (r: Result<Vec<u8>, SnmpsimError>)
        ensures
            r matches Ok(v) ==> unescape(s@) == Ok::<Seq<u8>, Seq<char>>(v@),
            r matches Err(e) ==> (unescape(s@) is Err && (e matches SnmpsimError::Parse(m) && m@
                == unescape(s@)->Err_0)),
    {
        let cs = crate::text::chars_of(s);
        let mut out: Vec<u8> = Vec::new();
        let mut i: usize = 0;
        assert(cs@.skip(0) =~= cs@);
        assert(Seq::<u8>::empty() + Seq::<u8>::empty() =~= Seq::<u8>::empty());
        while i < cs.len()
            invariant
                i <= cs@.len(),
                cs@ == s@,
                unescape(s@) == prefix_bytes(out@, unescape(cs@.skip(i as int))),
            decreases cs@.len() - i,
        {
            let ghost rest = cs@.skip(i as int);
            assert(rest[0] == cs@[i as int]);
            let c = cs[i];
            if c != '\\' {
                proof {
                    assert(rest.drop_first() =~= cs@.skip(i + 1));
                    lemma_prefix_push(out@, c as u8, unescape(cs@.skip(i + 1)));
                }
                out.push(c as u8);
                i += 1;
            } else {
                if i + 1 >= cs.len() {
                    let mut m: Vec<char> = Vec::new();
                    crate::text::append_str(&mut m, "Trailing backslash in escaped string");
                    assert(Seq::<char>::empty() + "Trailing backslash in escaped string"@
                        =~= "Trailing backslash in escaped string"@);
                    return Err(SnmpsimError::Parse(crate::text::string_from(m.as_slice())));
                }
                let e = cs[i + 1];
                assert(rest[1] == e);
                match simple_escape_exec(e) {
                    Some(b) => {
                        proof {
                            assert(rest.skip(2) =~= cs@.skip(i + 2));
                            lemma_prefix_push(out@, b, unescape(cs@.skip(i + 2)));
                        }
                        out.push(b);
                        i += 2;
                    },
                    None => {
                        if e == 'x' {
                            if cs.len() - i < 4 {
                                let mut m: Vec<char> = Vec::new();
                                crate::text::append_str(&mut m, "Truncated \\x escape");
                                assert(Seq::<char>::empty() + "Truncated \\x escape"@
                                    =~= "Truncated \\x escape"@);
                                return Err(
                                    SnmpsimError::Parse(crate::text::string_from(m.as_slice())),
                                );
                            }
                            let hex = vec![cs[i + 2], cs[i + 3]];
                            assert(hex@ =~= seq![rest[2], rest[3]]);
                            match crate::text::parse_unsigned(hex.as_slice(), 16, 255) {
                                Ok(v) => {
                                    proof {
                                        crate::text::lemma_parse_int_unsigned_bound(
                                            hex@,
                                            16,
                                            255,
                                        );
                                        assert(rest.skip(4) =~= cs@.skip(i + 4));
                                        lemma_prefix_push(
                                            out@,
                                            v as u8,
                                            unescape(cs@.skip(i + 4)),
                                        );
                                    }
                                    out.push(v as u8);
                                    i += 4;
                                },
                                Err(k) => {
                                    let mut m: Vec<char> = Vec::new();
                                    crate::text::append_str(&mut m, "Invalid \\x escape: ");
                                    crate::text::append_str(
                                        &mut m,
                                        crate::oid::int_error_message(k),
                                    );
                                    assert(m@ =~= "Invalid \\x escape: "@ + int_error_text(k));
                                    return Err(
                                        SnmpsimError::Parse(crate::text::string_from(m.as_slice())),
                                    );
                                },
                            }
                        } else {
                            let mut m: Vec<char> = Vec::new();
                            crate::text::append_str(&mut m, "Unknown escape character: ");
                            m.push(e);
                            assert(m@ =~= "Unknown escape character: "@ + seq![e]);
                            return Err(SnmpsimError::Parse(crate::text::string_from(m.as_slice())));
                        }
                    },
                }
            }
        }
        assert(cs@.skip(i as int) =~= Seq::<char>::empty());
        assert(out@ + Seq::<u8>::empty() =~= out@);
        Ok(out)
    }
}

impl Grammar for SnmprecGrammar {
    /// Parse a .snmprec line into (oid, tag, value) strings.
    fn parse(&self, line: &[u8]) -> (r: Result<(String, String, String), SnmpsimError>)
        ensures
            r is Ok <==> snmprec_parse(line@) is Some,
            r matches Ok(f) ==> snmprec_parse(line@) == Some((f.0@, f.1@, f.2@)),
            r matches Err(e) ==> (e matches SnmpsimError::Parse(m) && m@ == snmprec_refusal(line@)),
    {
        let cs = match crate::text::decode_line(line) {
            Ok(v) => v,
            Err(detail) => {
                return Err(non_utf8_error(detail.as_str()));
            },
        };
        let (trimmed, fields) = split_pipe_fields(cs.as_slice());
        match fields {
            FieldSplit::Broken => Err(
                quoted_error(
                    "Broken .snmprec record: expected OID|tag|value, got ",
                    trimmed.as_slice(),
                ),
            ),
            FieldSplit::EmptyField => Err(
                quoted_error("Empty OID or tag in record: ", trimmed.as_slice()),
            ),
            FieldSplit::Fields(oid, tag, value) => Ok(
                (
                    crate::text::string_from(oid.as_slice()),
                    crate::text::string_from(tag.as_slice()),
                    crate::text::string_from(value.as_slice()),
                ),
            ),
        }
    }

    /// Build a .snmprec record line from (oid, tag, value).
    fn build(&self, oid: &str, tag: &str, val: &str) -> (r: Result<Vec<u8>, SnmpsimError>)
        ensures
            r is Ok <==> oid@.len() > 0 && tag@.len() > 0,
            r matches Ok(b) ==> b@ == vstd::utf8::encode_utf8(pipe_line(oid@, tag@, val@)),
            r matches Err(e) ==> (e matches SnmpsimError::Parse(m) && m@ == empty_oid_tag_text(
                oid@,
                tag@,
            )),
    {
        if oid.is_empty() || tag.is_empty() {
            return Err(empty_oid_tag_error(oid, tag));
        }
        Ok(pipe_record(oid, tag, val))
    }
}

// ─── Laws ────────────────────────────────────────────────────────────────────

proof fn lemma_split_built(oid: Seq<char>, tag: Seq<char>, val: Seq<char>)
    requires
        !oid.contains('|'),
        !tag.contains('|'),
    ensures
        crate::text::splitn3(oid + seq!['|'] + tag + seq!['|'] + val, '|') == seq![oid, tag, val],
{
    let x = oid + seq!['|'] + tag + seq!['|'] + val;
    let n = oid.len() as int;
    assert forall|j: int| 0 <= j < n implies x[j] != '|' by {
        assert(x[j] == oid[j]);
        if oid[j] == '|' {
            assert(oid.contains('|'));
        }
    }
    crate::text::lemma_first_index_of_unique(x, '|', n);
    let rest = x.subrange(n + 1, x.len() as int);
    assert(rest =~= tag + seq!['|'] + val);
    let m = tag.len() as int;
    assert forall|j: int| 0 <= j < m implies rest[j] != '|' by {
        assert(rest[j] == tag[j]);
        if tag[j] == '|' {
            assert(tag.contains('|'));
        }
    }
    crate::text::lemma_first_index_of_unique(rest, '|', m);
    assert(x.subrange(0, n) =~= oid);
    assert(rest.subrange(0, m) =~= tag);
    assert(rest.subrange(m + 1, rest.len() as int) =~= val);
}

/// Reading back what `build` writes gives its fields: for an OID and a tag
/// that are non-empty, carry no surrounding whitespace and no `|`, and a
/// value without trailing whitespace, the .snmprec (and .dump) parse of
/// `oid|tag|val\n` is `(oid, tag, val)`.
pub proof fn lemma_build_parse_roundtrip(oid: Seq<char>, tag: Seq<char>, val: Seq<char>)
    requires
        oid.len() > 0,
        tag.len() > 0,
        trim(oid) == oid,
        trim(tag) == tag,
        !oid.contains('|'),
        !tag.contains('|'),
        crate::text::trim_end(val) == val,
    ensures
        snmprec_parse(vstd::utf8::encode_utf8(pipe_line(oid, tag, val))) == Some((oid, tag, val)),
{
    let line = pipe_line(oid, tag, val);
    let x = oid + seq!['|'] + tag + seq!['|'] + val;
    vstd::utf8::encode_utf8_valid_utf8(line);
    vstd::utf8::encode_utf8_decode_utf8(line);
    assert(utf8_text(vstd::utf8::encode_utf8(line)) == Some(line));
    crate::text::lemma_trimmed_ends(oid);
    crate::text::lemma_trimmed_ends(tag);
    // x starts with the OID and ends with the value, or with `|` when the value is empty.
    assert(x[0] == oid[0]);
    if val.len() > 0 {
        crate::text::lemma_trim_len(val);
        assert(x.last() == val.last());
    } else {
        assert(x.last() == '|');
    }
    assert(line =~= x.push('\n'));
    assert(line[0] == x[0]);
    assert(crate::text::trim_start(line) == line);
    assert(line.drop_last() =~= x);
    assert(crate::text::trim_end(line) == crate::text::trim_end(x));
    crate::text::lemma_trim_fixed(x);
    assert(crate::text::trim_start(x) == x);
    assert(trim(line) == x);
    lemma_split_built(oid, tag, val);
}

} // verus!
