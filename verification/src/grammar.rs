//! Grammar parsers for simulation data file formats.
//!
//! Each grammar can parse a specific file format and produce
//! (oid_string, tag_string, value_string) triples.

pub mod dump;
pub mod snmprec;
pub mod walk;

use vstd::prelude::*;

use crate::error::SnmpsimError;
use crate::text::{
    chars_to_utf8, debug_quoted, debug_text, find_char, first_index_of, splitn3, string_from,
    sub_chars, trim, trim_bounds,
};

verus! {

/// Parsing a single line of a simulation data file, and building one.
pub trait Grammar: Sized {
    /// Parse one data record line into (oid, tag, value) strings.
    fn parse(&self, line: &[u8]) -> Result<(String, String, String), SnmpsimError>;

    /// Build a binary record from (oid, tag, value) strings.
    fn build(&self, oid: &str, tag: &str, val: &str) -> Result<Vec<u8>, SnmpsimError>;
}

/// The fields of an `OID|tag|value` record: the trimmed line is split at the
/// first two `|`; OID and tag are trimmed, the value is kept as it is.
/// `None` when the line has fewer than three fields or an empty OID or tag.
pub open spec fn pipe_fields(t: Seq<char>) -> Option<(Seq<char>, Seq<char>, Seq<char>)> {
    let parts = splitn3(trim(t), '|');
    if parts.len() != 3 {
        None
    } else if trim(parts[0]).len() == 0 || trim(parts[1]).len() == 0 {
        None
    } else {
        Some((trim(parts[0]), trim(parts[1]), parts[2]))
    }
}

/// The line `oid|tag|value\n`.
pub open spec fn pipe_line(oid: Seq<char>, tag: Seq<char>, val: Seq<char>) -> Seq<char> {
    oid + seq!['|'] + tag + seq!['|'] + val + seq!['\n']
}

/// Splits at the first two occurrences of `sep` (as `splitn(3, sep)`).
pub fn split3(t: &[char], sep: char) -> (r: Vec<Vec<char>>)
    ensures
        r@.len() == splitn3(t@, sep).len(),
        forall|i: int| 0 <= i < r@.len() ==> #[trigger] r@[i]@ == splitn3(t@, sep)[i],
{
    match find_char(t, sep) {
        None => {
            let mut r: Vec<Vec<char>> = Vec::new();
            r.push(sub_chars(t, 0, t.len()));
            assert(t@.subrange(0, t@.len() as int) =~= t@);
            r
        },
        Some(i) => {
            let n = t.len();
            assert(i < n);
            let rest = sub_chars(t, i + 1, n);
            match find_char(rest.as_slice(), sep) {
                None => {
                    let mut r: Vec<Vec<char>> = Vec::new();
                    r.push(sub_chars(t, 0, i));
                    r.push(rest);
                    r
                },
                Some(j) => {
                    let mut r: Vec<Vec<char>> = Vec::new();
                    r.push(sub_chars(t, 0, i));
                    r.push(sub_chars(rest.as_slice(), 0, j));
                    r.push(sub_chars(rest.as_slice(), j + 1, rest.len()));
                    r
                },
            }
        },
    }
}

/// The outcome of splitting a decoded line into `OID|tag|value`.
pub enum FieldSplit {
    /// Fewer than three fields.
    Broken,
    /// The OID or the tag is empty after trimming.
    EmptyField,
    /// OID, tag and value.
    Fields(Vec<char>, Vec<char>, Vec<char>),
}

/// Splits a decoded line into its three fields; also returns the trimmed line.
pub fn split_pipe_fields(cs: &[char]) -> (r: (Vec<char>, FieldSplit))
    ensures
        r.0@ == trim(cs@),
        r.1 is Broken <==> splitn3(trim(cs@), '|').len() != 3,
        r.1 is EmptyField ==> splitn3(trim(cs@), '|').len() == 3 && pipe_fields(cs@) is None,
        r.1 matches FieldSplit::Fields(o, t, v) ==> pipe_fields(cs@) == Some(
            (o@, t@, v@),
        ),
        !(r.1 is Fields) ==> pipe_fields(cs@) is None,
{
    let (lo, hi) = trim_bounds(cs);
    let line = sub_chars(cs, lo, hi);
    let parts = split3(line.as_slice(), '|');
    if parts.len() != 3 {
        return (line, FieldSplit::Broken);
    }
    let oid = crate::text::trim_chars(parts[0].as_slice());
    let tag = crate::text::trim_chars(parts[1].as_slice());
    if oid.len() == 0 || tag.len() == 0 {
        return (line, FieldSplit::EmptyField);
    }
    let val = crate::text::copy_chars(parts[2].as_slice());
    (line, FieldSplit::Fields(oid, tag, val))
}

/// Builds `oid|tag|val\n` as UTF-8 bytes.
pub fn pipe_record(oid: &str, tag: &str, val: &str) -> (r: Vec<u8>)
    ensures
        r@ == vstd::utf8::encode_utf8(pipe_line(oid@, tag@, val@)),
{
    let mut line: Vec<char> = Vec::new();
    crate::text::append_str(&mut line, oid);
    line.push('|');
    crate::text::append_str(&mut line, tag);
    line.push('|');
    crate::text::append_str(&mut line, val);
    line.push('\n');
    assert(line@ =~= pipe_line(oid@, tag@, val@));
    chars_to_utf8(line.as_slice())
}

/// "Empty OID/tag: <oid/tag>"
pub open spec fn empty_oid_tag_text(oid: Seq<char>, tag: Seq<char>) -> Seq<char> {
    "Empty OID/tag: <"@ + oid + "/"@ + tag + ">"@
}

pub fn empty_oid_tag_error(oid: &str, tag: &str) -> (e: SnmpsimError)
    ensures
        e matches SnmpsimError::Parse(m) && m@ == empty_oid_tag_text(oid@, tag@),
{
    let mut m: Vec<char> = Vec::new();
    crate::text::append_str(&mut m, "Empty OID/tag: <");
    crate::text::append_str(&mut m, oid);
    crate::text::append_str(&mut m, "/");
    crate::text::append_str(&mut m, tag);
    crate::text::append_str(&mut m, ">");
    assert(m@ =~= empty_oid_tag_text(oid@, tag@));
    SnmpsimError::Parse(string_from(m.as_slice()))
}

/// A parse error whose message is `prefix` followed by the debug form of `t`.
pub fn quoted_error(prefix: &str, t: &[char]) -> (e: SnmpsimError)
    ensures
        e matches SnmpsimError::Parse(m) && m@ == prefix@ + debug_text(t@),
{
    let s = string_from(t);
    let q = debug_quoted(s.as_str());
    let mut m: Vec<char> = Vec::new();
    crate::text::append_str(&mut m, prefix);
    crate::text::append_str(&mut m, q.as_str());
    assert(Seq::<char>::empty() + prefix@ + q@ =~= prefix@ + debug_text(t@));
    SnmpsimError::Parse(string_from(m.as_slice()))
}

/// A parse error `"Non-UTF8 line: "` followed by the decoder's message.
pub fn non_utf8_error(detail: &str) -> (e: SnmpsimError)
    ensures
        e matches SnmpsimError::Parse(m) && m@ == "Non-UTF8 line: "@ + detail@,
{
    let mut m: Vec<char> = Vec::new();
    crate::text::append_str(&mut m, "Non-UTF8 line: ");
    crate::text::append_str(&mut m, detail);
    assert(m@ =~= "Non-UTF8 line: "@ + detail@);
    SnmpsimError::Parse(string_from(m.as_slice()))
}

/// The message of the parse error for a `|`-separated line that is refused:
/// the decoder's message for bytes that are not UTF-8, else `broken` for a
/// line without three fields or `empty` for one with an empty OID or tag,
/// followed by the trimmed line quoted.
pub open spec fn pipe_refusal(line: Seq<u8>, broken: Seq<char>, empty: Seq<char>) -> Seq<char> {
    match crate::text::utf8_text(line) {
        None => "Non-UTF8 line: "@ + crate::text::utf8_error_text(line),
        Some(t) => (if splitn3(trim(t), '|').len() != 3 {
            broken
        } else {
            empty
        }) + debug_text(trim(t)),
    }
}

} // verus!
