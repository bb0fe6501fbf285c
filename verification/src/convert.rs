//! Conversion of simulation data files from one format to another, line by
//! line, with an optional OID range.

use vstd::prelude::*;

use crate::error::SnmpsimError;
use crate::oid::{oid_lt, Oid, OidOrdering};
use crate::record::snmprec::spec_format_value;
use crate::record::{eval_step, record_fields, EvalContext, EvalFlags, RecordHandler, RecordKind};
use crate::record::snmprec::spec_evaluate_line;
use crate::snmp_value::SnmpValue;
use crate::text::{chars_of, chars_to_utf8, ends_with, trim, trim_chars};
use crate::variation::error_is;

verus! {

/// The formats that data files are converted from and to.
#[derive(Clone, Copy, Debug, PartialEq, Eq)]
pub enum Format {
    Snmprec,
    Walk,
    Dump,
}

/// The file extension written for a format.
pub open spec fn format_extension(f: Format) -> Seq<char> {
    match f {
        Format::Snmprec => "snmprec"@,
        Format::Walk => "walk"@,
        Format::Dump => "dump"@,
    }
}

/// The record handler kind that reads and writes a format.
pub open spec fn format_kind(f: Format) -> RecordKind {
    match f {
        Format::Snmprec => RecordKind::Snmprec,
        Format::Walk => RecordKind::Walk,
        Format::Dump => RecordKind::Dump,
    }
}

impl Format {
    /// The file extension of the format (without leading dot).
    pub fn extension(&self) -> (r: &'static str)
        ensures
            r@ == format_extension(*self),
    {
        match self {
            Format::Snmprec => "snmprec",
            Format::Walk => "walk",
            Format::Dump => "dump",
        }
    }

    /// The record handler kind of the format.
    pub fn kind(&self) -> (r: RecordKind)
        ensures
            r == format_kind(*self),
    {
        match self {
            Format::Snmprec => RecordKind::Snmprec,
            Format::Walk => RecordKind::Walk,
            Format::Dump => RecordKind::Dump,
        }
    }
}

/// The format of an input file, told by its name: `.snmprec` and
/// `.snmprec.bz2` files are .snmprec, `.snmpwalk` and `.walk` files are
/// snmpwalk output, `.dump` files are dumps.
pub open spec fn spec_detect_format(name: Seq<char>) -> Option<Format> {
    if ends_with(name, ".snmprec"@) || ends_with(name, ".snmprec.bz2"@) {
        Some(Format::Snmprec)
    } else if ends_with(name, ".snmpwalk"@) || ends_with(name, ".walk"@) {
        Some(Format::Walk)
    } else if ends_with(name, ".dump"@) {
        Some(Format::Dump)
    } else {
        None
    }
}

fn name_ends_with(name: &[char], suffix: &str) -> (r: bool)
    ensures
        r == ends_with(name@, suffix@),
{
    let s = chars_of(suffix);
    crate::text::has_suffix(name, s.as_slice())
}

/// The format of an input file, from its name (see [`spec_detect_format`]).
pub fn detect_format(name: &str) -> (r: Option<Format>)
    ensures
        r == spec_detect_format(name@),
{
    let n = chars_of(name);
    let n = n.as_slice();
    if name_ends_with(n, ".snmprec") || name_ends_with(n, ".snmprec.bz2") {
        Some(Format::Snmprec)
    } else if name_ends_with(n, ".snmpwalk") || name_ends_with(n, ".walk") {
        Some(Format::Walk)
    } else if name_ends_with(n, ".dump") {
        Some(Format::Dump)
    } else {
        None
    }
}

/// What became of one input line.
pub enum LineOutcome {
    /// A blank or comment line, passed over.
    Blank,
    /// The line in the output format.
    Converted(Vec<u8>),
    /// The line has no value to convert.
    NoValue,
    /// The OID comes before the start of the range.
    BeforeStart,
    /// The OID comes after the end of the range: nothing more is converted.
    PastStop,
    /// The line could not be read.
    ParseError(SnmpsimError),
    /// The record could not be written in the output format.
    FormatError(SnmpsimError),
}

/// A blank line, or one whose first non-blank character is `#`.
pub open spec fn is_blank_line(line: Seq<char>) -> bool {
    trim(line).len() == 0 || trim(line)[0] == '#'
}

/// The bytes that the input handler evaluates for a line.
pub open spec fn line_bytes(line: Seq<char>) -> Seq<u8> {
    vstd::utf8::encode_utf8(line.push('\n'))
}

/// Lines are evaluated as exact matches, without variation flags.
pub open spec fn convert_flags() -> EvalFlags {
    EvalFlags {
        next_flag: false,
        set_flag: false,
        exact_match: true,
        has_orig_oid: false,
        oid_only: false,
    }
}

/// `r` is what converting a record with OID `c` and value `v` gives: it is
/// outside the range, or written by a handler of kind `out`.
pub open spec fn range_outcome(
    r: LineOutcome,
    c: Seq<u32>,
    v: crate::snmp_value::SpecValue,
    start: Option<Seq<u32>>,
    stop: Option<Seq<u32>>,
    out: RecordKind,
) -> bool {
    if start matches Some(s) && oid_lt(c, s) {
        r is BeforeStart
    } else if stop matches Some(t) && oid_lt(t, c) {
        r is PastStop
    } else if out == RecordKind::Walk {
        r matches LineOutcome::FormatError(e) && e matches SnmpsimError::Parse(m) && m@
            == "WalkGrammar does not support build; convert to snmprec first"@
    } else {
        let (o, t, x) = spec_format_value(c, v);
        if o.len() > 0 {
            r matches LineOutcome::Converted(b) && b@ == vstd::utf8::encode_utf8(
                crate::grammar::pipe_line(o, t, x),
            )
        } else {
            r matches LineOutcome::FormatError(e) && e matches SnmpsimError::Parse(m) && m@
                == crate::grammar::empty_oid_tag_text(o, t)
        }
    }
}

/// `r` is what converting a non-blank line gives, when its evaluation is `s`
/// (and `refusal` the message for a line that the grammar refuses).
pub open spec fn convert_outcome(
    r: LineOutcome,
    s: Option<
        (
            Result<(Seq<u32>, Option<crate::snmp_value::SpecValue>), crate::variation::EvalError>,
            crate::record::snmprec::EvalState,
            nat,
        ),
    >,
    start: Option<Seq<u32>>,
    stop: Option<Seq<u32>>,
    out: RecordKind,
    refusal: Seq<char>,
) -> bool {
    match s {
        None => r matches LineOutcome::ParseError(e) && e matches SnmpsimError::Parse(m) && m@
            == refusal,
        Some((Err(e), _, _)) => r matches LineOutcome::ParseError(x) && error_is(x, e),
        Some((Ok((_, None)), _, _)) => r is NoValue,
        Some((Ok((c, Some(v))), _, _)) => range_outcome(r, c, v, start, stop, out),
    }
}

/// The OID range as sequences of arcs.
pub open spec fn bound_view(o: Option<Oid>) -> Option<Seq<u32>> {
    match o {
        Some(x) => Some(x@),
        None => None,
    }
}

/// Decides where a record with OID `oid` stands in the range, and writes it
/// with `output` when it is inside.
fn place_record(
    output: &RecordHandler,
    start: &Option<Oid>,
    stop: &Option<Oid>,
    oid: &Oid,
    value: &SnmpValue,
) -> (r: LineOutcome)
    ensures
        range_outcome(r, oid@, value@, bound_view(*start), bound_view(*stop), output.kind()),
{
    if let Some(s) = start {
        if let OidOrdering::Less = oid.compare(s) {
            return LineOutcome::BeforeStart;
        }
    }
    if let Some(t) = stop {
        if let OidOrdering::Less = t.compare(oid) {
            return LineOutcome::PastStop;
        }
    }
    match output.format(oid, value) {
        Ok(b) => LineOutcome::Converted(b),
        Err(e) => LineOutcome::FormatError(e),
    }
}

/// Converts one input line (without its line break): blank and comment
/// lines are passed over; any other line is evaluated by `input` as an exact
/// match and, when its OID lies in the range `start..=stop`, written by
/// `output`.
pub fn convert_line(
    input: &mut RecordHandler,
    output: &RecordHandler,
    start: &Option<Oid>,
    stop: &Option<Oid>,
    line: &str,
) -> (r: LineOutcome)
    requires
        old(input).wf(),
    ensures
        final(input).wf(),
        final(input).kind() == old(input).kind(),
        r is Blank <==> is_blank_line(line@),
        is_blank_line(line@) ==> final(input).cache() == old(input).cache()
            && final(input).pending_delay() == old(input).pending_delay(),
        !is_blank_line(line@) ==> ({
            let bytes = line_bytes(line@);
            let s = spec_evaluate_line(
                old(input).cache(),
                record_fields(old(input).kind(), bytes),
                convert_flags(),
            );
            let (_, c, d) = eval_step(
                old(input).kind(),
                bytes,
                old(input).cache(),
                old(input).pending_delay(),
                convert_flags(),
            );
            &&& convert_outcome(
                r,
                s,
                bound_view(*start),
                bound_view(*stop),
                output.kind(),
                crate::record::record_refusal(old(input).kind(), bytes),
            )
            &&& final(input).cache() == c
            &&& final(input).pending_delay() == d
        }),
{
    let mut v = chars_of(line);
    let t = trim_chars(v.as_slice());
    if t.len() == 0 || t[0] == '#' {
        return LineOutcome::Blank;
    }
    v.push('\n');
    let bytes = chars_to_utf8(v.as_slice());
    let ctx = EvalContext {
        next_flag: false,
        set_flag: false,
        exact_match: true,
        subtree_flag: false,
        orig_oid: None,
        data_file: String::new(),
        oid_only: false,
    };
    assert(ctx.flags() == convert_flags());
    match input.evaluate(bytes.as_slice(), &ctx) {
        Err(e) => LineOutcome::ParseError(e),
        Ok((_, None)) => LineOutcome::NoValue,
        Ok((oid, Some(value))) => place_record(output, start, stop, &oid, &value),
    }
}

/// Counts of a conversion: lines read, records written and lines skipped.
/// The counts wrap around at `usize::MAX`.
#[derive(Clone, Copy, Debug, PartialEq, Eq)]
pub struct Tally {
    pub lines: usize,
    pub converted: usize,
    pub skipped: usize,
}

/// What the conversion does after a line.
pub enum Flow {
    /// Write these bytes, then read the next line.
    Write(Vec<u8>),
    /// Read the next line.
    Next,
    /// Stop converting: the rest of the input lies past the range.
    Stop,
    /// Give up with a failure.
    Exit,
}

/// `n + 1`, wrapping around.
pub open spec fn bump(n: usize) -> usize {
    if n == usize::MAX {
        0
    } else {
        (n + 1) as usize
    }
}

impl Tally {
    pub fn new() -> (r: Tally)
        ensures
            r == (Tally { lines: 0, converted: 0, skipped: 0 }),
    {
        Tally { lines: 0, converted: 0, skipped: 0 }
    }

    /// A line could not be read: it is skipped when errors are to be
    /// passed over, else the conversion fails.
    pub fn read_failed(&mut self, continue_on_errors: bool) -> (r: Flow)
        ensures
            final(self).lines == bump(old(self).lines),
            final(self).converted == old(self).converted,
            continue_on_errors ==> r is Next && final(self).skipped == bump(old(self).skipped),
            !continue_on_errors ==> r is Exit && final(self).skipped == old(self).skipped,
    {
        self.lines = self.lines.wrapping_add(1);
        if continue_on_errors {
            self.skipped = self.skipped.wrapping_add(1);
            Flow::Next
        } else {
            Flow::Exit
        }
    }

    /// Counts a line read and what became of it, and says what to do next:
    /// a converted line is written (and counted as converted); a line
    /// without a value is skipped; a line that could not be read or written
    /// is skipped when errors are to be passed over, else the conversion
    /// fails; a line past the range stops the conversion.
    pub fn step(&mut self, outcome: &LineOutcome, continue_on_errors: bool) -> (r: Flow)
        ensures
            final(self).lines == bump(old(self).lines),
            match *outcome {
                LineOutcome::Converted(b) => r matches Flow::Write(w) && w@ == b@
                    && final(self).converted == bump(old(self).converted)
                    && final(self).skipped == old(self).skipped,
                LineOutcome::NoValue => r is Next && final(self).converted == old(self).converted
                    && final(self).skipped == bump(old(self).skipped),
                LineOutcome::ParseError(_) | LineOutcome::FormatError(_) => final(self).converted
                    == old(self).converted && if continue_on_errors {
                    r is Next && final(self).skipped == bump(old(self).skipped)
                } else {
                    r is Exit && final(self).skipped == old(self).skipped
                },
                LineOutcome::PastStop => r is Stop && final(self).converted == old(self).converted
                    && final(self).skipped == old(self).skipped,
                _ => r is Next && final(self).converted == old(self).converted
                    && final(self).skipped == old(self).skipped,
            },
    {
        self.lines = self.lines.wrapping_add(1);
        match outcome {
            LineOutcome::Converted(b) => {
                self.converted = self.converted.wrapping_add(1);
                Flow::Write(crate::text::copy_bytes(b.as_slice()))
            },
            LineOutcome::NoValue => {
                self.skipped = self.skipped.wrapping_add(1);
                Flow::Next
            },
            LineOutcome::ParseError(_) | LineOutcome::FormatError(_) => {
                if continue_on_errors {
                    self.skipped = self.skipped.wrapping_add(1);
                    Flow::Next
                } else {
                    Flow::Exit
                }
            },
            LineOutcome::PastStop => Flow::Stop,
            _ => Flow::Next,
        }
    }
}

} // verus!
