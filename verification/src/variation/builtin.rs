//! Built-in variation modules: delay, error, numeric and writecache.

use vstd::prelude::*;

use crate::error::SnmpsimError;
use crate::grammar::snmprec::{spec_split_module, spec_unpack_tag, SnmprecGrammar};
use crate::oid::Oid;
use crate::record::snmprec::{parsed_as, spec_parse_value, SnmprecRecord};
use crate::snmp_value::{tags, SnmpValue, SpecValue};
use crate::text::{
    append_str, chars_of, copy_string, debug_quoted, debug_text, first_index_of, int_text,
    parse_int, str_eq, string_from, trim,
};
use crate::variation::{
    clamp_delay, error_is, kind_of_name, last_value, lookup, module_outcome, only_record_context_changed,
    pairs_view,
    EvalError, ModuleKind, VariationContext, VariationModule, VariationResult,
};

verus! {

// ─── Options strings ─────────────────────────────────────────────────────────

/// Separators of `key=value` pairs.
pub open spec fn is_pair_sep(c: char) -> bool {
    c == ',' || c == '&'
}

/// The pieces of `s` between pair separators, in order (at least one).
pub open spec fn split_pairs(s: Seq<char>) -> Seq<Seq<char>>
    decreases s.len(),
{
    if s.len() == 0 {
        seq![Seq::<char>::empty()]
    } else {
        let p = split_pairs(s.drop_last());
        if is_pair_sep(s.last()) {
            p.push(Seq::<char>::empty())
        } else {
            p.update(p.len() - 1, p.last().push(s.last()))
        }
    }
}

proof fn lemma_split_pairs_len(s: Seq<char>)
    ensures
        split_pairs(s).len() >= 1,
    decreases s.len(),
{
    if s.len() > 0 {
        lemma_split_pairs_len(s.drop_last());
    }
}

/// A piece `key=value` (or `key`) as a trimmed pair; `None` for an empty key.
pub open spec fn kv_entry(piece: Seq<char>) -> Option<(Seq<char>, Seq<char>)> {
    let (k, v) = match first_index_of(piece, '=') {
        Some(i) => (trim(piece.subrange(0, i)), trim(piece.subrange(i + 1, piece.len() as int))),
        None => (trim(piece), Seq::<char>::empty()),
    };
    if k.len() == 0 {
        None
    } else {
        Some((k, v))
    }
}

/// The pairs of the pieces, in order, without those with an empty key.
pub open spec fn kv_entries(pieces: Seq<Seq<char>>) -> Seq<(Seq<char>, Seq<char>)>
    decreases pieces.len(),
{
    if pieces.len() == 0 {
        Seq::empty()
    } else {
        let r = kv_entries(pieces.drop_last());
        match kv_entry(pieces.last()) {
            Some(e) => r.push(e),
            None => r,
        }
    }
}

/// The pairs of a `key=value,key2=value2` options string (`&` separates too).
pub open spec fn kv_pairs(s: Seq<char>) -> Seq<(Seq<char>, Seq<char>)> {
    kv_entries(split_pairs(s))
}

fn split_kv_pieces(s: &[char]) -> (r: Vec<Vec<char>>)
    ensures
        r@.len() == split_pairs(s@).len(),
        forall|i: int| 0 <= i < r@.len() ==> #[trigger] r@[i]@ == split_pairs(s@)[i],
{
    let mut parts: Vec<Vec<char>> = Vec::new();
    let mut cur: Vec<char> = Vec::new();
    let mut i: usize = 0;
    while i < s.len()
        invariant
            i <= s.len(),
            parts@.len() + 1 == split_pairs(s@.take(i as int)).len(),
            forall|k: int|
                0 <= k < parts@.len() ==> #[trigger] parts@[k]@ == split_pairs(s@.take(i as int))[k],
            cur@ == split_pairs(s@.take(i as int)).last(),
        decreases s.len() - i,
    {
        proof {
            assert(s@.take(i + 1).drop_last() =~= s@.take(i as int));
            lemma_split_pairs_len(s@.take(i as int));
        }
        if s[i] == ',' || s[i] == '&' {
            let done = cur;
            parts.push(done);
            cur = Vec::new();
        } else {
            cur.push(s[i]);
        }
        i += 1;
    }
    parts.push(cur);
    assert(s@.take(s.len() as int) =~= s@);
    parts
}

fn kv_entry_exec(piece: &[char]) -> (r: Option<(String, String)>)
    ensures
        r is Some <==> kv_entry(piece@) is Some,
        r matches Some(e) ==> kv_entry(piece@) == Some((e.0@, e.1@)),
{
    let n = piece.len();
    let (k, v) = match crate::text::find_char(piece, '=') {
        Some(i) => {
            let a = crate::text::sub_chars(piece, 0, i);
            let b = crate::text::sub_chars(piece, i + 1, n);
            (crate::text::trim_chars(a.as_slice()), crate::text::trim_chars(b.as_slice()))
        },
        None => (crate::text::trim_chars(piece), Vec::new()),
    };
    if k.len() == 0 {
        None
    } else {
        Some((string_from(k.as_slice()), string_from(v.as_slice())))
    }
}

/// Parse a `key=value,key2=value2` style options string into its pairs, in
/// order; both `,` and `&` separate pairs, keys and values are trimmed and
/// pairs with an empty key are dropped. A later pair overrides an earlier one.
pub fn parse_kv(s: &str) -> (r: Vec<(String, String)>)
    ensures
        pairs_view(r@) == kv_pairs(s@),
{
    let cs = chars_of(s);
    let pieces = split_kv_pieces(cs.as_slice());
    let ghost ps = split_pairs(s@);
    let mut out: Vec<(String, String)> = Vec::new();
    let mut i: usize = 0;
    while i < pieces.len()
        invariant
            i <= pieces@.len(),
            pieces@.len() == ps.len(),
            forall|j: int| 0 <= j < pieces@.len() ==> #[trigger] pieces@[j]@ == ps[j],
            pairs_view(out@) == kv_entries(ps.take(i as int)),
        decreases pieces@.len() - i,
    {
        assert(ps.take(i + 1).drop_last() =~= ps.take(i as int));
        match kv_entry_exec(pieces[i].as_slice()) {
            Some(e) => {
                out.push(e);
                assert(pairs_view(out@) =~= kv_entries(ps.take(i + 1)));
            },
            None => {
                assert(pairs_view(out@) =~= kv_entries(ps.take(i + 1)));
            },
        }
        i += 1;
    }
    assert(ps.take(ps.len() as int) =~= ps);
    out
}

/// An integer option: the value of `key` read as `i64`, else `default`.
pub open spec fn int_param(pairs: Seq<(Seq<char>, Seq<char>)>, key: Seq<char>, default: i64) -> i64 {
    match last_value(pairs, key) {
        Some(v) => match parse_int(v, 10, i64::MIN as int, i64::MAX as int) {
            Ok(n) => n as i64,
            Err(_) => default,
        },
        None => default,
    }
}

fn int_param_exec(pairs: &Vec<(String, String)>, key: &str, default: i64) -> (r: i64)
    ensures
        r == int_param(pairs_view(pairs@), key@, default),
{
    match lookup(pairs, key) {
        Some(v) => {
            let cs = chars_of(v.as_str());
            match crate::text::parse_i64(cs.as_slice()) {
                Ok(n) => n,
                Err(_) => default,
            }
        },
        None => default,
    }
}

/// A text option: the value of `key`, else `default`.
pub open spec fn text_param(pairs: Seq<(Seq<char>, Seq<char>)>, key: Seq<char>, default: Seq<char>) -> Seq<char> {
    match last_value(pairs, key) {
        Some(v) => v,
        None => default,
    }
}

fn text_param_exec(pairs: &Vec<(String, String)>, key: &str, default: &str) -> (r: String)
    ensures
        r@ == text_param(pairs_view(pairs@), key@, default@),
{
    match lookup(pairs, key) {
        Some(v) => v,
        None => copy_string(default),
    }
}

/// The `delay` option in milliseconds (500 when absent or not a `u64`).
pub open spec fn delay_param(pairs: Seq<(Seq<char>, Seq<char>)>) -> nat {
    match last_value(pairs, "delay"@) {
        Some(v) => match parse_int(v, 10, 0, u64::MAX as int) {
            Ok(n) => n as nat,
            Err(_) => 500,
        },
        None => 500,
    }
}

fn delay_param_exec(pairs: &Vec<(String, String)>) -> (r: u64)
    ensures
        r == delay_param(pairs_view(pairs@)),
{
    match lookup(pairs, "delay") {
        Some(v) => {
            let cs = chars_of(v.as_str());
            match crate::text::parse_unsigned(cs.as_slice(), 10, 0xFFFF_FFFF_FFFF_FFFF) {
                Ok(n) => n,
                Err(_) => 500,
            }
        },
        None => 500,
    }
}

proof fn lemma_clamp_add(d: u64, x: nat)
    ensures
        clamp_delay((d + clamp_delay(x)) as nat) == clamp_delay((d + x) as nat),
{
}

proof fn lemma_empty_literal()
    ensures
        ""@ == Seq::<char>::empty(),
{
    reveal_strlit("");
    assert(""@ =~= Seq::<char>::empty());
}

/// `a + b`, saturated at `u64::MAX`.
pub fn add_delay(a: u64, b: u64) -> (r: u64)
    ensures
        r == clamp_delay((a + b) as nat),
{
    if a > 0xFFFF_FFFF_FFFF_FFFF - b {
        0xFFFF_FFFF_FFFF_FFFF
    } else {
        a + b
    }
}

// ─── What the modules compute ────────────────────────────────────────────────

/// The value named by the `error` option (`noSuchInstance` by default).
pub open spec fn error_value(pairs: Seq<(Seq<char>, Seq<char>)>) -> SpecValue {
    let e = text_param(pairs, "error"@, "noSuchInstance"@);
    if e == "noSuchObject"@ {
        SpecValue::NoSuchObject
    } else if e == "endOfMibView"@ {
        SpecValue::EndOfMibView
    } else {
        SpecValue::NoSuchInstance
    }
}

/// The next value of the numeric module, and the new direction text when an
/// oscillation turns: `inc` grows by `step` and falls back to `min` past
/// `max`; `osc` moves by `step` times the direction and turns at the bounds;
/// any other function grows by `step`. Additions wrap around as `i64`.
pub open spec fn numeric_next(
    pairs: Seq<(Seq<char>, Seq<char>)>,
    rc: Seq<(Seq<char>, Seq<char>)>,
) -> (i64, Option<Seq<char>>) {
    let min = int_param(pairs, "min"@, 0);
    let max = int_param(pairs, "max"@, i64::MAX);
    let initial = int_param(pairs, "initial"@, min);
    let start = int_param(pairs, "start"@, initial);
    let rate = int_param(pairs, "rate"@, 1);
    let step = int_param(pairs, "step"@, rate);
    let function = text_param(pairs, "function"@, "inc"@);
    let current = int_param(rc, "current"@, start);
    if function == "inc"@ {
        let v = current.wrapping_add(step);
        if v > max {
            (min, None)
        } else {
            (v, None)
        }
    } else if function == "osc"@ {
        let direction = int_param(rc, "direction"@, 1);
        let v = current.wrapping_add(step.wrapping_mul(direction));
        if v >= max {
            (max, Some("-1"@))
        } else if v <= min {
            (min, Some("1"@))
        } else {
            (v, None)
        }
    } else {
        (current.wrapping_add(step), None)
    }
}

/// The value of the type named by `tag` holding `n` (an INTEGER by default).
pub open spec fn numeric_value(tag: Seq<char>, n: i64) -> SpecValue {
    if tag == tags::COUNTER32@ {
        SpecValue::Counter32(n as u32)
    } else if tag == tags::GAUGE32@ {
        SpecValue::Gauge32(n as u32)
    } else if tag == tags::TIME_TICKS@ {
        SpecValue::TimeTicks(n as u32)
    } else if tag == tags::COUNTER64@ {
        SpecValue::Counter64(n as u64)
    } else {
        SpecValue::Integer(n)
    }
}

/// The record context after a numeric step: the direction (when it turned)
/// and then the current value are recorded.
pub open spec fn numeric_context(
    rc: Seq<(Seq<char>, Seq<char>)>,
    next: i64,
    dir: Option<Seq<char>>,
) -> Seq<(Seq<char>, Seq<char>)> {
    let rc1 = match dir {
        Some(d) => rc.push(("direction"@, d)),
        None => rc,
    };
    rc1.push(("current"@, int_text(next as int)))
}

/// What a record with a freshly made record handler evaluates to: the value
/// (or error) and the total delay asked for. The tag may name a module
/// after `:`; the module then works on the tag before it.
pub open spec fn fresh_eval(tag: Seq<char>, value: Seq<char>) -> (Result<SpecValue, EvalError>, nat)
    decreases tag.len(),
{
    if tag.len() > 0 && tag[0] == ':' {
        (Ok(SpecValue::Null), 0)
    } else {
        let (type_tag, module) = spec_split_module(tag);
        let (base, enc) = spec_unpack_tag(type_tag);
        match module {
            None => match spec_parse_value(base, enc, value) {
                Ok(v) => (Ok(v), 0),
                Err(m) => (Err(EvalError::Parse(m)), 0),
            },
            Some(name) => {
                proof {
                    crate::text::lemma_first_index_of(tag, ':');
                }
                let pairs = kv_pairs(value);
                if name == "delay"@ {
                    let (r, d) = fresh_eval(base, text_param(pairs, "value"@, Seq::empty()));
                    (r, delay_param(pairs) + d)
                } else if name == "error"@ {
                    (Ok(error_value(pairs)), 0)
                } else if name == "numeric"@ {
                    (Ok(numeric_value(base, numeric_next(pairs, Seq::empty()).0)), 0)
                } else if name == "writecache"@ {
                    fresh_eval(base, value)
                } else {
                    (Err(EvalError::Config("Unknown variation module: "@ + debug_text(name))), 0)
                }
            },
        }
    }
}

/// `r` is what `fresh_eval` gave: the value with the (saturated) delay, or the error.
pub open spec fn fresh_outcome(
    r: Result<(SnmpValue, u64), SnmpsimError>,
    s: (Result<SpecValue, EvalError>, nat),
) -> bool {
    match s.0 {
        Ok(v) => r matches Ok(x) && x.0@ == v && x.1 == clamp_delay(s.1),
        Err(e) => r matches Err(x) && error_is(x, e),
    }
}

/// What the delay module gives for a tag and options: the `value` option
/// evaluated with the tag, after waiting the `delay` option.
pub open spec fn delay_result(tag: Seq<char>, value: Seq<char>) -> (Result<SpecValue, EvalError>, nat) {
    let pairs = kv_pairs(value);
    let (r, d) = fresh_eval(tag, text_param(pairs, "value"@, Seq::empty()));
    (r, delay_param(pairs) + d)
}

/// What the error module gives for its options.
pub open spec fn error_result(value: Seq<char>) -> SpecValue {
    error_value(kv_pairs(value))
}

/// What the numeric module gives for a tag, options and record context,
/// and its new record context.
pub open spec fn numeric_result(
    tag: Seq<char>,
    value: Seq<char>,
    rc: Seq<(Seq<char>, Seq<char>)>,
) -> (SpecValue, Seq<(Seq<char>, Seq<char>)>) {
    let (next, dir) = numeric_next(kv_pairs(value), rc);
    (numeric_value(tag, next), numeric_context(rc, next, dir))
}

/// The cached value of an OID: the last pair for it.
pub open spec fn cached(cache: Seq<(Seq<u32>, SpecValue)>, oid: Seq<u32>) -> Option<SpecValue> {
    last_value(cache, oid)
}

/// The pairs of a cache without those for `oid`.
pub open spec fn without_key(cache: Seq<(Seq<u32>, SpecValue)>, oid: Seq<u32>) -> Seq<
    (Seq<u32>, SpecValue),
>
    decreases cache.len(),
{
    if cache.len() == 0 {
        cache
    } else {
        let r = without_key(cache.drop_last(), oid);
        if cache.last().0 == oid {
            r
        } else {
            r.push(cache.last())
        }
    }
}

/// What the writecache module gives, its new cache, and the delay asked
/// for: a SET evaluates and caches the record's value; otherwise the cached
/// value of the OID is returned, or the record's value when none is cached.
pub open spec fn writecache_step(
    cache: Seq<(Seq<u32>, SpecValue)>,
    oid: Seq<u32>,
    tag: Seq<char>,
    value: Seq<char>,
    set_flag: bool,
) -> (Result<SpecValue, EvalError>, Seq<(Seq<u32>, SpecValue)>, nat) {
    if set_flag {
        let (r, d) = fresh_eval(tag, value);
        match r {
            Ok(v) => (Ok(v), without_key(cache, oid).push((oid, v)), d),
            Err(e) => (Err(e), cache, d),
        }
    } else {
        match cached(cache, oid) {
            Some(v) => (Ok(v), cache, 0),
            None => (fresh_eval(tag, value).0, cache, fresh_eval(tag, value).1),
        }
    }
}

// ─── Evaluation with a fresh record handler ──────────────────────────────────

fn error_value_exec(pairs: &Vec<(String, String)>) -> (r: SnmpValue)
    ensures
        r@ == error_value(pairs_view(pairs@)),
{
    let e = text_param_exec(pairs, "error", "noSuchInstance");
    if str_eq(e.as_str(), "noSuchObject") {
        SnmpValue::NoSuchObject
    } else if str_eq(e.as_str(), "endOfMibView") {
        SnmpValue::EndOfMibView
    } else {
        SnmpValue::NoSuchInstance
    }
}

fn numeric_next_exec(pairs: &Vec<(String, String)>, rc: &Vec<(String, String)>) -> (r: (
    i64,
    Option<String>,
))
    ensures
        (r.0, match r.1 {
            Some(d) => Some(d@),
            None => None,
        }) == numeric_next(pairs_view(pairs@), pairs_view(rc@)),
{
    let min = int_param_exec(pairs, "min", 0);
    let max = int_param_exec(pairs, "max", 0x7FFF_FFFF_FFFF_FFFF);
    let initial = int_param_exec(pairs, "initial", min);
    let start = int_param_exec(pairs, "start", initial);
    let rate = int_param_exec(pairs, "rate", 1);
    let step = int_param_exec(pairs, "step", rate);
    let function = text_param_exec(pairs, "function", "inc");
    let current = int_param_exec(rc, "current", start);
    if str_eq(function.as_str(), "inc") {
        let v = current.wrapping_add(step);
        if v > max {
            (min, None)
        } else {
            (v, None)
        }
    } else if str_eq(function.as_str(), "osc") {
        let direction = int_param_exec(rc, "direction", 1);
        let v = current.wrapping_add(step.wrapping_mul(direction));
        if v >= max {
            (max, Some(copy_string("-1")))
        } else if v <= min {
            (min, Some(copy_string("1")))
        } else {
            (v, None)
        }
    } else {
        (current.wrapping_add(step), None)
    }
}

fn numeric_value_exec(tag: &str, n: i64) -> (r: SnmpValue)
    ensures
        r@ == numeric_value(tag@, n),
{
    if str_eq(tag, tags::COUNTER32) {
        SnmpValue::Counter32(n as u32)
    } else if str_eq(tag, tags::GAUGE32) {
        SnmpValue::Gauge32(n as u32)
    } else if str_eq(tag, tags::TIME_TICKS) {
        SnmpValue::TimeTicks(n as u32)
    } else if str_eq(tag, tags::COUNTER64) {
        SnmpValue::Counter64(n as u64)
    } else {
        SnmpValue::Integer(n)
    }
}

fn starts_with_colon(s: &str) -> (r: bool)
    ensures
        r == (s@.len() > 0 && s@[0] == ':'),
{
    let cs = chars_of(s);
    cs.len() > 0 && cs[0] == ':'
}

pub fn unknown_module_error(name: &str) -> (e: SnmpsimError)
    ensures
        e matches SnmpsimError::Config(t) && t@ == "Unknown variation module: "@ + debug_text(name@),
{
    let mut m: Vec<char> = Vec::new();
    append_str(&mut m, "Unknown variation module: ");
    let q = debug_quoted(name);
    append_str(&mut m, q.as_str());
    assert(m@ =~= "Unknown variation module: "@ + debug_text(name@));
    SnmpsimError::Config(string_from(m.as_slice()))
}

/// Parse a value string given a snmprec tag, as a freshly made .snmprec
/// record handler evaluates it for an exact match; also gives the delay
/// that delay modules named in the tag ask for.
pub fn parse_value_from_tag(tag: &str, value_str: &str) -> (r: Result<(SnmpValue, u64), SnmpsimError>)
    ensures
        fresh_outcome(r, fresh_eval(tag@, value_str@)),
    decreases tag@.len(),
{
    if starts_with_colon(tag) {
        return Ok((SnmpValue::Null, 0));
    }
    let (type_tag, module) = SnmprecGrammar::split_module(tag);
    let (base_tag, encoding) = SnmprecGrammar::unpack_tag(type_tag);
    match module {
        None => match SnmprecRecord::parse_value(base_tag, encoding, value_str) {
            Ok(v) => Ok((v, 0)),
            Err(e) => Err(e),
        },
        Some(name) => {
            proof {
                crate::text::lemma_first_index_of(tag@, ':');
            }
            let params = parse_kv(value_str);
            match crate::variation::module_kind(name) {
                Some(ModuleKind::Delay) => {
                    let d = delay_param_exec(&params);
                    let vs = text_param_exec(&params, "value", "");
                    proof {
                        lemma_empty_literal();
                    }
                    match parse_value_from_tag(base_tag, vs.as_str()) {
                        Ok((v, d2)) => {
                            proof {
                                lemma_clamp_add(d, fresh_eval(base_tag@, vs@).1);
                            }
                            Ok((v, add_delay(d, d2)))
                        },
                        Err(e) => Err(e),
                    }
                },
                Some(ModuleKind::Error) => Ok((error_value_exec(&params), 0)),
                Some(ModuleKind::Numeric) => {
                    let rc: Vec<(String, String)> = Vec::new();
                    assert(pairs_view(rc@) =~= Seq::<(Seq<char>, Seq<char>)>::empty());
                    let (next, _) = numeric_next_exec(&params, &rc);
                    Ok((numeric_value_exec(base_tag, next), 0))
                },
                Some(ModuleKind::WriteCache) => parse_value_from_tag(base_tag, value_str),
                None => Err(unknown_module_error(name)),
            }
        },
    }
}

// ─── The modules ─────────────────────────────────────────────────────────────

/// Adds a configurable delay before returning a value.
///
/// Options: `value=<SnmpValue>&delay=<milliseconds>`
pub struct DelayModule;

impl DelayModule {
    pub fn new() -> (r: DelayModule) {
        DelayModule
    }
}

impl VariationModule for DelayModule {
    fn name(&self) -> (r: &'static str)
        ensures
            r@ == "delay"@,
    {
        "delay"
    }

    fn init(&mut self, options: &str, mode: &str) -> (r: Result<(), SnmpsimError>)
        ensures
            r is Ok,
    {
        Ok(())
    }

    fn variate(&mut self, ctx: &mut VariationContext) -> (r: Result<VariationResult, SnmpsimError>)
        ensures
            module_outcome(
                r,
                *old(ctx),
                delay_result(old(ctx).tag@, old(ctx).value@).0,
                delay_result(old(ctx).tag@, old(ctx).value@).1,
            ),
            *final(ctx) == *old(ctx),
    {
        let params = parse_kv(ctx.value.as_str());
        let d = delay_param_exec(&params);
        let vs = text_param_exec(&params, "value", "");
        proof {
            lemma_empty_literal();
        }
        match parse_value_from_tag(ctx.tag.as_str(), vs.as_str()) {
            Ok((v, d2)) => {
                proof {
                    lemma_clamp_add(d, fresh_eval(ctx.tag@, vs@).1);
                }
                Ok(
                VariationResult {
                    oid: ctx.oid.duplicate(),
                    tag: copy_string(ctx.tag.as_str()),
                    value: v,
                    delay_ms: add_delay(d, d2),
                },
            )
            },
            Err(e) => Err(e),
        }
    }

    fn shutdown(&mut self, options: &str, mode: &str) -> (r: Result<(), SnmpsimError>)
        ensures
            r is Ok,
    {
        Ok(())
    }
}

/// Returns SNMP exception values instead of values.
///
/// Options: `error=<noSuchObject|noSuchInstance|endOfMibView>&value=<SnmpValue>`
pub struct ErrorModule;

impl ErrorModule {
    pub fn new() -> (r: ErrorModule) {
        ErrorModule
    }
}

impl VariationModule for ErrorModule {
    fn name(&self) -> (r: &'static str)
        ensures
            r@ == "error"@,
    {
        "error"
    }

    fn init(&mut self, options: &str, mode: &str) -> (r: Result<(), SnmpsimError>)
        ensures
            r is Ok,
    {
        Ok(())
    }

    fn variate(&mut self, ctx: &mut VariationContext) -> (r: Result<VariationResult, SnmpsimError>)
        ensures
            module_outcome(r, *old(ctx), Ok(error_result(old(ctx).value@)), 0),
            *final(ctx) == *old(ctx),
    {
        let params = parse_kv(ctx.value.as_str());
        let value = error_value_exec(&params);
        Ok(
            VariationResult {
                oid: ctx.oid.duplicate(),
                tag: copy_string(ctx.tag.as_str()),
                value,
                delay_ms: 0,
            },
        )
    }

    fn shutdown(&mut self, options: &str, mode: &str) -> (r: Result<(), SnmpsimError>)
        ensures
            r is Ok,
    {
        Ok(())
    }
}

/// Generates incrementing/oscillating numeric values.
///
/// Options: `min=<n>&max=<n>&start=<n>&step=<n>&function=<inc|osc>`
pub struct NumericModule;

impl NumericModule {
    pub fn new() -> (r: NumericModule) {
        NumericModule
    }
}

impl VariationModule for NumericModule {
    fn name(&self) -> (r: &'static str)
        ensures
            r@ == "numeric"@,
    {
        "numeric"
    }

    fn init(&mut self, options: &str, mode: &str) -> (r: Result<(), SnmpsimError>)
        ensures
            r is Ok,
    {
        Ok(())
    }

    fn variate(&mut self, ctx: &mut VariationContext) -> (r: Result<VariationResult, SnmpsimError>)
        ensures
            module_outcome(
                r,
                *old(ctx),
                Ok(
                    numeric_result(
                        old(ctx).tag@,
                        old(ctx).value@,
                        pairs_view(old(ctx).record_context@),
                    ).0,
                ),
                0,
            ),
            pairs_view(final(ctx).record_context@) == numeric_result(
                old(ctx).tag@,
                old(ctx).value@,
                pairs_view(old(ctx).record_context@),
            ).1,
            only_record_context_changed(*old(ctx), *final(ctx)),
    {
        let params = parse_kv(ctx.value.as_str());
        let (next, dir) = numeric_next_exec(&params, &ctx.record_context);
        let ghost rc0 = pairs_view(ctx.record_context@);
        match dir {
            Some(d) => {
                ctx.record_context.push((copy_string("direction"), d));
            },
            None => {},
        }
        let cur = string_from(crate::text::i64_text(next).as_slice());
        ctx.record_context.push((copy_string("current"), cur));
        proof {
            let (n2, d2) = numeric_next(kv_pairs(old(ctx).value@), rc0);
            assert(pairs_view(ctx.record_context@) =~= numeric_context(rc0, n2, d2));
        }
        let value = numeric_value_exec(ctx.tag.as_str(), next);
        Ok(
            VariationResult {
                oid: ctx.oid.duplicate(),
                tag: copy_string(ctx.tag.as_str()),
                value,
                delay_ms: 0,
            },
        )
    }

    fn shutdown(&mut self, options: &str, mode: &str) -> (r: Result<(), SnmpsimError>)
        ensures
            r is Ok,
    {
        Ok(())
    }
}

/// Caches SET values and returns them on subsequent GETs.
pub struct WriteCacheModule {
    /// Cached values by OID; a later pair overrides an earlier one.
    pub cache: Vec<(Oid, SnmpValue)>,
}

impl WriteCacheModule {
    /// The cached pairs, as OIDs and values.
    pub open spec fn cached_pairs(&self) -> Seq<(Seq<u32>, SpecValue)> {
        Seq::new(self.cache@.len(), |i: int| (self.cache@[i].0@, self.cache@[i].1@))
    }

    pub fn new() -> (r: WriteCacheModule)
        ensures
            r.cached_pairs() == Seq::<(Seq<u32>, SpecValue)>::empty(),
    {
        let r = WriteCacheModule { cache: Vec::new() };
        assert(r.cached_pairs() =~= Seq::<(Seq<u32>, SpecValue)>::empty());
        r
    }

    fn find(&self, oid: &Oid) -> (r: Option<SnmpValue>)
        ensures
            r is Some <==> cached(self.cached_pairs(), oid@) is Some,
            r matches Some(v) ==> cached(self.cached_pairs(), oid@) == Some(v@),
    {
        let ghost pv = self.cached_pairs();
        let mut i: usize = self.cache.len();
        assert(pv.take(pv.len() as int) =~= pv);
        while i > 0
            invariant
                i <= self.cache@.len(),
                pv == self.cached_pairs(),
                last_value(pv, oid@) == last_value(pv.take(i as int), oid@),
            decreases i,
        {
            assert(pv.take(i as int).drop_last() =~= pv.take(i - 1));
            assert(pv.take(i as int).last() == pv[i - 1]);
            if self.cache[i - 1].0.equals(oid) {
                return Some(self.cache[i - 1].1.duplicate());
            }
            i -= 1;
        }
        None
    }

    fn store(&mut self, oid: &Oid, value: &SnmpValue)
        ensures
            final(self).cached_pairs() == without_key(old(self).cached_pairs(), oid@).push((oid@, value@)),
    {
        let ghost pv = self.cached_pairs();
        let mut kept: Vec<(Oid, SnmpValue)> = Vec::new();
        let mut i: usize = 0;
        while i < self.cache.len()
            invariant
                i <= self.cache@.len(),
                pv == self.cached_pairs(),
                Seq::new(kept@.len(), |j: int| (kept@[j].0@, kept@[j].1@)) == without_key(
                    pv.take(i as int),
                    oid@,
                ),
            decreases self.cache@.len() - i,
        {
            assert(pv.take(i + 1).drop_last() =~= pv.take(i as int));
            assert(pv.take(i + 1).last() == pv[i as int]);
            if !self.cache[i].0.equals(oid) {
                let k = self.cache[i].0.duplicate();
                let v = self.cache[i].1.duplicate();
                kept.push((k, v));
            }
            assert(Seq::new(kept@.len(), |j: int| (kept@[j].0@, kept@[j].1@)) =~= without_key(
                pv.take(i + 1),
                oid@,
            ));
            i += 1;
        }
        assert(pv.take(pv.len() as int) =~= pv);
        kept.push((oid.duplicate(), value.duplicate()));
        self.cache = kept;
        assert(self.cached_pairs() =~= without_key(pv, oid@).push((oid@, value@)));
    }
}

impl VariationModule for WriteCacheModule {
    fn name(&self) -> (r: &'static str)
        ensures
            r@ == "writecache"@,
    {
        "writecache"
    }

    fn init(&mut self, options: &str, mode: &str) -> (r: Result<(), SnmpsimError>)
        ensures
            r is Ok,
            final(self).cached_pairs() == old(self).cached_pairs(),
    {
        Ok(())
    }

    fn variate(&mut self, ctx: &mut VariationContext) -> (r: Result<VariationResult, SnmpsimError>)
        ensures
            ({
                let (s, c, d) = writecache_step(
                    old(self).cached_pairs(),
                    old(ctx).oid@,
                    old(ctx).tag@,
                    old(ctx).value@,
                    old(ctx).set_flag,
                );
                module_outcome(r, *old(ctx), s, d) && final(self).cached_pairs() == c
            }),
            *final(ctx) == *old(ctx),
    {
        if ctx.set_flag {
            match parse_value_from_tag(ctx.tag.as_str(), ctx.value.as_str()) {
                Ok((v, d)) => {
                    self.store(&ctx.oid, &v);
                    return Ok(
                        VariationResult {
                            oid: ctx.oid.duplicate(),
                            tag: copy_string(ctx.tag.as_str()),
                            value: v,
                            delay_ms: d,
                        },
                    );
                },
                Err(e) => {
                    return Err(e);
                },
            }
        }
        match self.find(&ctx.oid) {
            Some(v) => Ok(
                VariationResult {
                    oid: ctx.oid.duplicate(),
                    tag: copy_string(ctx.tag.as_str()),
                    value: v,
                    delay_ms: 0,
                },
            ),
            None => match parse_value_from_tag(ctx.tag.as_str(), ctx.value.as_str()) {
                Ok((v, d)) => Ok(
                    VariationResult {
                        oid: ctx.oid.duplicate(),
                        tag: copy_string(ctx.tag.as_str()),
                        value: v,
                        delay_ms: d,
                    },
                ),
                Err(e) => Err(e),
            },
        }
    }

    fn shutdown(&mut self, options: &str, mode: &str) -> (r: Result<(), SnmpsimError>)
        ensures
            r is Ok,
            final(self).cached_pairs() == old(self).cached_pairs(),
    {
        Ok(())
    }
}

// ─── Laws ────────────────────────────────────────────────────────────────────

/// A SET through the writecache module is what later GETs of the same OID
/// answer: after a SET that evaluates to `v`, a GET (whatever the record's
/// tag and value) gives `v`, asks for no delay and leaves the cache as it is.
pub proof fn lemma_writecache_set_then_get(
    cache: Seq<(Seq<u32>, SpecValue)>,
    oid: Seq<u32>,
    tag: Seq<char>,
    value: Seq<char>,
    tag2: Seq<char>,
    value2: Seq<char>,
)
    requires
        fresh_eval(tag, value).0 is Ok,
    ensures
        ({
            let (r, c, _) = writecache_step(cache, oid, tag, value, true);
            let v = fresh_eval(tag, value).0->Ok_0;
            &&& r == Ok::<SpecValue, EvalError>(v)
            &&& writecache_step(c, oid, tag2, value2, false) == (
                Ok::<SpecValue, EvalError>(v),
                c,
                0nat,
            )
        }),
{
}

/// A SET for one OID leaves what the cache holds for every other OID.
pub proof fn lemma_writecache_set_keeps_others(
    cache: Seq<(Seq<u32>, SpecValue)>,
    oid: Seq<u32>,
    other: Seq<u32>,
    tag: Seq<char>,
    value: Seq<char>,
)
    requires
        other != oid,
    ensures
        cached(writecache_step(cache, oid, tag, value, true).1, other) == cached(cache, other),
    decreases cache.len(),
{
    if fresh_eval(tag, value).0 is Ok {
        lemma_without_key_keeps(cache, oid, other);
        let v = fresh_eval(tag, value).0->Ok_0;
        let wk = without_key(cache, oid);
        assert(wk.push((oid, v)).drop_last() =~= wk);
    }
}

proof fn lemma_without_key_keeps(cache: Seq<(Seq<u32>, SpecValue)>, oid: Seq<u32>, other: Seq<u32>)
    requires
        other != oid,
    ensures
        last_value(without_key(cache, oid), other) == last_value(cache, other),
    decreases cache.len(),
{
    if cache.len() > 0 {
        lemma_without_key_keeps(cache.drop_last(), oid, other);
        let r = without_key(cache.drop_last(), oid);
        if cache.last().0 != oid {
            assert(r.push(cache.last()).drop_last() =~= r);
        }
    }
}

/// The oscillating numeric function stays between its bounds: with
/// `min <= max`, every value it gives lies in `[min, max]`, and the
/// incrementing function never goes above `max`.
pub proof fn lemma_numeric_bounds(pairs: Seq<(Seq<char>, Seq<char>)>, rc: Seq<(Seq<char>, Seq<char>)>)
    requires
        int_param(pairs, "min"@, 0) <= int_param(pairs, "max"@, i64::MAX),
    ensures
        ({
            let min = int_param(pairs, "min"@, 0);
            let max = int_param(pairs, "max"@, i64::MAX);
            let f = text_param(pairs, "function"@, "inc"@);
            let n = numeric_next(pairs, rc).0;
            &&& f == "osc"@ ==> min <= n <= max
            &&& f == "inc"@ ==> n <= max
        }),
{
    reveal_strlit("inc");
    reveal_strlit("osc");
    assert("inc"@[0] != "osc"@[0]);
    assert("inc"@ != "osc"@);
}

} // verus!
