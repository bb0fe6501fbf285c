//! Grammar for snmpwalk output format.
//!
//! Parses lines like:
//!   .1.3.6.1.2.1.1.1.0 = STRING: "Linux netdev02"
//!   .1.3.6.1.2.1.1.3.0 = Timeticks: (12345) 0:02:03.45
//!
//! Bytes outside ASCII are dropped before parsing, so every character seen
//! here is ASCII.

use vstd::prelude::*;

use crate::ber::hex2;
use crate::error::SnmpsimError;
use crate::grammar::{quoted_error, Grammar};
use crate::oid::strip_dots;
use crate::text::{
    append_chars, append_str, chars_eq_str, chars_of, copy_chars, dec, first_index_of, int_text,
    is_whitespace, is_ws, parse_int, split_chars, split_on, starts_with, string_from, sub_chars,
    trim, trim_chars, trim_start,
};

verus! {

// ─── Characters ──────────────────────────────────────────────────────────────

/// The characters of the ASCII bytes of a line; other bytes are dropped.
pub open spec fn ascii_text(line: Seq<u8>) -> Seq<char>
    decreases line.len(),
{
    if line.len() == 0 {
        Seq::<char>::empty()
    } else {
        let r = ascii_text(line.drop_last());
        if line.last() < 0x80 {
            r.push(line.last() as char)
        } else {
            r
        }
    }
}

fn ascii_text_exec(line: &[u8]) -> (r: Vec<char>)
    ensures
        r@ == ascii_text(line@),
{
    let mut v: Vec<char> = Vec::new();
    let mut i: usize = 0;
    while i < line.len()
        invariant
            i <= line.len(),
            v@ == ascii_text(line@.take(i as int)),
        decreases line.len() - i,
    {
        assert(line@.take(i + 1).drop_last() =~= line@.take(i as int));
        if line[i] < 0x80 {
            v.push(line[i] as char);
        }
        i += 1;
    }
    assert(line@.take(line.len() as int) =~= line@);
    v
}

/// ASCII uppercase of a character (others unchanged).
pub open spec fn upper_char(c: char) -> char {
    if 'a' <= c <= 'z' {
        ((c as u32) - 32) as char
    } else {
        c
    }
}

/// `to_uppercase` of an ASCII text.
pub open spec fn upper(s: Seq<char>) -> Seq<char> {
    Seq::new(s.len(), |i: int| upper_char(s[i]))
}

fn upper_exec(s: &[char]) -> (r: Vec<char>)
    ensures
        r@ == upper(s@),
{
    let mut v: Vec<char> = Vec::new();
    let mut i: usize = 0;
    while i < s.len()
        invariant
            i <= s.len(),
            v@ =~= upper(s@.take(i as int)),
        decreases s.len() - i,
    {
        let c = s[i];
        let u = if 'a' <= c && c <= 'z' {
            ((c as u32) - 32) as u8 as char
        } else {
            c
        };
        assert(u == upper_char(c)) by {
            if 'a' <= c && c <= 'z' {
                assert(((c as u32) - 32) < 128);
            }
        }
        v.push(u);
        i += 1;
    }
    assert(s@.take(s.len() as int) =~= s@);
    v
}

/// An ASCII hexadecimal digit.
pub open spec fn is_hex_digit(c: char) -> bool {
    ('0' <= c <= '9') || ('a' <= c <= 'f') || ('A' <= c <= 'F')
}

/// An ASCII letter or digit.
pub open spec fn is_alnum(c: char) -> bool {
    ('0' <= c <= '9') || ('a' <= c <= 'z') || ('A' <= c <= 'Z')
}

// ─── Searching ───────────────────────────────────────────────────────────────

/// The first position at or after `i` where `pat` occurs in `s`.
pub open spec fn find_from(s: Seq<char>, pat: Seq<char>, i: int) -> Option<int>
    decreases s.len() + 1 - i,
{
    if i < 0 || i + pat.len() > s.len() {
        None
    } else if s.subrange(i, i + pat.len()) == pat {
        Some(i)
    } else {
        find_from(s, pat, i + 1)
    }
}

/// The first position where `pat` occurs in `s` (`str::find`).
pub open spec fn find_pat(s: Seq<char>, pat: Seq<char>) -> Option<int> {
    find_from(s, pat, 0)
}

proof fn lemma_find_from_bounds(s: Seq<char>, pat: Seq<char>, i: int)
    ensures
        find_from(s, pat, i) matches Some(p) ==> i <= p && p + pat.len() <= s.len()
            && s.subrange(p, p + pat.len()) == pat,
    decreases s.len() + 1 - i,
{
    if !(i < 0 || i + pat.len() > s.len()) && s.subrange(i, i + pat.len()) != pat {
        lemma_find_from_bounds(s, pat, i + 1);
    }
}

fn matches_at(s: &[char], pat: &[char], i: usize) -> (r: bool)
    requires
        i + pat.len() <= s.len(),
    ensures
        r == (s@.subrange(i as int, i + pat.len()) == pat@),
{
    let mut j: usize = 0;
    while j < pat.len()
        invariant
            j <= pat.len(),
            i + pat.len() <= s.len(),
            forall|k: int| 0 <= k < j ==> s@[i + k] == pat@[k],
        decreases pat.len() - j,
    {
        if s[i + j] != pat[j] {
            assert(s@.subrange(i as int, i + pat.len())[j as int] != pat@[j as int]);
            return false;
        }
        j += 1;
    }
    assert(s@.subrange(i as int, i + pat.len()) =~= pat@);
    true
}

fn find_pat_exec(s: &[char], pat: &[char]) -> (r: Option<usize>)
    ensures
        match find_pat(s@, pat@) {
            Some(p) => 0 <= p && r == Some(p as usize) && p + pat@.len() <= s@.len(),
            None => r is None,
        },
{
    proof {
        lemma_find_from_bounds(s@, pat@, 0);
    }
    if pat.len() > s.len() {
        return None;
    }
    let last = s.len() - pat.len();
    let mut i: usize = 0;
    while i < last
        invariant
            i <= last,
            last + pat.len() == s.len(),
            find_pat(s@, pat@) == find_from(s@, pat@, i as int),
        decreases last - i,
    {
        if matches_at(s, pat, i) {
            return Some(i);
        }
        i += 1;
    }
    if matches_at(s, pat, last) {
        return Some(last);
    }
    assert(find_from(s@, pat@, last + 1) is None);
    None
}

/// `s` without its leading spaces (`trim_start_matches(' ')`).
pub open spec fn strip_spaces(s: Seq<char>) -> Seq<char>
    decreases s.len(),
{
    if s.len() > 0 && s[0] == ' ' {
        strip_spaces(s.drop_first())
    } else {
        s
    }
}

/// Index of the first character of `s[from..]` that is not `c`.
fn skip_char(s: &[char], from: usize, c: char) -> (r: usize)
    requires
        from <= s.len(),
    ensures
        from <= r <= s.len(),
        c == ' ' ==> strip_spaces(s@.subrange(from as int, s.len() as int)) == s@.subrange(
            r as int,
            s.len() as int,
        ),
        c == '.' ==> strip_dots(s@.subrange(from as int, s.len() as int)) == s@.subrange(
            r as int,
            s.len() as int,
        ),
{
    let mut i = from;
    while i < s.len() && s[i] == c
        invariant
            from <= i <= s.len(),
            c == ' ' ==> strip_spaces(s@.subrange(from as int, s.len() as int)) == strip_spaces(
                s@.subrange(i as int, s.len() as int),
            ),
            c == '.' ==> strip_dots(s@.subrange(from as int, s.len() as int)) == strip_dots(
                s@.subrange(i as int, s.len() as int),
            ),
        decreases s.len() - i,
    {
        assert(s@.subrange(i as int, s.len() as int).drop_first() =~= s@.subrange(
            i + 1,
            s.len() as int,
        ));
        i += 1;
    }
    i
}

// ─── Words and whitespace ────────────────────────────────────────────────────

/// `s` without its whitespace characters (`split_whitespace().join("")`).
pub open spec fn drop_ws(s: Seq<char>) -> Seq<char>
    decreases s.len(),
{
    if s.len() == 0 {
        s
    } else {
        let r = drop_ws(s.drop_last());
        if is_ws(s.last()) {
            r
        } else {
            r.push(s.last())
        }
    }
}

fn drop_ws_exec(s: &[char]) -> (r: Vec<char>)
    ensures
        r@ == drop_ws(s@),
{
    let mut v: Vec<char> = Vec::new();
    let mut i: usize = 0;
    while i < s.len()
        invariant
            i <= s.len(),
            v@ == drop_ws(s@.take(i as int)),
        decreases s.len() - i,
    {
        assert(s@.take(i + 1).drop_last() =~= s@.take(i as int));
        if !is_whitespace(s[i]) {
            v.push(s[i]);
        }
        i += 1;
    }
    assert(s@.take(s.len() as int) =~= s@);
    v
}

/// The maximal runs of non-whitespace characters, in order (`split_whitespace`).
pub open spec fn words(s: Seq<char>) -> Seq<Seq<char>>
    decreases s.len(),
{
    if s.len() == 0 {
        Seq::empty()
    } else {
        let w = words(s.drop_last());
        let c = s.last();
        if is_ws(c) {
            w
        } else if s.len() > 1 && !is_ws(s[s.len() - 2]) {
            w.update(w.len() - 1, w.last().push(c))
        } else {
            w.push(seq![c])
        }
    }
}

proof fn lemma_words_nonempty(s: Seq<char>)
    ensures
        s.len() > 0 && !is_ws(s.last()) ==> words(s).len() > 0,
    decreases s.len(),
{
    if s.len() > 0 {
        lemma_words_nonempty(s.drop_last());
        let t = s.drop_last();
        if s.len() > 1 && !is_ws(s[s.len() - 2]) {
            assert(t.last() == s[s.len() - 2]);
        }
    }
}

fn words_exec(s: &[char]) -> (r: Vec<Vec<char>>)
    ensures
        r@.len() == words(s@).len(),
        forall|i: int| 0 <= i < r@.len() ==> #[trigger] r@[i]@ == words(s@)[i],
{
    let mut ws: Vec<Vec<char>> = Vec::new();
    let mut cur: Vec<char> = Vec::new();
    let mut in_word = false;
    let mut i: usize = 0;
    while i < s.len()
        invariant
            i <= s.len(),
            in_word == (i > 0 && !is_ws(s@[i - 1])),
            in_word ==> words(s@.take(i as int)).len() > 0,
            ws@.len() + (if in_word { 1int } else { 0int }) == words(s@.take(i as int)).len(),
            forall|k: int| 0 <= k < ws@.len() ==> #[trigger] ws@[k]@ == words(s@.take(i as int))[k],
            in_word ==> cur@ == words(s@.take(i as int)).last(),
        decreases s.len() - i,
    {
        let ghost t = s@.take(i + 1);
        assert(t.drop_last() =~= s@.take(i as int));
        assert(t.last() == s@[i as int]);
        proof {
            lemma_words_nonempty(t);
            if i > 0 {
                assert(t[t.len() - 2] == s@[i - 1]);
            }
        }
        if is_whitespace(s[i]) {
            if in_word {
                let done = cur;
                ws.push(done);
                cur = Vec::new();
            }
            in_word = false;
        } else {
            if in_word {
                cur.push(s[i]);
            } else {
                cur = Vec::new();
                cur.push(s[i]);
                assert(cur@ =~= seq![s@[i as int]]);
            }
            in_word = true;
        }
        i += 1;
    }
    if in_word {
        ws.push(cur);
    }
    assert(s@.take(s.len() as int) =~= s@);
    ws
}

// ─── Value filters ───────────────────────────────────────────────────────────

/// The integer between the first `(` and the `)` after it, if it parses.
pub open spec fn paren_int(s: Seq<char>) -> Option<i64> {
    match first_index_of(s, '(') {
        None => None,
        Some(o) => match first_index_of(s.subrange(o, s.len() as int), ')') {
            None => None,
            Some(c) => match parse_int(
                trim(s.subrange(o + 1, o + c)),
                10,
                i64::MIN as int,
                i64::MAX as int,
            ) {
                Ok(n) => Some(n as i64),
                Err(_) => None,
            },
        },
    }
}

fn extract_parenthesized_integer(s: &[char]) -> (r: Option<i64>)
    ensures
        r == paren_int(s@),
{
    let o = match crate::text::find_char(s, '(') {
        Some(o) => o,
        None => {
            return None;
        },
    };
    let sub = sub_chars(s, o, s.len());
    let c = match crate::text::find_char(sub.as_slice(), ')') {
        Some(c) => c,
        None => {
            return None;
        },
    };
    assert(sub@[0] == '(');
    let inner = sub_chars(s, o + 1, o + c);
    let t = trim_chars(inner.as_slice());
    match crate::text::parse_i64(t.as_slice()) {
        Ok(n) => Some(n),
        Err(_) => None,
    }
}

/// An `i64` text is kept; else an enumeration `label(6)` gives its number;
/// else a unit suffix is dropped (`60 seconds` gives `60`); else it is kept.
pub open spec fn filter_integer(v: Seq<char>) -> Seq<char> {
    if parse_int(v, 10, i64::MIN as int, i64::MAX as int) is Ok {
        v
    } else {
        match paren_int(v) {
            Some(m) => int_text(m as int),
            None => match first_index_of(v, ' ') {
                Some(p) => if parse_int(v.subrange(0, p), 10, i64::MIN as int, i64::MAX as int) is Ok {
                    v.subrange(0, p)
                } else {
                    v
                },
                None => v,
            },
        }
    }
}

fn filter_integer_exec(v: &[char]) -> (r: Vec<char>)
    ensures
        r@ == filter_integer(v@),
{
    if crate::text::parse_i64(v).is_ok() {
        return copy_chars(v);
    }
    match extract_parenthesized_integer(v) {
        Some(m) => crate::text::i64_text(m),
        None => match crate::text::find_char(v, ' ') {
            Some(p) => {
                let prefix = sub_chars(v, 0, p);
                if crate::text::parse_i64(prefix.as_slice()).is_ok() {
                    prefix
                } else {
                    copy_chars(v)
                }
            },
            None => copy_chars(v),
        },
    }
}

/// Pieces of at most two hexadecimal digits, at least two of them.
pub open spec fn is_colon_hex(parts: Seq<Seq<char>>) -> bool {
    parts.len() >= 2 && forall|i: int|
        0 <= i < parts.len() ==> (#[trigger] parts[i]).len() <= 2 && forall|j: int|
            0 <= j < parts[i].len() ==> is_hex_digit(parts[i][j])
}

fn is_colon_hex_exec(parts: &Vec<Vec<char>>) -> (r: bool)
    ensures
        r == is_colon_hex(Seq::new(parts@.len(), |i: int| parts@[i]@)),
{
    let ghost ps = Seq::new(parts@.len(), |i: int| parts@[i]@);
    if parts.len() < 2 {
        return false;
    }
    let mut i: usize = 0;
    while i < parts.len()
        invariant
            i <= parts@.len(),
            ps == Seq::new(parts@.len(), |i: int| parts@[i]@),
            forall|k: int|
                0 <= k < i ==> (#[trigger] ps[k]).len() <= 2 && forall|j: int|
                    0 <= j < ps[k].len() ==> is_hex_digit(ps[k][j]),
        decreases parts@.len() - i,
    {
        let p = &parts[i];
        if p.len() > 2 {
            assert(ps[i as int].len() > 2);
            return false;
        }
        let mut j: usize = 0;
        assert(p@ == ps[i as int]);
        while j < p.len()
            invariant
                j <= p@.len(),
                i < parts@.len(),
                ps == Seq::new(parts@.len(), |i: int| parts@[i]@),
                p@ == ps[i as int],
                forall|m: int| 0 <= m < j ==> is_hex_digit(p@[m]),
            decreases p@.len() - j,
        {
            let c = p[j];
            if !(('0' <= c && c <= '9') || ('a' <= c && c <= 'f') || ('A' <= c && c <= 'F')) {
                assert(!is_hex_digit(ps[i as int][j as int]));
                return false;
            }
            j += 1;
        }
        i += 1;
    }
    true
}

/// Each piece read as a hexadecimal byte and written as two lowercase
/// digits; pieces that do not parse are skipped.
pub open spec fn mac_hex(parts: Seq<Seq<char>>) -> Seq<char>
    decreases parts.len(),
{
    if parts.len() == 0 {
        Seq::<char>::empty()
    } else {
        mac_hex(parts.drop_last()) + match parse_int(parts.last(), 16, 0, 255) {
            Ok(b) => hex2(b as u8),
            Err(_) => Seq::<char>::empty(),
        }
    }
}

/// Each piece read as a hexadecimal byte and written in decimal; pieces
/// that do not parse are skipped.
pub open spec fn net_parts(parts: Seq<Seq<char>>) -> Seq<Seq<char>>
    decreases parts.len(),
{
    if parts.len() == 0 {
        Seq::empty()
    } else {
        let r = net_parts(parts.drop_last());
        match parse_int(parts.last(), 16, 0, 255) {
            Ok(b) => r.push(dec(b as nat)),
            Err(_) => r,
        }
    }
}

/// The pieces joined with `.` between them.
pub open spec fn join_dot(ps: Seq<Seq<char>>) -> Seq<char>
    decreases ps.len(),
{
    if ps.len() == 0 {
        Seq::<char>::empty()
    } else if ps.len() == 1 {
        ps[0]
    } else {
        join_dot(ps.drop_last()) + seq!['.'] + ps.last()
    }
}

fn mac_hex_exec(parts: &Vec<Vec<char>>) -> (r: Vec<char>)
    ensures
        r@ == mac_hex(Seq::new(parts@.len(), |i: int| parts@[i]@)),
{
    let ghost ps = Seq::new(parts@.len(), |i: int| parts@[i]@);
    let mut out: Vec<char> = Vec::new();
    let mut i: usize = 0;
    while i < parts.len()
        invariant
            i <= parts@.len(),
            ps == Seq::new(parts@.len(), |i: int| parts@[i]@),
            out@ == mac_hex(ps.take(i as int)),
        decreases parts@.len() - i,
    {
        assert(ps.take(i + 1).drop_last() =~= ps.take(i as int));
        assert(ps.take(i + 1).last() == parts@[i as int]@);
        match crate::text::parse_unsigned(parts[i].as_slice(), 16, 255) {
            Ok(b) => {
                proof {
                    crate::text::lemma_parse_int_unsigned_bound(parts@[i as int]@, 16, 255);
                }
                crate::ber::push_hex2(&mut out, b as u8);
            },
            Err(_) => {
                assert(out@ =~= out@ + Seq::<char>::empty());
            },
        }
        i += 1;
    }
    assert(ps.take(ps.len() as int) =~= ps);
    out
}

fn filter_net_address(parts: &Vec<Vec<char>>) -> (r: Vec<char>)
    ensures
        r@ == join_dot(net_parts(Seq::new(parts@.len(), |i: int| parts@[i]@))),
{
    let ghost ps = Seq::new(parts@.len(), |i: int| parts@[i]@);
    let mut out: Vec<char> = Vec::new();
    let ghost mut kept: Seq<Seq<char>> = Seq::empty();
    let mut any = false;
    let mut i: usize = 0;
    while i < parts.len()
        invariant
            i <= parts@.len(),
            ps == Seq::new(parts@.len(), |i: int| parts@[i]@),
            kept == net_parts(ps.take(i as int)),
            any == (kept.len() > 0),
            out@ == join_dot(kept),
        decreases parts@.len() - i,
    {
        assert(ps.take(i + 1).drop_last() =~= ps.take(i as int));
        assert(ps.take(i + 1).last() == parts@[i as int]@);
        match crate::text::parse_unsigned(parts[i].as_slice(), 16, 255) {
            Ok(b) => {
                if any {
                    out.push('.');
                }
                any = true;
                crate::text::push_dec(&mut out, b);
                proof {
                    let k2 = kept.push(dec(b as nat));
                    assert(k2.drop_last() =~= kept);
                    if kept.len() == 0 {
                        assert(out@ =~= k2[0]);
                    }
                    kept = k2;
                }
            },
            Err(_) => {},
        }
        i += 1;
    }
    assert(ps.take(ps.len() as int) =~= ps);
    out
}

/// Quoted text loses its quotes; colon-separated hexadecimal bytes (a MAC
/// address) become their hex digits; anything else is kept.
pub open spec fn filter_string(v: Seq<char>) -> Seq<char> {
    if v.len() == 0 {
        v
    } else if v[0] == '"' && v.last() == '"' && v.len() >= 2 {
        v.subrange(1, v.len() - 1)
    } else if is_colon_hex(split_on(v, ':')) {
        mac_hex(split_on(v, ':'))
    } else {
        v
    }
}

fn filter_string_exec(v: &[char]) -> (r: Vec<char>)
    ensures
        r@ == filter_string(v@),
{
    let n = v.len();
    if n == 0 {
        return Vec::new();
    }
    if v[0] == '"' && v[n - 1] == '"' && n >= 2 {
        return sub_chars(v, 1, n - 1);
    }
    let parts = split_chars(v, ':');
    let ghost ps = split_on(v@, ':');
    assert(Seq::new(parts@.len(), |i: int| parts@[i]@) =~= ps);
    if is_colon_hex_exec(&parts) {
        mac_hex_exec(&parts)
    } else {
        copy_chars(v)
    }
}

/// The hex digits before a `[...]` annotation, without whitespace.
pub open spec fn filter_hex_string(v: Seq<char>) -> Seq<char> {
    match first_index_of(v, '[') {
        Some(p) => drop_ws(v.subrange(0, p)),
        None => drop_ws(v),
    }
}

/// A two-character word of hexadecimal digits.
pub open spec fn hex_pair(w: Seq<char>) -> bool {
    w.len() == 2 && is_hex_digit(w[0]) && is_hex_digit(w[1])
}

/// The leading two-digit hex words, concatenated.
pub open spec fn bits_concat(ws: Seq<Seq<char>>) -> Seq<char>
    decreases ws.len(),
{
    if ws.len() == 0 || !hex_pair(ws[0]) {
        Seq::<char>::empty()
    } else {
        ws[0] + bits_concat(ws.drop_first())
    }
}

fn filter_bits(v: &[char]) -> (r: Vec<char>)
    ensures
        r@ == bits_concat(words(v@)),
{
    let ws = words_exec(v);
    let ghost wv = words(v@);
    let mut out: Vec<char> = Vec::new();
    let mut i: usize = 0;
    assert(wv.skip(0) =~= wv);
    assert(Seq::<char>::empty() + bits_concat(wv) =~= bits_concat(wv));
    while i < ws.len()
        invariant
            i <= ws@.len(),
            ws@.len() == wv.len(),
            wv == words(v@),
            forall|k: int| 0 <= k < ws@.len() ==> #[trigger] ws@[k]@ == wv[k],
            out@ + bits_concat(wv.skip(i as int)) == bits_concat(wv),
        decreases ws@.len() - i,
    {
        let w = &ws[i];
        let ghost rest = wv.skip(i as int);
        assert(rest[0] == wv[i as int]);
        let ok = w.len() == 2 && {
            let a = w[0];
            let b = w[1];
            (('0' <= a && a <= '9') || ('a' <= a && a <= 'f') || ('A' <= a && a <= 'F')) && (('0'
                <= b && b <= '9') || ('a' <= b && b <= 'f') || ('A' <= b && b <= 'F'))
        };
        if !ok {
            assert(!hex_pair(rest[0]));
            assert(out@ + Seq::<char>::empty() =~= out@);
            return out;
        }
        assert(rest.drop_first() =~= wv.skip(i + 1));
        assert(hex_pair(rest[0]));
        let ghost before = out@;
        append_chars(&mut out, w.as_slice());
        assert(bits_concat(rest) == rest[0] + bits_concat(wv.skip(i + 1)));
        assert(out@ + bits_concat(wv.skip(i + 1)) =~= before + bits_concat(rest));
        i += 1;
    }
    assert(wv.skip(i as int) =~= Seq::<Seq<char>>::empty());
    assert(out@ + Seq::<char>::empty() =~= out@);
    out
}

/// A float (`Float: ...`) is kept; anything else loses its whitespace.
pub open spec fn filter_opaque(v: Seq<char>) -> Seq<char> {
    if starts_with(upper(v), "FLOAT:"@) {
        v
    } else {
        drop_ws(v)
    }
}

/// A `(number)` gives the number; anything else is kept.
pub open spec fn filter_timeticks(v: Seq<char>) -> Seq<char> {
    match paren_int(v) {
        Some(m) => int_text(m as int),
        None => v,
    }
}

// ─── Lines ───────────────────────────────────────────────────────────────────

/// A character allowed in a type label such as `Network Address:`.
pub open spec fn tag_char(c: char) -> bool {
    is_alnum(c) || c == '-' || c == ' ' || c == ':'
}

/// `TYPE: value` split into the label (with its colon) and the value with
/// leading spaces removed; `None` when the text before the first colon is
/// not a label.
pub open spec fn parse_walk_tag(s: Seq<char>) -> Option<(Seq<char>, Seq<char>)> {
    let t = trim_start(s);
    match first_index_of(t, ':') {
        None => None,
        Some(c) => {
            let label = t.subrange(0, c + 1);
            if forall|i: int| 0 <= i < label.len() ==> tag_char(#[trigger] label[i]) {
                Some((label, strip_spaces(t.subrange(c + 1, t.len() as int))))
            } else {
                None
            }
        },
    }
}

fn all_tag_chars(label: &[char]) -> (r: bool)
    ensures
        r == forall|i: int| 0 <= i < label@.len() ==> tag_char(#[trigger] label@[i]),
{
    let mut i: usize = 0;
    while i < label.len()
        invariant
            i <= label@.len(),
            forall|k: int| 0 <= k < i ==> tag_char(#[trigger] label@[k]),
        decreases label@.len() - i,
    {
        let ch = label[i];
        let ok = ('0' <= ch && ch <= '9') || ('a' <= ch && ch <= 'z') || ('A' <= ch && ch <= 'Z')
            || ch == '-' || ch == ' ' || ch == ':';
        if !ok {
            assert(!tag_char(label@[i as int]));
            return false;
        }
        i += 1;
    }
    true
}

fn parse_walk_tag_exec(s: &[char]) -> (r: Option<(Vec<char>, Vec<char>)>)
    ensures
        match parse_walk_tag(s@) {
            Some((a, b)) => r matches Some(x) && x.0@ == a && x.1@ == b,
            None => r is None,
        },
{
    let lo = crate::text::trim_start_index(s, 0);
    assert(s@.subrange(0, s.len() as int) =~= s@);
    let t = sub_chars(s, lo, s.len());
    let c = match crate::text::find_char(t.as_slice(), ':') {
        Some(c) => c,
        None => {
            return None;
        },
    };
    let label = sub_chars(t.as_slice(), 0, c + 1);
    if !all_tag_chars(label.as_slice()) {
        return None;
    }
    let start = skip_char(t.as_slice(), c + 1, ' ');
    let value = sub_chars(t.as_slice(), start, t.len());
    Some((label, value))
}

/// The label and raw value of the part after ` = `.
pub open spec fn walk_fields(v: Seq<char>) -> (Seq<char>, Seq<char>) {
    if v == "\"\""@ || v == "STRING:"@ {
        ("STRING:"@, Seq::<char>::empty())
    } else if v == "NULL"@ {
        ("NULL:"@, Seq::<char>::empty())
    } else {
        match parse_walk_tag(v) {
            Some(m) => m,
            None => ("TIMETICKS:"@, v),
        }
    }
}

/// The .snmprec tag of an snmpwalk type label, compared in uppercase.
pub open spec fn spec_walk_tag_to_snmprec(tag: Seq<char>) -> Option<Seq<char>> {
    let u = upper(tag);
    if u == "INTEGER:"@ {
        Some("2"@)
    } else if u == "STRING:"@ {
        Some("4"@)
    } else if u == "BITS:"@ {
        Some("4"@)
    } else if u == "HEX-STRING:"@ {
        Some("4x"@)
    } else if u == "GAUGE32:"@ {
        Some("66"@)
    } else if u == "COUNTER32:"@ {
        Some("65"@)
    } else if u == "COUNTER64:"@ {
        Some("70"@)
    } else if u == "IPADDRESS:"@ {
        Some("64"@)
    } else if u == "TIMETICKS:"@ {
        Some("67"@)
    } else if u == "OPAQUE:"@ {
        Some("68"@)
    } else if u == "OID:"@ {
        Some("6"@)
    } else if u == "NETWORK ADDRESS:"@ {
        Some("64"@)
    } else if u == "UNSIGNED32:"@ {
        Some("66"@)
    } else if u == "NULL:"@ {
        Some("5"@)
    } else {
        None
    }
}

/// Maps snmpwalk type labels to .snmprec numeric tags, case-insensitively.
pub fn walk_tag_to_snmprec(tag: &[char]) -> (r: Option<&'static str>)
    ensures
        match spec_walk_tag_to_snmprec(tag@) {
            Some(t) => r matches Some(x) && x@ == t,
            None => r is None,
        },
{
    let u = upper_exec(tag);
    let u = u.as_slice();
    if chars_eq_str(u, "INTEGER:") {
        Some("2")
    } else if chars_eq_str(u, "STRING:") {
        Some("4")
    } else if chars_eq_str(u, "BITS:") {
        Some("4")
    } else if chars_eq_str(u, "HEX-STRING:") {
        Some("4x")
    } else if chars_eq_str(u, "GAUGE32:") {
        Some("66")
    } else if chars_eq_str(u, "COUNTER32:") {
        Some("65")
    } else if chars_eq_str(u, "COUNTER64:") {
        Some("70")
    } else if chars_eq_str(u, "IPADDRESS:") {
        Some("64")
    } else if chars_eq_str(u, "TIMETICKS:") {
        Some("67")
    } else if chars_eq_str(u, "OPAQUE:") {
        Some("68")
    } else if chars_eq_str(u, "OID:") {
        Some("6")
    } else if chars_eq_str(u, "NETWORK ADDRESS:") {
        Some("64")
    } else if chars_eq_str(u, "UNSIGNED32:") {
        Some("66")
    } else if chars_eq_str(u, "NULL:") {
        Some("5")
    } else {
        None
    }
}

/// The value text after the filter of its (uppercased) type label.
pub open spec fn filter_value(up: Seq<char>, raw: Seq<char>) -> Seq<char> {
    let r = trim(raw);
    if up == "INTEGER:"@ {
        filter_integer(r)
    } else if up == "STRING:"@ {
        filter_string(r)
    } else if up == "HEX-STRING:"@ {
        filter_hex_string(r)
    } else if up == "BITS:"@ {
        bits_concat(words(r))
    } else if up == "GAUGE32:"@ {
        filter_integer(r)
    } else if up == "OPAQUE:"@ {
        filter_opaque(r)
    } else if up == "TIMETICKS:"@ {
        filter_timeticks(r)
    } else if up == "NETWORK ADDRESS:"@ {
        join_dot(net_parts(split_on(r, ':')))
    } else {
        r
    }
}

fn filter_value_exec(up: &[char], raw: &[char]) -> (r: Vec<char>)
    ensures
        r@ == filter_value(up@, raw@),
{
    let r = trim_chars(raw);
    let r = r.as_slice();
    if chars_eq_str(up, "INTEGER:") {
        filter_integer_exec(r)
    } else if chars_eq_str(up, "STRING:") {
        filter_string_exec(r)
    } else if chars_eq_str(up, "HEX-STRING:") {
        match crate::text::find_char(r, '[') {
            Some(p) => {
                let head = sub_chars(r, 0, p);
                drop_ws_exec(head.as_slice())
            },
            None => drop_ws_exec(r),
        }
    } else if chars_eq_str(up, "BITS:") {
        filter_bits(r)
    } else if chars_eq_str(up, "GAUGE32:") {
        filter_integer_exec(r)
    } else if chars_eq_str(up, "OPAQUE:") {
        let u = upper_exec(r);
        let f = chars_of("FLOAT:");
        if crate::text::has_prefix(u.as_slice(), f.as_slice()) {
            copy_chars(r)
        } else {
            drop_ws_exec(r)
        }
    } else if chars_eq_str(up, "TIMETICKS:") {
        match extract_parenthesized_integer(r) {
            Some(m) => crate::text::i64_text(m),
            None => copy_chars(r),
        }
    } else if chars_eq_str(up, "NETWORK ADDRESS:") {
        let parts = split_chars(r, ':');
        assert(Seq::new(parts@.len(), |i: int| parts@[i]@) =~= split_on(r@, ':'));
        filter_net_address(&parts)
    } else {
        copy_chars(r)
    }
}

/// `Wrong Type (should be ...): value` keeps only the value.
pub open spec fn skip_wrong_type(v: Seq<char>) -> Seq<char> {
    if starts_with(v, "Wrong Type (should be"@) {
        match find_pat(v, seq![':', ' ']) {
            Some(p) => v.subrange(p + 2, v.len() as int),
            None => v,
        }
    } else {
        v
    }
}

/// The end-of-view notice reads as an empty string.
pub open spec fn no_more_variables(v: Seq<char>) -> Seq<char> {
    if starts_with(v, "No more variables left in this MIB View"@) {
        "STRING: "@
    } else {
        v
    }
}

/// What parsing an snmpwalk line gives: the OID (leading dots removed), the
/// .snmprec tag and the filtered value, or the message of the error.
pub open spec fn walk_parse(line: Seq<u8>) -> Result<(Seq<char>, Seq<char>, Seq<char>), Seq<char>> {
    let t = trim(ascii_text(line));
    if t.len() == 0 || t[0] == '#' {
        Err("Empty or comment line"@)
    } else {
        match find_pat(t, seq![' ', '=', ' ']) {
            None => Err("Broken walk record (no ' = '): "@ + crate::text::debug_text(t)),
            Some(p) => {
                let oid = strip_dots(trim(t.subrange(0, p)));
                let v = no_more_variables(skip_wrong_type(t.subrange(p + 3, t.len() as int)));
                let (walk_tag, raw) = walk_fields(v);
                let up = upper(walk_tag);
                let tag = if up == "NETWORK ADDRESS:"@ {
                    "64"@
                } else {
                    match spec_walk_tag_to_snmprec(walk_tag) {
                        Some(x) => x,
                        None => "4"@,
                    }
                };
                Ok((oid, tag, filter_value(up, raw)))
            },
        }
    }
}

/// Grammar for snmpwalk output format files (.snmpwalk, .walk).
pub struct WalkGrammar;

impl Default for WalkGrammar {
    fn default() -> (r: WalkGrammar)
        ensures
            r == WalkGrammar,
    {
        WalkGrammar::new()
    }
}

impl WalkGrammar {
    pub fn new() -> (r: WalkGrammar) {
        WalkGrammar
    }
}

impl Grammar for WalkGrammar {
    /// Parse a snmpwalk line into (oid, tag, value) strings; the tag is the
    /// numeric .snmprec tag.
    fn parse(&self, line: &[u8]) -> (r: Result<(String, String, String), SnmpsimError>)
        ensures
            match walk_parse(line@) {
                Ok((o, t, v)) => r matches Ok(x) && x.0@ == o && x.1@ == t && x.2@ == v,
                Err(m) => r matches Err(e) && (e matches SnmpsimError::Parse(x) && x@ == m),
            },
    {
        let text = ascii_text_exec(line);
        let t = trim_chars(text.as_slice());
        if t.len() == 0 || t[0] == '#' {
            let m = chars_of("Empty or comment line");
            return Err(SnmpsimError::Parse(string_from(m.as_slice())));
        }
        let sep = vec![' ', '=', ' '];
        assert(sep@ =~= seq![' ', '=', ' ']);
        let p = match find_pat_exec(t.as_slice(), sep.as_slice()) {
            Some(p) => p,
            None => {
                return Err(quoted_error("Broken walk record (no ' = '): ", t.as_slice()));
            },
        };
        let n = t.len();
        // OID without surrounding whitespace and leading dots
        let oid_part = sub_chars(t.as_slice(), 0, p);
        let oid_trim = trim_chars(oid_part.as_slice());
        let lo = skip_char(oid_trim.as_slice(), 0, '.');
        assert(oid_trim@.subrange(0, oid_trim@.len() as int) =~= oid_trim@);
        let oid = sub_chars(oid_trim.as_slice(), lo, oid_trim.len());
        // The value part, with the special prefixes handled
        let v0 = sub_chars(t.as_slice(), p + 3, n);
        let wt = chars_of("Wrong Type (should be");
        let v1 = if crate::text::has_prefix(v0.as_slice(), wt.as_slice()) {
            let cs = vec![':', ' '];
            assert(cs@ =~= seq![':', ' ']);
            match find_pat_exec(v0.as_slice(), cs.as_slice()) {
                Some(q) => sub_chars(v0.as_slice(), q + 2, v0.len()),
                None => v0,
            }
        } else {
            v0
        };
        let nm = chars_of("No more variables left in this MIB View");
        let v2 = if crate::text::has_prefix(v1.as_slice(), nm.as_slice()) {
            chars_of("STRING: ")
        } else {
            v1
        };
        let (walk_tag, raw) = if chars_eq_str(v2.as_slice(), "\"\"") || chars_eq_str(
            v2.as_slice(),
            "STRING:",
        ) {
            (chars_of("STRING:"), Vec::new())
        } else if chars_eq_str(v2.as_slice(), "NULL") {
            (chars_of("NULL:"), Vec::new())
        } else {
            match parse_walk_tag_exec(v2.as_slice()) {
                Some(m) => m,
                None => (chars_of("TIMETICKS:"), v2),
            }
        };
        assert(walk_fields(v2@) == (walk_tag@, raw@));
        let up = upper_exec(walk_tag.as_slice());
        let value = filter_value_exec(up.as_slice(), raw.as_slice());
        let tag: &str = if chars_eq_str(up.as_slice(), "NETWORK ADDRESS:") {
            "64"
        } else {
            match walk_tag_to_snmprec(walk_tag.as_slice()) {
                Some(x) => x,
                None => "4",
            }
        };
        Ok(
            (
                string_from(oid.as_slice()),
                crate::text::copy_string(tag),
                string_from(value.as_slice()),
            ),
        )
    }

    fn build(&self, oid: &str, tag: &str, val: &str) -> (r: Result<Vec<u8>, SnmpsimError>)
        ensures
            r matches Err(e) && (e matches SnmpsimError::Parse(m) && m@
                == "WalkGrammar does not support build; convert to snmprec first"@),
    {
        let m = chars_of("WalkGrammar does not support build; convert to snmprec first");
        Err(SnmpsimError::Parse(string_from(m.as_slice())))
    }
}

} // verus!
