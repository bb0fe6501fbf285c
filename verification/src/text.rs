//! Character-level helpers shared by the parsers and formatters: Unicode
//! whitespace, trimming, splitting, integer parsing with the error kinds of
//! Rust's integer parsers, and decimal rendering.

use vstd::prelude::*;
use vstd::string::StringSliceAdditionalSpecFns;

verus! {

// ─── Strings and bytes ────────────────────────────────────────────────────────

/// `String::push`: appends one character to the end of the string.
#[verifier::external_body]
pub(crate) fn push_char(s: &mut String, c: char)
    ensures
        final(s)@ == old(s)@.push(c),
{
    s.push(c)
}

/// What a `std::str::Utf8Error` displays for bytes that are not valid UTF-8
/// (where the first invalid sequence starts, and its length).
pub uninterp spec fn utf8_error_text(b: Seq<u8>) -> Seq<char>;

/// `std::str::from_utf8`: the input as a string slice when it is valid UTF-8
/// (the slice views exactly the input bytes), else the message of its
/// error, which depends on the bytes alone; what the message says is not
/// stated.
#[verifier::external_body]
pub(crate) fn str_from_utf8(bytes: &[u8]) -> (r: Result<&str, String>)
    ensures
        r is Ok <==> vstd::utf8::valid_utf8(bytes@),
        r matches Ok(s) ==> s.spec_bytes() == bytes@,
        r matches Err(m) ==> m@ == utf8_error_text(bytes@),
{
    match std::str::from_utf8(bytes) {
        Ok(s) => Ok(s),
        Err(e) => Err(e.to_string()),
    }
}

/// What `{:?}` prints for a string slice: the text quoted, with characters
/// escaped as Rust's `Debug` formatting escapes them.
pub uninterp spec fn debug_text(s: Seq<char>) -> Seq<char>;

/// `<str as Debug>::fmt`, rendered into a `String`.
#[verifier::external_body]
pub(crate) fn debug_quoted(s: &str) -> (r: String)
    ensures
        r@ == debug_text(s@),
{
    format!("{:?}", s)
}

/// The characters that a line of bytes decodes to, when it is valid UTF-8.
pub open spec fn utf8_text(line: Seq<u8>) -> Option<Seq<char>> {
    if vstd::utf8::valid_utf8(line) {
        Some(vstd::utf8::decode_utf8(line))
    } else {
        None
    }
}

/// Decodes a line as UTF-8 into characters; on failure, the error message
/// of `std::str::Utf8Error`.
pub fn decode_line(line: &[u8]) -> (r: Result<Vec<char>, String>)
    ensures
        r is Ok <==> utf8_text(line@) is Some,
        r matches Ok(v) ==> utf8_text(line@) == Some(v@),
        r matches Err(m) ==> m@ == utf8_error_text(line@),
{
    match str_from_utf8(line) {
        Ok(s) => {
            proof {
                vstd::utf8::encode_utf8_decode_utf8(s@);
            }
            Ok(chars_of(s))
        },
        Err(m) => Err(m),
    }
}

/// The UTF-8 bytes of characters.
pub fn chars_to_utf8(v: &[char]) -> (r: Vec<u8>)
    ensures
        r@ == vstd::utf8::encode_utf8(v@),
{
    let s = string_from(v);
    let b = s.as_str().as_bytes();
    copy_bytes(b)
}

/// The characters of a string slice.
pub fn chars_of(s: &str) -> (v: Vec<char>)
    ensures
        v@ == s@,
{
    broadcast use vstd::string::group_string_axioms;

    let mut v: Vec<char> = Vec::new();
    for c in it: s.chars()
        invariant
            v@ == it.seq().take(it.index() as int),
            it.seq() == s@,
    {
        v.push(c);
    }
    v
}

/// A `String` holding exactly the given characters.
pub fn string_from(v: &[char]) -> (s: String)
    ensures
        s@ == v@,
{
    let mut s = String::new();
    let mut i: usize = 0;
    while i < v.len()
        invariant
            i <= v.len(),
            s@ == v@.take(i as int),
        decreases v.len() - i,
    {
        push_char(&mut s, v[i]);
        assert(v@.take(i as int).push(v@[i as int]) =~= v@.take(i + 1));
        i += 1;
    }
    assert(v@.take(v.len() as int) =~= v@);
    s
}

/// A copy of a string slice.
pub fn copy_string(s: &str) -> (r: String)
    ensures
        r@ == s@,
{
    let v = chars_of(s);
    string_from(v.as_slice())
}

/// A copy of a character sequence.
pub fn copy_chars(v: &[char]) -> (r: Vec<char>)
    ensures
        r@ == v@,
{
    let mut r: Vec<char> = Vec::new();
    let mut i: usize = 0;
    while i < v.len()
        invariant
            i <= v.len(),
            r@ == v@.take(i as int),
        decreases v.len() - i,
    {
        r.push(v[i]);
        assert(v@.take(i as int).push(v@[i as int]) =~= v@.take(i + 1));
        i += 1;
    }
    assert(v@.take(v.len() as int) =~= v@);
    r
}

/// Appends characters to a vector.
pub fn append_chars(out: &mut Vec<char>, v: &[char])
    ensures
        final(out)@ == old(out)@ + v@,
{
    let mut i: usize = 0;
    while i < v.len()
        invariant
            i <= v.len(),
            out@ == old(out)@ + v@.take(i as int),
        decreases v.len() - i,
    {
        out.push(v[i]);
        assert(old(out)@ + v@.take(i as int).push(v@[i as int]) =~= old(out)@ + v@.take(i + 1));
        i += 1;
    }
    assert(v@.take(v.len() as int) =~= v@);
}

/// Appends the characters of a string slice to a vector.
pub fn append_str(out: &mut Vec<char>, s: &str)
    ensures
        final(out)@ == old(out)@ + s@,
{
    let v = chars_of(s);
    append_chars(out, v.as_slice());
}

/// Bytes of a slice copied into a vector.
pub fn copy_bytes(v: &[u8]) -> (r: Vec<u8>)
    ensures
        r@ == v@,
{
    let mut r: Vec<u8> = Vec::new();
    let mut i: usize = 0;
    while i < v.len()
        invariant
            i <= v.len(),
            r@ == v@.take(i as int),
        decreases v.len() - i,
    {
        r.push(v[i]);
        assert(v@.take(i as int).push(v@[i as int]) =~= v@.take(i + 1));
        i += 1;
    }
    assert(v@.take(v.len() as int) =~= v@);
    r
}

/// Appends bytes to a vector.
pub fn append_bytes(out: &mut Vec<u8>, v: &[u8])
    ensures
        final(out)@ == old(out)@ + v@,
{
    let mut i: usize = 0;
    while i < v.len()
        invariant
            i <= v.len(),
            out@ == old(out)@ + v@.take(i as int),
        decreases v.len() - i,
    {
        out.push(v[i]);
        assert(old(out)@ + v@.take(i as int).push(v@[i as int]) =~= old(out)@ + v@.take(i + 1));
        i += 1;
    }
    assert(v@.take(v.len() as int) =~= v@);
}

/// Equality of two string slices, character by character.
pub fn str_eq(a: &str, b: &str) -> (r: bool)
    ensures
        r == (a@ == b@),
{
    let x = chars_of(a);
    let y = chars_of(b);
    chars_equal(x.as_slice(), y.as_slice())
}

/// Equality of characters with a string slice.
pub fn chars_eq_str(a: &[char], b: &str) -> (r: bool)
    ensures
        r == (a@ == b@),
{
    let y = chars_of(b);
    chars_equal(a, y.as_slice())
}

/// Character-by-character equality of two sequences.
pub fn chars_equal(a: &[char], b: &[char]) -> (r: bool)
    ensures
        r == (a@ == b@),
{
    if a.len() != b.len() {
        return false;
    }
    let mut i: usize = 0;
    while i < a.len()
        invariant
            i <= a.len(),
            a.len() == b.len(),
            forall|j: int| 0 <= j < i ==> a@[j] == b@[j],
        decreases a.len() - i,
    {
        if a[i] != b[i] {
            return false;
        }
        i += 1;
    }
    assert(a@ =~= b@);
    true
}

/// True if `s` begins with `p`.
pub open spec fn starts_with<A>(s: Seq<A>, p: Seq<A>) -> bool {
    p.len() <= s.len() && s.subrange(0, p.len() as int) == p
}

/// True if `s` ends with `p`.
pub open spec fn ends_with<A>(s: Seq<A>, p: Seq<A>) -> bool {
    p.len() <= s.len() && s.subrange(s.len() - p.len(), s.len() as int) == p
}

pub fn has_prefix(s: &[char], p: &[char]) -> (r: bool)
    ensures
        r == starts_with(s@, p@),
{
    if p.len() > s.len() {
        return false;
    }
    let mut i: usize = 0;
    while i < p.len()
        invariant
            i <= p.len() <= s.len(),
            forall|j: int| 0 <= j < i ==> s@[j] == p@[j],
        decreases p.len() - i,
    {
        if s[i] != p[i] {
            assert(s@.subrange(0, p.len() as int)[i as int] != p@[i as int]);
            return false;
        }
        i += 1;
    }
    assert(s@.subrange(0, p.len() as int) =~= p@);
    true
}

pub fn has_suffix(s: &[char], p: &[char]) -> (r: bool)
    ensures
        r == ends_with(s@, p@),
{
    if p.len() > s.len() {
        return false;
    }
    let off = s.len() - p.len();
    let mut i: usize = 0;
    while i < p.len()
        invariant
            i <= p.len() <= s.len(),
            off == s.len() - p.len(),
            forall|j: int| 0 <= j < i ==> s@[off + j] == p@[j],
        decreases p.len() - i,
    {
        if s[off + i] != p[i] {
            assert(s@.subrange(off as int, s.len() as int)[i as int] != p@[i as int]);
            return false;
        }
        i += 1;
    }
    assert(s@.subrange(off as int, s.len() as int) =~= p@);
    true
}

/// A sub-range of a character slice, copied.
pub fn sub_chars(s: &[char], lo: usize, hi: usize) -> (r: Vec<char>)
    requires
        lo <= hi <= s.len(),
    ensures
        r@ == s@.subrange(lo as int, hi as int),
{
    let mut r: Vec<char> = Vec::new();
    let mut i: usize = lo;
    while i < hi
        invariant
            lo <= i <= hi <= s.len(),
            r@ == s@.subrange(lo as int, i as int),
        decreases hi - i,
    {
        r.push(s[i]);
        assert(s@.subrange(lo as int, i as int).push(s@[i as int]) =~= s@.subrange(
            lo as int,
            i + 1,
        ));
        i += 1;
    }
    r
}

/// Position of the first occurrence of `c`, if any.
pub open spec fn first_index_of(s: Seq<char>, c: char) -> Option<int>
    decreases s.len(),
{
    if s.len() == 0 {
        None
    } else if s.last() == c {
        match first_index_of(s.drop_last(), c) {
            Some(i) => Some(i),
            None => Some(s.len() - 1),
        }
    } else {
        first_index_of(s.drop_last(), c)
    }
}

/// The first index of a character holds it, and no earlier index does.
pub proof fn lemma_first_index_of(s: Seq<char>, c: char)
    ensures
        first_index_of(s, c) matches Some(i) ==> 0 <= i < s.len() && s[i] == c && forall|
            j: int,
        |
            0 <= j < i ==> s[j] != c,
        first_index_of(s, c) is None ==> forall|j: int| 0 <= j < s.len() ==> s[j] != c,
    decreases s.len(),
{
    if s.len() > 0 {
        let t = s.drop_last();
        lemma_first_index_of(t, c);
        assert(forall|j: int| 0 <= j < t.len() ==> t[j] == s[j]);
    }
}

/// A prefix without the character has no index of it.
pub proof fn lemma_first_index_of_take(s: Seq<char>, c: char, k: int)
    requires
        0 <= k <= s.len(),
        forall|j: int| 0 <= j < k ==> s[j] != c,
    ensures
        first_index_of(s.take(k), c) is None,
    decreases k,
{
    if k > 0 {
        assert(s.take(k).drop_last() =~= s.take(k - 1));
        lemma_first_index_of_take(s, c, k - 1);
    }
}

/// An occurrence with none before it is the first index.
pub proof fn lemma_first_index_of_unique(s: Seq<char>, c: char, i: int)
    requires
        0 <= i < s.len(),
        s[i] == c,
        forall|j: int| 0 <= j < i ==> s[j] != c,
    ensures
        first_index_of(s, c) == Some(i),
{
    lemma_first_index_of(s, c);
}

/// Finds the first occurrence of `c`.
pub fn find_char(s: &[char], c: char) -> (r: Option<usize>)
    ensures
        r matches Some(i) ==> first_index_of(s@, c) == Some(i as int) && i < s@.len() && s@[i as int]
            == c,
        r is None ==> first_index_of(s@, c) is None,
{
    let mut i: usize = 0;
    while i < s.len()
        invariant
            i <= s.len(),
            forall|j: int| 0 <= j < i ==> s@[j] != c,
        decreases s.len() - i,
    {
        if s[i] == c {
            proof {
                lemma_first_index_of_unique(s@, c, i as int);
            }
            return Some(i);
        }
        i += 1;
    }
    proof {
        lemma_first_index_of_take(s@, c, s@.len() as int);
        assert(s@.take(s@.len() as int) =~= s@);
    }
    None
}

// ─── Whitespace ──────────────────────────────────────────────────────────────

/// The Unicode `White_Space` property, which `char::is_whitespace` tests.
pub open spec fn is_ws(c: char) -> bool {
    let u = c as u32;
    (0x09 <= u <= 0x0D) || u == 0x20 || u == 0x85 || u == 0xA0 || u == 0x1680 || (0x2000 <= u
        <= 0x200A) || u == 0x2028 || u == 0x2029 || u == 0x202F || u == 0x205F || u == 0x3000
}

pub fn is_whitespace(c: char) -> (r: bool)
    ensures
        r == is_ws(c),
{
    let u = c as u32;
    (0x09 <= u && u <= 0x0D) || u == 0x20 || u == 0x85 || u == 0xA0 || u == 0x1680 || (0x2000 <= u
        && u <= 0x200A) || u == 0x2028 || u == 0x2029 || u == 0x202F || u == 0x205F || u == 0x3000
}

/// `s` with leading whitespace removed.
pub open spec fn trim_start(s: Seq<char>) -> Seq<char>
    decreases s.len(),
{
    if s.len() > 0 && is_ws(s[0]) {
        trim_start(s.drop_first())
    } else {
        s
    }
}

/// `s` with trailing whitespace removed.
pub open spec fn trim_end(s: Seq<char>) -> Seq<char>
    decreases s.len(),
{
    if s.len() > 0 && is_ws(s.last()) {
        trim_end(s.drop_last())
    } else {
        s
    }
}

/// `str::trim`: whitespace removed from both ends.
pub open spec fn trim(s: Seq<char>) -> Seq<char> {
    trim_end(trim_start(s))
}

/// Trimming never lengthens a text, and a whitespace at the start (resp. end)
/// makes `trim_start` (resp. `trim_end`) strictly shorter.
pub proof fn lemma_trim_len(s: Seq<char>)
    ensures
        trim_start(s).len() <= s.len(),
        trim_end(s).len() <= s.len(),
        s.len() > 0 && is_ws(s[0]) ==> trim_start(s).len() < s.len(),
        s.len() > 0 && is_ws(s.last()) ==> trim_end(s).len() < s.len(),
    decreases s.len(),
{
    if s.len() > 0 {
        lemma_trim_len(s.drop_first());
        lemma_trim_len(s.drop_last());
    }
}

/// A non-empty text that trimming leaves unchanged starts and ends with a
/// character that is not whitespace.
pub proof fn lemma_trimmed_ends(s: Seq<char>)
    requires
        s.len() > 0,
        trim(s) == s,
    ensures
        !is_ws(s[0]),
        !is_ws(s.last()),
{
    lemma_trim_len(s);
    lemma_trim_len(trim_start(s));
    if !is_ws(s[0]) {
        assert(trim_start(s) == s);
    }
}

/// A text whose first and last characters are not whitespace is its own trim.
pub proof fn lemma_trim_fixed(s: Seq<char>)
    requires
        s.len() > 0,
        !is_ws(s[0]),
        !is_ws(s.last()),
    ensures
        trim(s) == s,
{
    assert(trim_start(s) == s);
}

/// Index of the first non-whitespace character (or the length).
pub fn trim_start_index(s: &[char], from: usize) -> (lo: usize)
    requires
        from <= s.len(),
    ensures
        from <= lo <= s.len(),
        trim_start(s@.subrange(from as int, s.len() as int)) == s@.subrange(lo as int, s.len() as int),
{
    let mut lo = from;
    while lo < s.len() && is_whitespace(s[lo])
        invariant
            from <= lo <= s.len(),
            trim_start(s@.subrange(from as int, s.len() as int)) == trim_start(
                s@.subrange(lo as int, s.len() as int),
            ),
        decreases s.len() - lo,
    {
        assert(s@.subrange(lo as int, s.len() as int).drop_first() =~= s@.subrange(
            lo + 1,
            s.len() as int,
        ));
        lo += 1;
    }
    lo
}

/// Index one past the last non-whitespace character in `s[lo..hi]` (or `lo`).
pub fn trim_end_index(s: &[char], lo: usize, hi: usize) -> (r: usize)
    requires
        lo <= hi <= s.len(),
    ensures
        lo <= r <= hi,
        trim_end(s@.subrange(lo as int, hi as int)) == s@.subrange(lo as int, r as int),
{
    let mut r = hi;
    while r > lo && is_whitespace(s[r - 1])
        invariant
            lo <= r <= hi <= s.len(),
            trim_end(s@.subrange(lo as int, hi as int)) == trim_end(
                s@.subrange(lo as int, r as int),
            ),
        decreases r - lo,
    {
        assert(s@.subrange(lo as int, r as int).drop_last() =~= s@.subrange(lo as int, r - 1));
        r -= 1;
    }
    r
}

/// Bounds of `str::trim` applied to `s`.
pub fn trim_bounds(s: &[char]) -> (r: (usize, usize))
    ensures
        r.0 <= r.1 <= s.len(),
        trim(s@) == s@.subrange(r.0 as int, r.1 as int),
{
    let lo = trim_start_index(s, 0);
    assert(s@.subrange(0, s.len() as int) =~= s@);
    let hi = trim_end_index(s, lo, s.len());
    (lo, hi)
}

/// `str::trim` applied to `s`, copied.
pub fn trim_chars(s: &[char]) -> (r: Vec<char>)
    ensures
        r@ == trim(s@),
{
    let (lo, hi) = trim_bounds(s);
    sub_chars(s, lo, hi)
}

// ─── Splitting ───────────────────────────────────────────────────────────────

/// `str::split(sep)`: the pieces between separators, in order (at least one).
pub open spec fn split_on(s: Seq<char>, sep: char) -> Seq<Seq<char>>
    decreases s.len(),
{
    if s.len() == 0 {
        seq![Seq::<char>::empty()]
    } else {
        let p = split_on(s.drop_last(), sep);
        if s.last() == sep {
            p.push(Seq::<char>::empty())
        } else {
            p.update(p.len() - 1, p.last().push(s.last()))
        }
    }
}

/// Splitting always gives at least one piece.
pub proof fn lemma_split_on_len(s: Seq<char>, sep: char)
    ensures
        split_on(s, sep).len() >= 1,
    decreases s.len(),
{
    if s.len() > 0 {
        lemma_split_on_len(s.drop_last(), sep);
    }
}

/// Splits on every occurrence of `sep`.
pub fn split_chars(s: &[char], sep: char) -> (r: Vec<Vec<char>>)
    ensures
        r@.len() == split_on(s@, sep).len(),
        forall|i: int| 0 <= i < r@.len() ==> #[trigger] r@[i]@ == split_on(s@, sep)[i],
{
    let mut parts: Vec<Vec<char>> = Vec::new();
    let mut cur: Vec<char> = Vec::new();
    let mut i: usize = 0;
    while i < s.len()
        invariant
            i <= s.len(),
            parts@.len() + 1 == split_on(s@.take(i as int), sep).len(),
            forall|k: int|
                0 <= k < parts@.len() ==> #[trigger] parts@[k]@ == split_on(s@.take(i as int), sep)[k],
            cur@ == split_on(s@.take(i as int), sep).last(),
        decreases s.len() - i,
    {
        proof {
            assert(s@.take(i + 1).drop_last() =~= s@.take(i as int));
            lemma_split_on_len(s@.take(i as int), sep);
        }
        if s[i] == sep {
            let done = cur;
            parts.push(done);
            cur = Vec::new();
        } else {
            cur.push(s[i]);
        }
        i += 1;
    }
    parts.push(cur);
    assert(s@.take(s.len() as int) =~= s@);
    parts
}

/// `str::splitn(3, sep)`: at most three pieces; the third keeps later separators.
pub open spec fn splitn3(s: Seq<char>, sep: char) -> Seq<Seq<char>> {
    match first_index_of(s, sep) {
        None => seq![s],
        Some(i) => {
            let rest = s.subrange(i + 1, s.len() as int);
            match first_index_of(rest, sep) {
                None => seq![s.subrange(0, i), rest],
                Some(j) => seq![
                    s.subrange(0, i),
                    rest.subrange(0, j),
                    rest.subrange(j + 1, rest.len() as int),
                ],
            }
        },
    }
}

// ─── Lossy decoding ──────────────────────────────────────────────────────────

/// What `String::from_utf8_lossy` makes of bytes.
pub uninterp spec fn lossy_text(b: Seq<u8>) -> Seq<char>;

/// `String::from_utf8_lossy`: the text of the bytes, with each invalid
/// sequence replaced by U+FFFD; valid UTF-8 decodes as it is.
#[verifier::external_body]
pub(crate) fn utf8_lossy(b: &[u8]) -> (r: String)
    ensures
        r@ == lossy_text(b@),
        vstd::utf8::valid_utf8(b@) ==> r@ == vstd::utf8::decode_utf8(b@),
{
    String::from_utf8_lossy(b).into_owned()
}

// ─── Integers ────────────────────────────────────────────────────────────────

/// Why an integer could not be parsed (the kinds of `std::num::IntErrorKind`
/// that the decimal and hexadecimal parsers of Rust report).
#[derive(Clone, Copy, Debug, PartialEq, Eq)]
pub enum IntErrorKind {
    Empty,
    InvalidDigit,
    PosOverflow,
    NegOverflow,
}

/// Value of `c` as a digit in `radix` (10 or 16), as `char::to_digit` reads it.
pub open spec fn digit_value(c: char, radix: int) -> Option<int> {
    let u = c as u32;
    if 48 <= u <= 57 && u - 48 < radix {
        Some(u - 48)
    } else if radix > 10 && 97 <= u && u - 97 + 10 < radix {
        Some(u - 97 + 10)
    } else if radix > 10 && 65 <= u && u - 65 + 10 < radix {
        Some(u - 65 + 10)
    } else {
        None
    }
}

/// Left-to-right accumulation of non-negative digits, failing at the first
/// bad digit or at the first step that exceeds `max`.
pub open spec fn scan_up(d: Seq<char>, radix: int, acc: int, max: int) -> Result<int, IntErrorKind>
    decreases d.len(),
{
    if d.len() == 0 {
        Ok(acc)
    } else {
        match digit_value(d[0], radix) {
            None => Err(IntErrorKind::InvalidDigit),
            Some(x) => if acc * radix + x > max {
                Err(IntErrorKind::PosOverflow)
            } else {
                scan_up(d.drop_first(), radix, acc * radix + x, max)
            },
        }
    }
}

/// Left-to-right accumulation of a negative number, failing at the first bad
/// digit or at the first step below `min`.
pub open spec fn scan_down(d: Seq<char>, radix: int, acc: int, min: int) -> Result<int, IntErrorKind>
    decreases d.len(),
{
    if d.len() == 0 {
        Ok(acc)
    } else {
        match digit_value(d[0], radix) {
            None => Err(IntErrorKind::InvalidDigit),
            Some(x) => if acc * radix - x < min {
                Err(IntErrorKind::NegOverflow)
            } else {
                scan_down(d.drop_first(), radix, acc * radix - x, min)
            },
        }
    }
}

/// What `from_str_radix` returns for an integer type with bounds `min..=max`
/// (a `-` sign is only read when `min < 0`).
pub open spec fn parse_int(s: Seq<char>, radix: int, min: int, max: int) -> Result<int, IntErrorKind> {
    if s.len() == 0 {
        Err(IntErrorKind::Empty)
    } else if (s[0] == '+' || s[0] == '-') && s.len() == 1 {
        Err(IntErrorKind::InvalidDigit)
    } else if s[0] == '+' {
        scan_up(s.drop_first(), radix, 0, max)
    } else if s[0] == '-' && min < 0 {
        scan_down(s.drop_first(), radix, 0, min)
    } else {
        scan_up(s, radix, 0, max)
    }
}

pub fn digit_of(c: char, radix: u32) -> (r: Option<u32>)
    requires
        radix == 10 || radix == 16,
    ensures
        r matches Some(x) ==> digit_value(c, radix as int) == Some(x as int),
        r is None ==> digit_value(c, radix as int) is None,
{
    let u = c as u32;
    if 48 <= u && u <= 57 {
        Some(u - 48)
    } else if radix > 10 && 97 <= u && u <= 102 {
        Some(u - 97 + 10)
    } else if radix > 10 && 65 <= u && u <= 70 {
        Some(u - 65 + 10)
    } else {
        None
    }
}

proof fn lemma_scan_up_bound(d: Seq<char>, radix: int, acc: int, max: int)
    requires
        0 <= acc <= max,
    ensures
        scan_up(d, radix, acc, max) matches Ok(v) ==> 0 <= v <= max,
    decreases d.len(),
{
    if d.len() > 0 {
        if let Some(x) = digit_value(d[0], radix) {
            if acc * radix + x <= max {
                assert(acc * radix >= 0) by (nonlinear_arith)
                    requires
                        acc >= 0,
                        radix >= 0,
                ;
                lemma_scan_up_bound(d.drop_first(), radix, acc * radix + x, max);
            }
        }
    }
}

/// A successful unsigned parse lies within the type's bounds.
pub proof fn lemma_parse_int_unsigned_bound(s: Seq<char>, radix: int, max: int)
    requires
        max >= 0,
    ensures
        parse_int(s, radix, 0, max) matches Ok(v) ==> 0 <= v <= max,
{
    if s.len() > 0 {
        if s[0] == '+' {
            lemma_scan_up_bound(s.drop_first(), radix, 0, max);
        } else {
            lemma_scan_up_bound(s, radix, 0, max);
        }
    }
}

/// Accumulates non-negative digits of `s[from..]`.
fn scan_up_exec(s: &[char], from: usize, radix: u32, max: u64) -> (r: Result<u64, IntErrorKind>)
    requires
        from <= s.len(),
        radix == 10 || radix == 16,
    ensures
        r matches Ok(v) ==> scan_up(s@.skip(from as int), radix as int, 0, max as int) == Ok::<
            int,
            IntErrorKind,
        >(v as int),
        r matches Err(e) ==> scan_up(s@.skip(from as int), radix as int, 0, max as int) == Err::<
            int,
            IntErrorKind,
        >(e),
{
    let mut acc: u64 = 0;
    let mut i: usize = from;
    while i < s.len()
        invariant
            from <= i <= s.len(),
            radix == 10 || radix == 16,
            acc <= max,
            scan_up(s@.skip(from as int), radix as int, 0, max as int) == scan_up(
                s@.skip(i as int),
                radix as int,
                acc as int,
                max as int,
            ),
        decreases s.len() - i,
    {
        assert(s@.skip(i as int).drop_first() =~= s@.skip(i + 1));
        assert(s@.skip(i as int)[0] == s@[i as int]);
        match digit_of(s[i], radix) {
            None => {
                return Err(IntErrorKind::InvalidDigit);
            },
            Some(x) => {
                assert((acc as int) * (radix as int) <= 16 * 0xffff_ffff_ffff_ffffint) by (nonlinear_arith)
                    requires
                        acc <= u64::MAX,
                        radix <= 16,
                ;
                let wide: u128 = (acc as u128) * (radix as u128) + (x as u128);
                assert(wide == acc * radix + x) by (nonlinear_arith)
                    requires
                        wide == (acc as u128) * (radix as u128) + (x as u128),
                        acc <= u64::MAX,
                        radix <= 16,
                        x < 16,
                ;
                if wide > max as u128 {
                    return Err(IntErrorKind::PosOverflow);
                }
                acc = wide as u64;
            },
        }
        i += 1;
    }
    assert(s@.skip(i as int).len() == 0);
    Ok(acc)
}

/// Accumulates negative digits of `s[from..]`.
fn scan_down_exec(s: &[char], from: usize, radix: u32, min: i64) -> (r: Result<i64, IntErrorKind>)
    requires
        from <= s.len(),
        radix == 10 || radix == 16,
        min <= 0,
    ensures
        r matches Ok(v) ==> scan_down(s@.skip(from as int), radix as int, 0, min as int) == Ok::<
            int,
            IntErrorKind,
        >(v as int),
        r matches Err(e) ==> scan_down(s@.skip(from as int), radix as int, 0, min as int) == Err::<
            int,
            IntErrorKind,
        >(e),
{
    let mut acc: i64 = 0;
    let mut i: usize = from;
    while i < s.len()
        invariant
            from <= i <= s.len(),
            radix == 10 || radix == 16,
            min <= acc <= 0,
            scan_down(s@.skip(from as int), radix as int, 0, min as int) == scan_down(
                s@.skip(i as int),
                radix as int,
                acc as int,
                min as int,
            ),
        decreases s.len() - i,
    {
        assert(s@.skip(i as int).drop_first() =~= s@.skip(i + 1));
        assert(s@.skip(i as int)[0] == s@[i as int]);
        match digit_of(s[i], radix) {
            None => {
                return Err(IntErrorKind::InvalidDigit);
            },
            Some(x) => {
                assert(16 * (i64::MIN as int) <= (acc as int) * (radix as int) <= 0) by (nonlinear_arith)
                    requires
                        i64::MIN <= acc <= 0,
                        0 <= radix <= 16,
                ;
                let p: i128 = (acc as i128) * (radix as i128);
                let wide: i128 = p - (x as i128);
                assert(wide == acc * radix - x) by (nonlinear_arith)
                    requires
                        wide == (acc as i128) * (radix as i128) - (x as i128),
                        i64::MIN <= acc <= 0,
                        radix <= 16,
                        x < 16,
                ;
                if wide < min as i128 {
                    return Err(IntErrorKind::NegOverflow);
                }
                assert(wide <= 0) by (nonlinear_arith)
                    requires
                        wide == acc * radix - x,
                        acc <= 0,
                        radix >= 0,
                        x >= 0,
                ;
                acc = wide as i64;
            },
        }
        i += 1;
    }
    assert(s@.skip(i as int).len() == 0);
    Ok(acc)
}

/// Unsigned `from_str_radix` for a type whose largest value is `max`.
pub fn parse_unsigned(s: &[char], radix: u32, max: u64) -> (r: Result<u64, IntErrorKind>)
    requires
        radix == 10 || radix == 16,
    ensures
        r matches Ok(v) ==> parse_int(s@, radix as int, 0, max as int) == Ok::<int, IntErrorKind>(
            v as int,
        ),
        r matches Err(e) ==> parse_int(s@, radix as int, 0, max as int) == Err::<int, IntErrorKind>(
            e,
        ),
{
    if s.len() == 0 {
        return Err(IntErrorKind::Empty);
    }
    if (s[0] == '+' || s[0] == '-') && s.len() == 1 {
        return Err(IntErrorKind::InvalidDigit);
    }
    if s[0] == '+' {
        assert(s@.skip(1) =~= s@.drop_first());
        scan_up_exec(s, 1, radix, max)
    } else {
        assert(s@.skip(0) =~= s@);
        scan_up_exec(s, 0, radix, max)
    }
}

/// `i64::from_str` (decimal).
pub fn parse_i64(s: &[char]) -> (r: Result<i64, IntErrorKind>)
    ensures
        r matches Ok(v) ==> parse_int(s@, 10, i64::MIN as int, i64::MAX as int) == Ok::<
            int,
            IntErrorKind,
        >(v as int),
        r matches Err(e) ==> parse_int(s@, 10, i64::MIN as int, i64::MAX as int) == Err::<
            int,
            IntErrorKind,
        >(e),
{
    if s.len() == 0 {
        return Err(IntErrorKind::Empty);
    }
    if (s[0] == '+' || s[0] == '-') && s.len() == 1 {
        return Err(IntErrorKind::InvalidDigit);
    }
    if s[0] == '-' {
        assert(s@.skip(1) =~= s@.drop_first());
        scan_down_exec(s, 1, 10, i64::MIN)
    } else {
        let r = if s[0] == '+' {
            assert(s@.skip(1) =~= s@.drop_first());
            scan_up_exec(s, 1, 10, i64::MAX as u64)
        } else {
            assert(s@.skip(0) =~= s@);
            scan_up_exec(s, 0, 10, i64::MAX as u64)
        };
        match r {
            Ok(v) => {
                proof {
                    if s[0] == '+' {
                        lemma_scan_up_bound(s@.drop_first(), 10, 0, i64::MAX as int);
                    } else {
                        lemma_scan_up_bound(s@, 10, 0, i64::MAX as int);
                    }
                }
                Ok(v as i64)
            },
            Err(e) => Err(e),
        }
    }
}

// ─── Decimal rendering ───────────────────────────────────────────────────────

/// The ASCII character of a digit value below 16 (lowercase for 10..15).
pub open spec fn digit_char(d: int) -> char {
    if d < 10 {
        ((d + 48) as u8) as char
    } else {
        ((d + 87) as u8) as char
    }
}

pub fn digit_char_exec(d: u8) -> (c: char)
    requires
        d < 16,
    ensures
        c == digit_char(d as int),
{
    if d < 10 {
        (d + 48) as char
    } else {
        (d + 87) as char
    }
}

/// Decimal digits of `n`, most significant first, without leading zeros.
pub open spec fn dec(n: nat) -> Seq<char>
    decreases n,
{
    if n < 10 {
        seq![digit_char(n as int)]
    } else {
        dec(n / 10).push(digit_char((n % 10) as int))
    }
}

/// Decimal text of a signed integer, with a leading `-` when negative.
pub open spec fn int_text(i: int) -> Seq<char> {
    if i < 0 {
        seq!['-'] + dec((-i) as nat)
    } else {
        dec(i as nat)
    }
}

/// Appends the decimal digits of `n`.
pub fn push_dec(out: &mut Vec<char>, n: u64)
    ensures
        final(out)@ == old(out)@ + dec(n as nat),
    decreases n,
{
    if n >= 10 {
        push_dec(out, n / 10);
    }
    let c = digit_char_exec((n % 10) as u8);
    out.push(c);
    proof {
        if n >= 10 {
            assert(old(out)@ + dec((n / 10) as nat) + seq![c] =~= old(out)@ + dec(n as nat));
        } else {
            assert(old(out)@.push(c) =~= old(out)@ + dec(n as nat));
        }
    }
}

/// Decimal text of an unsigned value.
pub fn u64_text(n: u64) -> (r: Vec<char>)
    ensures
        r@ == dec(n as nat),
{
    let mut out: Vec<char> = Vec::new();
    push_dec(&mut out, n);
    assert(Seq::<char>::empty() + dec(n as nat) =~= dec(n as nat));
    out
}

/// Decimal text of a signed value.
pub fn i64_text(n: i64) -> (r: Vec<char>)
    ensures
        r@ == int_text(n as int),
{
    let mut out: Vec<char> = Vec::new();
    if n < 0 {
        out.push('-');
        let m: u64 = if n == i64::MIN {
            9223372036854775808u64
        } else {
            (-n) as u64
        };
        push_dec(&mut out, m);
        assert(seq!['-'] + dec(m as nat) =~= int_text(n as int));
    } else {
        push_dec(&mut out, n as u64);
        assert(Seq::<char>::empty() + dec(n as nat) =~= int_text(n as int));
    }
    out
}


// ─── Lemmas on digits, scanning and splitting ────────────────────────────────

/// A decimal digit character reads back as its value, and is no sign or dot.
pub proof fn lemma_digit_char_value(k: int)
    requires
        0 <= k < 10,
    ensures
        digit_value(digit_char(k), 10) == Some(k),
        digit_value(digit_char(k), 16) == Some(k),
        digit_char(k) != '.',
        digit_char(k) != '+',
        digit_char(k) != '-',
        !is_ws(digit_char(k)),
{
    assert(((k + 48) as u8) as char as u32 == k + 48);
}

/// Decimal text is never empty and begins with a digit.
pub proof fn lemma_dec_shape(n: nat)
    ensures
        dec(n).len() >= 1,
        digit_value(dec(n)[0], 10) is Some,
        forall|i: int| 0 <= i < dec(n).len() ==> #[trigger] digit_value(dec(n)[i], 10) is Some,
        forall|i: int| 0 <= i < dec(n).len() ==> dec(n)[i] != '.' && dec(n)[i] != '+' && dec(n)[i] != '-' && !is_ws(dec(n)[i]),
    decreases n,
{
    if n < 10 {
        lemma_digit_char_value(n as int);
    } else {
        lemma_dec_shape(n / 10);
        lemma_digit_char_value((n % 10) as int);
    }
}

/// Scanning one more digit extends the scan of the prefix by one step.
pub proof fn lemma_scan_up_push(d: Seq<char>, c: char, radix: int, acc: int, max: int)
    ensures
        scan_up(d.push(c), radix, acc, max) == (match scan_up(d, radix, acc, max) {
            Err(e) => Err(e),
            Ok(v) => match digit_value(c, radix) {
                None => Err(IntErrorKind::InvalidDigit),
                Some(x) => if v * radix + x > max {
                    Err(IntErrorKind::PosOverflow)
                } else {
                    Ok(v * radix + x)
                },
            },
        }),
    decreases d.len(),
{
    if d.len() == 0 {
        assert(d.push(c).drop_first() =~= Seq::<char>::empty());
        assert(d.push(c)[0] == c);
        reveal_with_fuel(scan_up, 2);
    } else {
        assert(d.push(c).drop_first() =~= d.drop_first().push(c));
        assert(d.push(c)[0] == d[0]);
        if let Some(x) = digit_value(d[0], radix) {
            if acc * radix + x <= max {
                lemma_scan_up_push(d.drop_first(), c, radix, acc * radix + x, max);
            }
        }
    }
}

/// Decimal text scans back to its value.
pub proof fn lemma_scan_dec(n: nat, max: int)
    requires
        n <= max,
    ensures
        scan_up(dec(n), 10, 0, max) == Ok::<int, IntErrorKind>(n as int),
    decreases n,
{
    if n < 10 {
        lemma_digit_char_value(n as int);
        assert(dec(n).drop_first() =~= Seq::<char>::empty());
        assert(dec(n)[0] == digit_char(n as int));
        reveal_with_fuel(scan_up, 2);
    } else {
        assert((n / 10) * 10 + n % 10 == n) by (nonlinear_arith);
        lemma_scan_dec(n / 10, max);
        lemma_digit_char_value((n % 10) as int);
        lemma_scan_up_push(dec(n / 10), digit_char((n % 10) as int), 10, 0, max);
    }
}

/// Decimal text parses back to its value in any type that holds it.
pub proof fn lemma_parse_dec(n: nat, max: int)
    requires
        n <= max,
    ensures
        parse_int(dec(n), 10, 0, max) == Ok::<int, IntErrorKind>(n as int),
{
    lemma_dec_shape(n);
    lemma_scan_dec(n, max);
}

/// Appending characters without a separator extends the last piece.
pub proof fn lemma_split_on_append(a: Seq<char>, d: Seq<char>, sep: char)
    requires
        forall|i: int| 0 <= i < d.len() ==> d[i] != sep,
    ensures
        split_on(a + d, sep) == split_on(a, sep).update(
            split_on(a, sep).len() - 1,
            split_on(a, sep).last() + d,
        ),
    decreases d.len(),
{
    lemma_split_on_len(a, sep);
    if d.len() == 0 {
        assert(a + d =~= a);
        assert(split_on(a, sep).last() + d =~= split_on(a, sep).last());
        assert(split_on(a, sep).update(split_on(a, sep).len() - 1, split_on(a, sep).last())
            =~= split_on(a, sep));
    } else {
        let d0 = d.drop_last();
        assert(forall|i: int| 0 <= i < d0.len() ==> d0[i] == d[i]);
        lemma_split_on_append(a, d0, sep);
        assert((a + d).drop_last() =~= a + d0);
        assert((a + d).last() == d.last());
        assert(d.last() == d[d.len() - 1]);
        assert(d.last() != sep);
        lemma_split_on_len(a + d0, sep);
        let q = split_on(a, sep);
        let p = split_on(a + d0, sep);
        assert(p.len() == q.len());
        assert(p.last() == q.last() + d0);
        assert(split_on(a + d, sep) == p.update(p.len() - 1, p.last().push(d.last())));
        assert((q.last() + d0).push(d.last()) =~= q.last() + d);
        assert(p =~= q.update(q.len() - 1, q.last() + d0));
        assert(split_on(a, sep).last() + d0 + seq![d.last()] =~= split_on(a, sep).last() + d);
        assert(split_on(a + d, sep) =~= split_on(a, sep).update(
            split_on(a, sep).len() - 1,
            split_on(a, sep).last() + d,
        ));
    }
}

} // verus!
