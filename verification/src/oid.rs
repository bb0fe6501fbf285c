//! SNMP Object Identifier (OID) type
//!
//! A strongly-typed OID with numeric comparison, prefix matching, and the
//! standard dotted string form.

use vstd::prelude::*;

use crate::error::SnmpsimError;
use crate::text::{
    lemma_dec_shape, lemma_parse_dec, lemma_split_on_append, lemma_split_on_len,
    chars_of, dec, int_text, parse_int, parse_unsigned, push_dec, split_chars, split_on,
    string_from, IntErrorKind,
};

verus! {

/// An SNMP Object Identifier represented as a sequence of unsigned 32-bit integers.
#[derive(Clone, Debug, PartialEq, Eq, Hash, Default, PartialOrd, Ord)]
pub struct Oid(Vec<u32>);

impl View for Oid {
    type V = Seq<u32>;

    closed spec fn view(&self) -> Seq<u32> {
        self.0@
    }
}

/// Result of comparing two OIDs component by component.
#[derive(Clone, Copy, Debug, PartialEq, Eq)]
pub enum OidOrdering {
    Less,
    Equal,
    Greater,
}

// ─── Specifications ──────────────────────────────────────────────────────────

/// `a` is a prefix of `b`.
pub open spec fn is_prefix(a: Seq<u32>, b: Seq<u32>) -> bool {
    a.len() <= b.len() && b.subrange(0, a.len() as int) == a
}

/// Numeric lexicographic order: the first differing component decides, and a
/// proper prefix comes first.
pub open spec fn oid_lt(a: Seq<u32>, b: Seq<u32>) -> bool
    decreases a.len(),
{
    if a.len() == 0 {
        b.len() > 0
    } else if b.len() == 0 {
        false
    } else if a[0] < b[0] {
        true
    } else if a[0] > b[0] {
        false
    } else {
        oid_lt(a.drop_first(), b.drop_first())
    }
}

/// The dotted decimal form, e.g. `1.3.6.1`.
pub open spec fn oid_text(c: Seq<u32>) -> Seq<char>
    decreases c.len(),
{
    if c.len() == 0 {
        Seq::<char>::empty()
    } else if c.len() == 1 {
        dec(c[0] as nat)
    } else {
        oid_text(c.drop_last()) + seq!['.'] + dec(c.last() as nat)
    }
}

/// `s` with all leading dots removed.
pub open spec fn strip_dots(s: Seq<char>) -> Seq<char>
    decreases s.len(),
{
    if s.len() > 0 && s[0] == '.' {
        strip_dots(s.drop_first())
    } else {
        s
    }
}

/// Each piece parsed as a `u32`, stopping at the first failure.
pub open spec fn parse_arcs(parts: Seq<Seq<char>>) -> Result<Seq<u32>, IntErrorKind>
    decreases parts.len(),
{
    if parts.len() == 0 {
        Ok(Seq::<u32>::empty())
    } else {
        match parse_arcs(parts.drop_last()) {
            Err(e) => Err(e),
            Ok(v) => match parse_int(parts.last(), 10, 0, u32::MAX as int) {
                Err(e) => Err(e),
                Ok(x) => Ok(v.push(x as u32)),
            },
        }
    }
}

/// What parsing a string as an OID gives: leading dots are skipped, an empty
/// rest is the empty OID, otherwise every dot-separated piece must be a `u32`.
pub open spec fn oid_parse(s: Seq<char>) -> Result<Seq<u32>, IntErrorKind> {
    let t = strip_dots(s);
    if t.len() == 0 {
        Ok(Seq::<u32>::empty())
    } else {
        parse_arcs(split_on(t, '.'))
    }
}

/// The message of a failed OID parse.
pub open spec fn oid_error_text(s: Seq<char>, e: IntErrorKind) -> Seq<char> {
    "Invalid OID '"@ + strip_dots(s) + "': "@ + int_error_text(e)
}

/// What `ParseIntError` displays.
pub open spec fn int_error_text(e: IntErrorKind) -> Seq<char> {
    match e {
        IntErrorKind::Empty => "cannot parse integer from empty string"@,
        IntErrorKind::InvalidDigit => "invalid digit found in string"@,
        IntErrorKind::PosOverflow => "number too large to fit in target type"@,
        IntErrorKind::NegOverflow => "number too small to fit in target type"@,
    }
}

pub fn int_error_message(e: IntErrorKind) -> (s: &'static str)
    ensures
        s@ == int_error_text(e),
{
    match e {
        IntErrorKind::Empty => "cannot parse integer from empty string",
        IntErrorKind::InvalidDigit => "invalid digit found in string",
        IntErrorKind::PosOverflow => "number too large to fit in target type",
        IntErrorKind::NegOverflow => "number too small to fit in target type",
    }
}

// ─── Operations ──────────────────────────────────────────────────────────────

impl Oid {
    /// Create a new OID from a vector of components.
    pub fn new(components: Vec<u32>) -> (r: Oid)
        ensures
            r@ == components@,
    {
        Oid(components)
    }

    /// Return a reference to the OID components.
    pub fn components(&self) -> (r: &[u32])
        ensures
            r@ == self@,
    {
        self.0.as_slice()
    }

    /// Return the number of components in this OID.
    pub fn len(&self) -> (r: usize)
        ensures
            r == self@.len(),
    {
        self.0.len()
    }

    /// Return true if this OID has no components.
    pub fn is_empty(&self) -> (r: bool)
        ensures
            r == (self@.len() == 0),
    {
        self.0.len() == 0
    }

    /// A copy of this OID.
    pub fn duplicate(&self) -> (r: Oid)
        ensures
            r@ == self@,
    {
        let mut v: Vec<u32> = Vec::new();
        let mut i: usize = 0;
        while i < self.0.len()
            invariant
                i <= self.0@.len(),
                v@ == self.0@.take(i as int),
            decreases self.0@.len() - i,
        {
            v.push(self.0[i]);
            assert(self.0@.take(i as int).push(self.0@[i as int]) =~= self.0@.take(i + 1));
            i += 1;
        }
        assert(self.0@.take(i as int) =~= self.0@);
        Oid(v)
    }

    /// Component-wise equality.
    pub fn equals(&self, other: &Oid) -> (r: bool)
        ensures
            r == (self@ == other@),
    {
        if self.0.len() != other.0.len() {
            return false;
        }
        let mut i: usize = 0;
        while i < self.0.len()
            invariant
                i <= self.0@.len(),
                self.0@.len() == other.0@.len(),
                forall|j: int| 0 <= j < i ==> self.0@[j] == other.0@[j],
            decreases self.0@.len() - i,
        {
            if self.0[i] != other.0[i] {
                return false;
            }
            i += 1;
        }
        assert(self.0@ =~= other.0@);
        true
    }

    /// Return true if this OID is a prefix of `other`.
    ///
    /// For example, `1.3.6.1` is a prefix of `1.3.6.1.2.1.1.1.0`.
    pub fn is_prefix_of(&self, other: &Oid) -> (r: bool)
        ensures
            r == is_prefix(self@, other@),
    {
        if self.0.len() > other.0.len() {
            return false;
        }
        let mut i: usize = 0;
        while i < self.0.len()
            invariant
                i <= self.0@.len() <= other.0@.len(),
                forall|j: int| 0 <= j < i ==> self.0@[j] == other.0@[j],
            decreases self.0@.len() - i,
        {
            if self.0[i] != other.0[i] {
                assert(other.0@.subrange(0, self.0@.len() as int)[i as int] != self.0@[i as int]);
                return false;
            }
            i += 1;
        }
        assert(other.0@.subrange(0, self.0@.len() as int) =~= self.0@);
        true
    }

    /// Concatenate another OID to this one, returning a new OID.
    pub fn append(&self, other: &Oid) -> (r: Oid)
        ensures
            r@ == self@ + other@,
    {
        let mut v = self.duplicate().0;
        let mut i: usize = 0;
        while i < other.0.len()
            invariant
                i <= other.0@.len(),
                v@ == self.0@ + other.0@.take(i as int),
            decreases other.0@.len() - i,
        {
            v.push(other.0[i]);
            assert(self.0@ + other.0@.take(i as int).push(other.0@[i as int]) =~= self.0@
                + other.0@.take(i + 1));
            i += 1;
        }
        assert(other.0@.take(i as int) =~= other.0@);
        Oid(v)
    }

    /// Lexicographic comparison of OID components (numeric, not string).
    pub fn compare(&self, other: &Oid) -> (r: OidOrdering)
        ensures
            r == OidOrdering::Less <==> oid_lt(self@, other@),
            r == OidOrdering::Equal <==> self@ == other@,
            r == OidOrdering::Greater <==> oid_lt(other@, self@),
    {
        proof {
            lemma_oid_lt_irreflexive(self@);
            lemma_oid_lt_asymmetric(self@, other@);
        }
        let a = &self.0;
        let b = &other.0;
        let n = if a.len() < b.len() {
            a.len()
        } else {
            b.len()
        };
        let mut i: usize = 0;
        assert(a@.skip(0) =~= a@);
        assert(b@.skip(0) =~= b@);
        while i < n
            invariant
                i <= n,
                n <= a@.len(),
                n <= b@.len(),
                n == a@.len() || n == b@.len(),
                a@ == self@,
                b@ == other@,
                a@.take(i as int) == b@.take(i as int),
                oid_lt(a@, b@) == oid_lt(a@.skip(i as int), b@.skip(i as int)),
                oid_lt(b@, a@) == oid_lt(b@.skip(i as int), a@.skip(i as int)),
            decreases n - i,
        {
            assert(a@.skip(i as int).drop_first() =~= a@.skip(i + 1));
            assert(b@.skip(i as int).drop_first() =~= b@.skip(i + 1));
            if a[i] < b[i] {
                proof {
                    lemma_oid_lt_asymmetric(a@, b@);
                    if a@ == b@ {
                        lemma_oid_lt_irreflexive(a@);
                    }
                }
                return OidOrdering::Less;
            }
            if a[i] > b[i] {
                proof {
                    lemma_oid_lt_asymmetric(a@, b@);
                    if a@ == b@ {
                        lemma_oid_lt_irreflexive(a@);
                    }
                }
                return OidOrdering::Greater;
            }
            assert(a@.take(i + 1) =~= a@.take(i as int).push(a@[i as int]));
            assert(b@.take(i + 1) =~= b@.take(i as int).push(b@[i as int]));
            i += 1;
        }
        if a.len() < b.len() {
            proof {
                lemma_oid_lt_asymmetric(a@, b@);
                if a@ == b@ {
                    lemma_oid_lt_irreflexive(a@);
                }
            }
            OidOrdering::Less
        } else if a.len() > b.len() {
            proof {
                lemma_oid_lt_asymmetric(a@, b@);
                if a@ == b@ {
                    lemma_oid_lt_irreflexive(a@);
                }
            }
            OidOrdering::Greater
        } else {
            assert(a@ =~= a@.take(i as int));
            assert(b@ =~= b@.take(i as int));
            OidOrdering::Equal
        }
    }

    /// Return the OID as a dotted string (without leading dot).
    pub fn to_dotted_string(&self) -> (r: String)
        ensures
            r@ == oid_text(self@),
    {
        let mut out: Vec<char> = Vec::new();
        let mut i: usize = 0;
        while i < self.0.len()
            invariant
                i <= self.0@.len(),
                out@ == oid_text(self.0@.take(i as int)),
            decreases self.0@.len() - i,
        {
            proof {
                assert(self.0@.take(i + 1).drop_last() =~= self.0@.take(i as int));
            }
            if i > 0 {
                out.push('.');
            }
            push_dec(&mut out, self.0[i] as u64);
            proof {
                if i == 0 {
                    assert(Seq::<char>::empty() + dec(self.0@[0] as nat) =~= oid_text(
                        self.0@.take(1),
                    ));
                }
            }
            i += 1;
        }
        assert(self.0@.take(i as int) =~= self.0@);
        string_from(out.as_slice())
    }

    /// Parse a dotted string such as `1.3.6.1` or `.1.3.6.1` into an OID.
    pub fn parse_str(s: &str) -> (r: Result<Oid, SnmpsimError>)
        ensures
            r matches Ok(o) ==> oid_parse(s@) == Ok::<Seq<u32>, IntErrorKind>(o@),
            r matches Err(e) ==> (oid_parse(s@) is Err && (e matches SnmpsimError::Parse(m) && m@
                == oid_error_text(s@, oid_parse(s@)->Err_0))),
    {
        let cs = chars_of(s);
        let mut lo: usize = 0;
        assert(cs@.skip(0) =~= cs@);
        while lo < cs.len() && cs[lo] == '.'
            invariant
                lo <= cs@.len(),
                strip_dots(cs@) == strip_dots(cs@.skip(lo as int)),
            decreases cs@.len() - lo,
        {
            assert(cs@.skip(lo as int).drop_first() =~= cs@.skip(lo + 1));
            lo += 1;
        }
        let t = crate::text::sub_chars(cs.as_slice(), lo, cs.len());
        assert(t@ =~= cs@.skip(lo as int));
        assert(strip_dots(t@) == t@);
        if t.len() == 0 {
            return Ok(Oid(Vec::new()));
        }
        let parts = split_chars(t.as_slice(), '.');
        let ghost ps = split_on(t@, '.');
        assert(strip_dots(s@) == t@);
        let mut comps: Vec<u32> = Vec::new();
        let mut i: usize = 0;
        while i < parts.len()
            invariant
                i <= parts@.len(),
                parts@.len() == ps.len(),
                ps == split_on(t@, '.'),
                strip_dots(s@) == t@,
                t@.len() > 0,
                forall|k: int| 0 <= k < parts@.len() ==> #[trigger] parts@[k]@ == ps[k],
                parse_arcs(ps.take(i as int)) == Ok::<Seq<u32>, IntErrorKind>(comps@),
            decreases parts@.len() - i,
        {
            assert(ps.take(i + 1).drop_last() =~= ps.take(i as int));
            assert(parts@[i as int]@ == ps[i as int]);
            match parse_unsigned(parts[i].as_slice(), 10, u32::MAX as u64) {
                Ok(v) => {
                    proof {
                        crate::text::lemma_parse_int_unsigned_bound(
                            parts@[i as int]@,
                            10,
                            u32::MAX as int,
                        );
                    }
                    comps.push(v as u32);
                },
                Err(e) => {
                    proof {
                        assert(ps.take(i + 1).last() == ps[i as int]);
                        lemma_parse_arcs_prefix_err(ps, i + 1);
                    }
                    let mut m: Vec<char> = Vec::new();
                    crate::text::append_str(&mut m, "Invalid OID '");
                    crate::text::append_chars(&mut m, t.as_slice());
                    crate::text::append_str(&mut m, "': ");
                    crate::text::append_str(&mut m, int_error_message(e));
                    assert(parse_arcs(ps) == Err::<Seq<u32>, IntErrorKind>(e));
                    assert(strip_dots(s@) == t@);
                    assert(m@ == oid_error_text(s@, e));
                    return Err(SnmpsimError::Parse(string_from(m.as_slice())));
                },
            }
            i += 1;
        }
        assert(ps.take(i as int) =~= ps);
        Ok(Oid(comps))
    }
}

impl std::str::FromStr for Oid {
    type Err = SnmpsimError;

    fn from_str(s: &str) -> (r: Result<Oid, SnmpsimError>)
        ensures
            r matches Ok(o) ==> oid_parse(s@) == Ok::<Seq<u32>, IntErrorKind>(o@),
            r matches Err(e) ==> (oid_parse(s@) is Err && (e matches SnmpsimError::Parse(m) && m@
                == oid_error_text(s@, oid_parse(s@)->Err_0))),
    {
        Oid::parse_str(s)
    }
}

impl From<Vec<u32>> for Oid {
    fn from(v: Vec<u32>) -> Oid {
        Oid(v)
    }
}

impl vstd::std_specs::convert::FromSpecImpl<Vec<u32>> for Oid {
    open spec fn obeys_from_spec() -> bool {
        true
    }

    closed spec fn from_spec(v: Vec<u32>) -> Oid {
        Oid(v)
    }
}

// ─── Lemmas ──────────────────────────────────────────────────────────────────

proof fn lemma_parse_arcs_prefix_err(parts: Seq<Seq<char>>, k: int)
    requires
        0 <= k <= parts.len(),
        parse_arcs(parts.take(k)) is Err,
    ensures
        parse_arcs(parts) == parse_arcs(parts.take(k)),
    decreases parts.len() - k,
{
    if k < parts.len() {
        let p = parts.drop_last();
        assert(p.take(k) =~= parts.take(k));
        lemma_parse_arcs_prefix_err(p, k);
    } else {
        assert(parts.take(k) =~= parts);
    }
}

/// No OID precedes itself.
pub proof fn lemma_oid_lt_irreflexive(a: Seq<u32>)
    ensures
        !oid_lt(a, a),
    decreases a.len(),
{
    if a.len() > 0 {
        lemma_oid_lt_irreflexive(a.drop_first());
    }
}

/// Of two OIDs, at most one precedes the other.
pub proof fn lemma_oid_lt_asymmetric(a: Seq<u32>, b: Seq<u32>)
    ensures
        !(oid_lt(a, b) && oid_lt(b, a)),
    decreases a.len(),
{
    if a.len() > 0 && b.len() > 0 && a[0] == b[0] {
        lemma_oid_lt_asymmetric(a.drop_first(), b.drop_first());
    }
}


/// The decimal text of each arc.
pub open spec fn arcs_text(c: Seq<u32>) -> Seq<Seq<char>> {
    Seq::new(c.len(), |i: int| dec(c[i] as nat))
}

proof fn lemma_oid_text_first(c: Seq<u32>)
    requires
        c.len() >= 1,
    ensures
        oid_text(c).len() >= 1,
        oid_text(c)[0] == dec(c[0] as nat)[0],
    decreases c.len(),
{
    lemma_dec_shape(c[0] as nat);
    if c.len() > 1 {
        lemma_oid_text_first(c.drop_last());
    }
}

proof fn lemma_split_oid_text(c: Seq<u32>)
    requires
        c.len() >= 1,
    ensures
        split_on(oid_text(c), '.') == arcs_text(c),
    decreases c.len(),
{
    let x = c.last();
    lemma_dec_shape(x as nat);
    if c.len() == 1 {
        lemma_split_on_append(Seq::<char>::empty(), dec(x as nat), '.');
        assert(Seq::<char>::empty() + dec(x as nat) =~= dec(x as nat));
        assert(Seq::<char>::empty() + dec(x as nat) =~= oid_text(c));
        assert(split_on(Seq::<char>::empty(), '.').update(0, Seq::<char>::empty() + dec(x as nat))
            =~= arcs_text(c));
    } else {
        let c0 = c.drop_last();
        lemma_split_oid_text(c0);
        let t0 = oid_text(c0);
        let t1 = t0 + seq!['.'];
        assert(t1.drop_last() =~= t0);
        lemma_split_on_len(t0, '.');
        assert(split_on(t1, '.') == split_on(t0, '.').push(Seq::<char>::empty()));
        lemma_split_on_append(t1, dec(x as nat), '.');
        assert(oid_text(c) == t1 + dec(x as nat));
        assert(Seq::<char>::empty() + dec(x as nat) =~= dec(x as nat));
        assert(split_on(t1, '.').update(split_on(t1, '.').len() - 1, split_on(t1, '.').last()
            + dec(x as nat)) =~= arcs_text(c));
    }
}

proof fn lemma_parse_arcs_text(c: Seq<u32>)
    ensures
        parse_arcs(arcs_text(c)) == Ok::<Seq<u32>, IntErrorKind>(c),
    decreases c.len(),
{
    if c.len() > 0 {
        let c0 = c.drop_last();
        lemma_parse_arcs_text(c0);
        assert(arcs_text(c).drop_last() =~= arcs_text(c0));
        lemma_parse_dec(c.last() as nat, u32::MAX as int);
        assert(c0.push(c.last()) =~= c);
    } else {
        assert(c =~= Seq::<u32>::empty());
    }
}

/// Parsing the dotted text of an OID gives the OID back.
pub proof fn lemma_oid_text_roundtrip(c: Seq<u32>)
    ensures
        oid_parse(oid_text(c)) == Ok::<Seq<u32>, IntErrorKind>(c),
{
    if c.len() == 0 {
        assert(c =~= Seq::<u32>::empty());
    } else {
        lemma_oid_text_first(c);
        lemma_dec_shape(c[0] as nat);
        assert(dec(c[0] as nat)[0] != '.');
        assert(strip_dots(oid_text(c)) == oid_text(c));
        lemma_split_oid_text(c);
        lemma_parse_arcs_text(c);
    }
}

/// The order on OIDs is transitive.
pub proof fn lemma_oid_lt_transitive(a: Seq<u32>, b: Seq<u32>, c: Seq<u32>)
    requires
        oid_lt(a, b),
        oid_lt(b, c),
    ensures
        oid_lt(a, c),
    decreases a.len(),
{
    if a.len() > 0 && b.len() > 0 && c.len() > 0 && a[0] == b[0] && b[0] == c[0] {
        lemma_oid_lt_transitive(a.drop_first(), b.drop_first(), c.drop_first());
    }
}

/// Any two OIDs are equal or one precedes the other.
pub proof fn lemma_oid_lt_total(a: Seq<u32>, b: Seq<u32>)
    ensures
        oid_lt(a, b) || a == b || oid_lt(b, a),
    decreases a.len(),
{
    if a.len() > 0 && b.len() > 0 && a[0] == b[0] {
        lemma_oid_lt_total(a.drop_first(), b.drop_first());
        if a.drop_first() == b.drop_first() {
            assert(a =~= seq![a[0]] + a.drop_first());
            assert(b =~= seq![b[0]] + b.drop_first());
        }
    } else if a.len() == 0 && b.len() == 0 {
        assert(a =~= b);
    }
}

/// A proper prefix precedes every OID it is a prefix of.
pub proof fn lemma_prefix_precedes(a: Seq<u32>, b: Seq<u32>)
    requires
        is_prefix(a, b),
        a != b,
    ensures
        oid_lt(a, b),
    decreases a.len(),
{
    if a.len() == b.len() {
        assert(b.subrange(0, a.len() as int) =~= b);
    } else if a.len() > 0 {
        assert(a[0] == b.subrange(0, a.len() as int)[0]);
        assert(b.drop_first().subrange(0, a.drop_first().len() as int) =~= b.subrange(
            0,
            a.len() as int,
        ).drop_first());
        if a.drop_first() == b.drop_first() {
            assert(a.len() == b.len());
        }
        lemma_prefix_precedes(a.drop_first(), b.drop_first());
    }
}

} // verus!
