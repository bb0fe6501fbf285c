//! Listening endpoints given as `host:port`, `[v6-host]:port` or `host`.

use vstd::prelude::*;

use crate::oid::{int_error_message, int_error_text};
use crate::text::{append_chars, append_str, chars_of, dec, parse_int, parse_unsigned, string_from};

verus! {

/// The text without its leading run of `c`.
pub open spec fn drop_leading(s: Seq<char>, c: char) -> Seq<char>
    decreases s.len(),
{
    if s.len() > 0 && s[0] == c {
        drop_leading(s.drop_first(), c)
    } else {
        s
    }
}

/// The text with every `c` taken out.
pub open spec fn remove_char(s: Seq<char>, c: char) -> Seq<char>
    decreases s.len(),
{
    if s.len() == 0 {
        s
    } else if s.last() == c {
        remove_char(s.drop_last(), c)
    } else {
        remove_char(s.drop_last(), c).push(s.last())
    }
}

/// Position of the last `c` in the text.
pub open spec fn last_index_of(s: Seq<char>, c: char) -> Option<int>
    decreases s.len(),
{
    if s.len() == 0 {
        None
    } else if s.last() == c {
        Some(s.len() - 1)
    } else {
        last_index_of(s.drop_last(), c)
    }
}

/// An endpoint text with its brackets taken off: a text that starts with `[`
/// loses its leading `[`s and every `]`.
pub open spec fn unbracketed(s: Seq<char>) -> Seq<char> {
    if s.len() > 0 && s[0] == '[' {
        remove_char(drop_leading(s, '['), ']')
    } else {
        s
    }
}

/// Host text and port text of an endpoint: split at the last `:`, or the
/// whole text with port `161` when there is none.
pub open spec fn endpoint_parts(s: Seq<char>) -> (Seq<char>, Seq<char>) {
    let t = unbracketed(s);
    match last_index_of(t, ':') {
        Some(k) => (t.take(k), t.skip(k + 1)),
        None => (t, "161"@),
    }
}

/// The host text and port number of an endpoint, or the message for a port
/// that is not a `u16`.
pub open spec fn spec_split_endpoint(s: Seq<char>) -> Result<(Seq<char>, u16), Seq<char>> {
    let (host, port) = endpoint_parts(s);
    match parse_int(port, 10, 0, 65535) {
        Ok(p) => Ok((host, p as u16)),
        Err(e) => Err("Invalid port '"@ + port + "': "@ + int_error_text(e)),
    }
}

fn drop_leading_exec(s: &[char], c: char) -> (r: Vec<char>)
    ensures
        r@ == drop_leading(s@, c),
{
    let mut i: usize = 0;
    assert(s@.skip(0) =~= s@);
    while i < s.len() && s[i] == c
        invariant
            i <= s@.len(),
            drop_leading(s@.skip(i as int), c) == drop_leading(s@, c),
        decreases s@.len() - i,
    {
        proof {
            assert(s@.skip(i as int).drop_first() =~= s@.skip(i + 1));
        }
        i += 1;
    }
    let mut out: Vec<char> = Vec::new();
    let mut j: usize = i;
    while j < s.len()
        invariant
            i <= j <= s@.len(),
            out@ == s@.subrange(i as int, j as int),
        decreases s@.len() - j,
    {
        out.push(s[j]);
        proof {
            assert(out@ =~= s@.subrange(i as int, j + 1));
        }
        j += 1;
    }
    proof {
        assert(out@ =~= s@.skip(i as int));
    }
    out
}

fn remove_char_exec(s: &[char], c: char) -> (r: Vec<char>)
    ensures
        r@ == remove_char(s@, c),
{
    let mut out: Vec<char> = Vec::new();
    let mut i: usize = 0;
    while i < s.len()
        invariant
            i <= s@.len(),
            out@ == remove_char(s@.take(i as int), c),
        decreases s@.len() - i,
    {
        proof {
            assert(s@.take(i + 1).drop_last() =~= s@.take(i as int));
        }
        if s[i] != c {
            out.push(s[i]);
        }
        i += 1;
    }
    proof {
        assert(s@.take(i as int) =~= s@);
    }
    out
}

fn last_index_exec(s: &[char], c: char) -> (r: Option<usize>)
    ensures
        r matches Some(k) ==> k < s@.len() && last_index_of(s@, c) == Some(k as int),
        r is None ==> last_index_of(s@, c) is None,
{
    let mut i: usize = s.len();
    assert(s@.take(i as int) =~= s@);
    while i > 0
        invariant
            i <= s@.len(),
            last_index_of(s@, c) == last_index_of(s@.take(i as int), c),
        decreases i,
    {
        proof {
            assert(s@.take(i as int).drop_last() =~= s@.take(i - 1));
        }
        if s[i - 1] == c {
            return Some(i - 1);
        }
        i -= 1;
    }
    None
}

/// Splits an endpoint into its host text and port (`161` where none is
/// given); `[::1]:161` gives `::1` and `161`. Fails with
/// `Invalid port '<text>': <reason>` when the port is not a `u16`.
pub fn split_endpoint(s: &str) -> (r: Result<(String, u16), String>)
    ensures
        r matches Ok((h, p)) ==> spec_split_endpoint(s@) == Ok::<(Seq<char>, u16), Seq<char>>(
            (h@, p),
        ),
        r matches Err(m) ==> spec_split_endpoint(s@) == Err::<(Seq<char>, u16), Seq<char>>(m@),
{
    let v = chars_of(s);
    let t: Vec<char> = if v.len() > 0 && v[0] == '[' {
        let d = drop_leading_exec(v.as_slice(), '[');
        remove_char_exec(d.as_slice(), ']')
    } else {
        v
    };
    let (host, port): (Vec<char>, Vec<char>) = match last_index_exec(t.as_slice(), ':') {
        Some(k) => {
            assert(t@.len() == t.len());
            let h = crate::text::sub_chars(t.as_slice(), 0, k);
            let p = crate::text::sub_chars(t.as_slice(), k + 1, t.len());
            proof {
                assert(h@ =~= t@.take(k as int));
                assert(p@ =~= t@.skip(k + 1));
            }
            (h, p)
        },
        None => (t, chars_of("161")),
    };
    assert((host@, port@) == endpoint_parts(s@));
    match parse_unsigned(port.as_slice(), 10, 65535) {
        Ok(p) => {
            proof {
                crate::text::lemma_parse_int_unsigned_bound(port@, 10, 65535);
            }
            Ok((string_from(host.as_slice()), p as u16))
        },
        Err(e) => {
            let mut m: Vec<char> = chars_of("Invalid port '");
            append_chars(&mut m, port.as_slice());
            append_str(&mut m, "': ");
            append_str(&mut m, int_error_message(e));
            Err(string_from(m.as_slice()))
        },
    }
}

// ─── Laws ────────────────────────────────────────────────────────────────────

proof fn lemma_dec_digits(n: nat)
    ensures
        forall|i: int| 0 <= i < dec(n).len() ==> '0' <= #[trigger] dec(n)[i] <= '9',
    decreases n,
{
    let d = (n % 10) as int;
    assert(((d + 48) as u8) as char as u32 == d + 48);
    if n >= 10 {
        lemma_dec_digits(n / 10);
        assert forall|i: int| 0 <= i < dec(n).len() implies '0' <= #[trigger] dec(n)[i] <= '9' by {
            if i < dec(n / 10).len() {
                assert(dec(n)[i] == dec(n / 10)[i]);
            }
        }
    }
}

proof fn lemma_last_index_after(a: Seq<char>, c: char, t: Seq<char>)
    requires
        forall|i: int| 0 <= i < t.len() ==> t[i] != c,
    ensures
        last_index_of(a + seq![c] + t, c) == Some(a.len() as int),
    decreases t.len(),
{
    let s = a + seq![c] + t;
    if t.len() == 0 {
        assert(s =~= a.push(c));
    } else {
        assert(s.drop_last() =~= a + seq![c] + t.drop_last());
        lemma_last_index_after(a, c, t.drop_last());
    }
}

proof fn lemma_remove_char_concat(a: Seq<char>, b: Seq<char>, c: char)
    ensures
        remove_char(a + b, c) == remove_char(a, c) + remove_char(b, c),
    decreases b.len(),
{
    if b.len() == 0 {
        assert(a + b =~= a);
        assert(remove_char(a, c) + remove_char(b, c) =~= remove_char(a, c));
    } else {
        assert((a + b).drop_last() =~= a + b.drop_last());
        lemma_remove_char_concat(a, b.drop_last(), c);
        if b.last() != c {
            assert(remove_char(a, c) + remove_char(b.drop_last(), c).push(b.last()) =~= (
            remove_char(a, c) + remove_char(b.drop_last(), c)).push(b.last()));
        }
    }
}

proof fn lemma_remove_char_absent(a: Seq<char>, c: char)
    requires
        forall|i: int| 0 <= i < a.len() ==> a[i] != c,
    ensures
        remove_char(a, c) == a,
    decreases a.len(),
{
    if a.len() > 0 {
        lemma_remove_char_absent(a.drop_last(), c);
        assert(a.drop_last().push(a.last()) =~= a);
    }
}

/// Splitting undoes writing `host:port`: a host text with no `:` that does
/// not start with `[` (a name or an IPv4 address) and a port give back
/// that host and port.
pub proof fn lemma_split_host_port(host: Seq<char>, port: u16)
    requires
        !host.contains(':'),
        !(host.len() > 0 && host[0] == '['),
    ensures
        spec_split_endpoint(host + seq![':'] + dec(port as nat)) == Ok::<(Seq<char>, u16), Seq<char>>(
            (host, port),
        ),
{
    let d = dec(port as nat);
    let s = host + seq![':'] + d;
    lemma_dec_digits(port as nat);
    assert(s[0] != '[') by {
        if host.len() == 0 {
            assert(s[0] == ':');
        } else {
            assert(s[0] == host[0]);
        }
    }
    assert(unbracketed(s) == s);
    lemma_last_index_after(host, ':', d);
    assert(s.take(host.len() as int) =~= host);
    assert(s.skip(host.len() + 1int) =~= d);
    crate::text::lemma_parse_dec(port as nat, 65535);
}

/// Splitting undoes writing `[host]:port`: an IPv6 host text (which may
/// hold `:`) with no `[` or `]` and a port give back that host and port.
pub proof fn lemma_split_bracketed(host: Seq<char>, port: u16)
    requires
        !host.contains('['),
        !host.contains(']'),
    ensures
        spec_split_endpoint(seq!['['] + host + seq![']', ':'] + dec(port as nat)) == Ok::<
            (Seq<char>, u16),
            Seq<char>,
        >((host, port)),
{
    let d = dec(port as nat);
    let s = seq!['['] + host + seq![']', ':'] + d;
    lemma_dec_digits(port as nat);
    let rest = host + seq![']', ':'] + d;
    assert(s.drop_first() =~= rest);
    assert(rest[0] != '[') by {
        if host.len() == 0 {
            assert(rest[0] == ']');
        } else {
            assert(rest[0] == host[0]);
            if host[0] == '[' {
                assert(host.contains('['));
            }
        }
    }
    assert(drop_leading(rest, '[') == rest);
    assert(drop_leading(s, '[') == drop_leading(s.drop_first(), '['));
    assert forall|i: int| 0 <= i < host.len() implies host[i] != ']' by {
        if host[i] == ']' {
            assert(host.contains(']'));
        }
    }
    assert(rest =~= host + (seq![']'] + (seq![':'] + d)));
    lemma_remove_char_concat(host, seq![']'] + (seq![':'] + d), ']');
    lemma_remove_char_concat(seq![']'], seq![':'] + d, ']');
    lemma_remove_char_absent(host, ']');
    assert(remove_char(seq![']'], ']') =~= Seq::<char>::empty()) by {
        assert(seq![']'].drop_last() =~= Seq::<char>::empty());
        assert(remove_char(Seq::<char>::empty(), ']') =~= Seq::<char>::empty());
    }
    assert forall|i: int| 0 <= i < (seq![':'] + d).len() implies (seq![':'] + d)[i] != ']' by {
        if i > 0 {
            assert((seq![':'] + d)[i] == d[i - 1]);
        }
    }
    lemma_remove_char_absent(seq![':'] + d, ']');
    let t = host + seq![':'] + d;
    assert(unbracketed(s) =~= t);
    lemma_last_index_after(host, ':', d);
    assert(t.take(host.len() as int) =~= host);
    assert(t.skip(host.len() + 1int) =~= d);
    crate::text::lemma_parse_dec(port as nat, 65535);
}

} // verus!
