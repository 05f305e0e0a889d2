use vstd::prelude::*;
use crate::text::{all_digits, digits_value, decimal, is_digit, split_on, split_bytes, digits_only, lemma_decimal_digits, lemma_split_nonempty};

verus! {

/// An IPv4 address `a.b.c.d`.
#[derive(Clone, Copy, PartialEq, Eq, Debug)]
pub struct Ipv4 {
    pub a: u8,
    pub b: u8,
    pub c: u8,
    pub d: u8,
}

/// How std reads one part of a dotted IPv4 address: one to three decimal
/// digits, no leading zero unless the part is `0`, and a value below 256.
pub open spec fn octet_spec(g: Seq<u8>) -> Option<u8> {
    if 1 <= g.len() <= 3 && all_digits(g) && !(g.len() > 1 && g[0] == 48) && digits_value(g) <= 255 {
        Some(digits_value(g) as u8)
    } else {
        None
    }
}

/// How `str::parse::<Ipv4Addr>` reads `s`: exactly four parts separated by
/// `.`, each read by `octet_spec`.
pub open spec fn parse_ipv4_spec(s: Seq<u8>) -> Option<Ipv4> {
    let parts = split_on(s, 46);
    if parts.len() == 4 && octet_spec(parts[0]) is Some && octet_spec(parts[1]) is Some
        && octet_spec(parts[2]) is Some && octet_spec(parts[3]) is Some {
        Some(
            Ipv4 {
                a: octet_spec(parts[0])->0,
                b: octet_spec(parts[1])->0,
                c: octet_spec(parts[2])->0,
                d: octet_spec(parts[3])->0,
            },
        )
    } else {
        None
    }
}

/// The dotted-decimal text of `ip` as ASCII bytes.
pub open spec fn ipv4_text(ip: Ipv4) -> Seq<u8> {
    decimal(ip.a as nat) + seq![46u8] + decimal(ip.b as nat) + seq![46u8] + decimal(ip.c as nat)
        + seq![46u8] + decimal(ip.d as nat)
}

/// Reads one part of a dotted IPv4 address (see `octet_spec`).
fn parse_octet(g: &[u8]) -> (r: Option<u8>)
    ensures
        r == octet_spec(g@),
{
    if g.len() < 1 || g.len() > 3 || !digits_only(g) {
        return None;
    }
    if g.len() > 1 && g[0] == 48 {
        return None;
    }
    let mut v: u32 = 0;
    let mut i: usize = 0;
    while i < g.len()
        invariant
            g@.len() <= 3,
            all_digits(g@),
            i <= g@.len(),
            v == digits_value(g@.take(i as int)),
            v < 1000,
        decreases g@.len() - i,
    {
        assert(g@.take(i + 1).drop_last() =~= g@.take(i as int));
        assert(is_digit(g@[i as int]));
        proof {
            lemma_digits_small(g@.take(i + 1));
            assert(pow10(0) == 1);
            assert(pow10(1) == 10);
            assert(pow10(2) == 100);
            assert(pow10(3) == 1000);
            assert(all_digits(g@.take(i + 1)));
        }
        v = v * 10 + (g[i] - 48) as u32;
        i = i + 1;
    }
    assert(g@.take(i as int) =~= g@);
    if v > 255 {
        None
    } else {
        Some(v as u8)
    }
}

proof fn lemma_digits_small(s: Seq<u8>)
    requires
        all_digits(s),
    ensures
        digits_value(s) < pow10(s.len()),
    decreases s.len(),
{
    if s.len() > 0 {
        assert(all_digits(s.drop_last())) by {
            assert forall|i: int| 0 <= i < s.drop_last().len() implies #[trigger] is_digit(
                s.drop_last()[i],
            ) by {
                assert(s.drop_last()[i] == s[i]);
            }
        }
        lemma_digits_small(s.drop_last());
        assert(is_digit(s[s.len() - 1]));
    }
}

/// `10` to the power `n`.
pub open spec fn pow10(n: nat) -> nat
    decreases n,
{
    if n == 0 {
        1
    } else {
        10 * pow10((n - 1) as nat)
    }
}

/// Reads `s` as `str::parse::<Ipv4Addr>` does (see `parse_ipv4_spec`).
pub fn parse_ipv4(s: &[u8]) -> (r: Option<Ipv4>)
    ensures
        r == parse_ipv4_spec(s@),
{
    let parts = split_bytes(s, 46);
    let ghost ps = parts@.map_values(|p: Vec<u8>| p@);
    if parts.len() != 4 {
        return None;
    }
    assert(parts@[0]@ == ps[0] && parts@[1]@ == ps[1] && parts@[2]@ == ps[2] && parts@[3]@ == ps[3]);
    let a = parse_octet(parts[0].as_slice());
    let b = parse_octet(parts[1].as_slice());
    let c = parse_octet(parts[2].as_slice());
    let d = parse_octet(parts[3].as_slice());
    match (a, b, c, d) {
        (Some(a), Some(b), Some(c), Some(d)) => Some(Ipv4 { a, b, c, d }),
        _ => None,
    }
}

/// The ASCII decimal digits of `n`.
pub fn decimal_bytes(n: u32) -> (r: Vec<u8>)
    ensures
        r@ == decimal(n as nat),
    decreases n,
{
    if n < 10 {
        let mut v: Vec<u8> = Vec::new();
        v.push((n + 48) as u8);
        assert(v@ =~= decimal(n as nat));
        v
    } else {
        let mut v = decimal_bytes(n / 10);
        v.push((n % 10 + 48) as u8);
        v
    }
}

/// The string whose characters are the ASCII bytes `b`.
pub fn ascii_string(b: &[u8]) -> (s: String)
    ensures
        s@ == b@.map_values(|x: u8| x as char),
{
    let mut s = String::new();
    let mut i: usize = 0;
    while i < b.len()
        invariant
            i <= b@.len(),
            s@ == b@.take(i as int).map_values(|x: u8| x as char),
        decreases b@.len() - i,
    {
        s.push(b[i] as char);
        i = i + 1;
        assert(s@ =~= b@.take(i as int).map_values(|x: u8| x as char));
    }
    assert(b@.take(i as int) =~= b@);
    s
}

impl Ipv4 {
    /// The dotted-decimal text of the address, as `Display` writes it.
    pub fn to_text(&self) -> (s: String)
        ensures
            s@ == ipv4_text(*self).map_values(|x: u8| x as char),
    {
        let mut t: Vec<u8> = decimal_bytes(self.a as u32);
        t.push(46);
        let b = decimal_bytes(self.b as u32);
        crate::bytes::push_all(&mut t, b.as_slice());
        t.push(46);
        let c = decimal_bytes(self.c as u32);
        crate::bytes::push_all(&mut t, c.as_slice());
        t.push(46);
        let d = decimal_bytes(self.d as u32);
        crate::bytes::push_all(&mut t, d.as_slice());
        assert(t@ =~= ipv4_text(*self));
        ascii_string(t.as_slice())
    }
}


proof fn lemma_split_no_sep(x: Seq<u8>, sep: u8)
    requires
        forall|i: int| 0 <= i < x.len() ==> x[i] != sep,
    ensures
        split_on(x, sep) == seq![x],
    decreases x.len(),
{
    if x.len() == 0 {
        assert(x =~= Seq::<u8>::empty());
    } else {
        lemma_split_no_sep(x.drop_last(), sep);
        assert(x.drop_last().push(x.last()) =~= x);
        assert(seq![x.drop_last()].update(0, x.drop_last().push(x.last())) =~= seq![x]);
    }
}

proof fn lemma_split_after_sep(pre: Seq<u8>, x: Seq<u8>, sep: u8)
    requires
        forall|i: int| 0 <= i < x.len() ==> x[i] != sep,
    ensures
        split_on(pre + seq![sep] + x, sep) == split_on(pre, sep).push(x),
    decreases x.len(),
{
    let whole = pre + seq![sep] + x;
    if x.len() == 0 {
        assert(whole.drop_last() =~= pre);
        assert(x =~= Seq::<u8>::empty());
    } else {
        lemma_split_after_sep(pre, x.drop_last(), sep);
        assert(whole.drop_last() =~= pre + seq![sep] + x.drop_last());
        assert(x.drop_last().push(x.last()) =~= x);
        let parts = split_on(pre, sep).push(x.drop_last());
        assert(parts.update(parts.len() - 1, parts.last().push(whole.last())) =~= split_on(pre, sep).push(x));
    }
}

proof fn lemma_decimal_octet(n: u8)
    ensures
        octet_spec(decimal(n as nat)) == Some(n),
        forall|i: int| 0 <= i < decimal(n as nat).len() ==> decimal(n as nat)[i] != 46,
{
    lemma_decimal_digits(n as nat);
    assert forall|i: int| 0 <= i < decimal(n as nat).len() implies decimal(n as nat)[i] != 46 by {
        assert(is_digit(decimal(n as nat)[i]));
    }
}

/// Reading back the text of an address gives the address.
pub proof fn lemma_ipv4_text_roundtrip(ip: Ipv4)
    ensures
        parse_ipv4_spec(ipv4_text(ip)) == Some(ip),
{
    let da = decimal(ip.a as nat);
    let db = decimal(ip.b as nat);
    let dc = decimal(ip.c as nat);
    let dd = decimal(ip.d as nat);
    lemma_decimal_octet(ip.a);
    lemma_decimal_octet(ip.b);
    lemma_decimal_octet(ip.c);
    lemma_decimal_octet(ip.d);
    lemma_split_no_sep(da, 46);
    lemma_split_after_sep(da, db, 46);
    let t2 = da + seq![46u8] + db;
    lemma_split_after_sep(t2, dc, 46);
    let t3 = t2 + seq![46u8] + dc;
    lemma_split_after_sep(t3, dd, 46);
    let t4 = t3 + seq![46u8] + dd;
    assert(t4 == ipv4_text(ip));
    let parts = split_on(t4, 46);
    assert(parts =~= seq![da, db, dc, dd]);
}

} // verus!
