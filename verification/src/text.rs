use vstd::prelude::*;

verus! {

/// Whether `b` is an ASCII decimal digit.
pub open spec fn is_digit(b: u8) -> bool {
    48 <= b <= 57
}

/// Whether every byte of `s` is an ASCII decimal digit.
pub open spec fn all_digits(s: Seq<u8>) -> bool {
    forall|i: int| 0 <= i < s.len() ==> #[trigger] is_digit(s[i])
}

/// The value of a run of decimal digits (most significant first).
pub open spec fn digits_value(s: Seq<u8>) -> nat
    decreases s.len(),
{
    if s.len() == 0 {
        0
    } else {
        digits_value(s.drop_last()) * 10 + (s.last() - 48) as nat
    }
}

/// The shortest decimal representation of `n`, as ASCII bytes.
pub open spec fn decimal(n: nat) -> Seq<u8>
    decreases n,
{
    if n < 10 {
        seq![(n + 48) as u8]
    } else {
        decimal(n / 10).push((n % 10 + 48) as u8)
    }
}

/// How `str::parse::<u32>` reads `s`: an optional `+`, then at least one
/// decimal digit, with a value that fits in `u32`.
pub open spec fn parse_u32_spec(s: Seq<u8>) -> Option<u32> {
    let d = if s.len() > 0 && s[0] == 43 { s.drop_first() } else { s };
    if d.len() > 0 && all_digits(d) && digits_value(d) <= u32::MAX {
        Some(digits_value(d) as u32)
    } else {
        None
    }
}

/// The pieces of `s` between the separator bytes `sep` (there is always at
/// least one piece; `split` of std behaves the same way).
pub open spec fn split_on(s: Seq<u8>, sep: u8) -> Seq<Seq<u8>>
    decreases s.len(),
{
    if s.len() == 0 {
        seq![seq![]]
    } else {
        let parts = split_on(s.drop_last(), sep);
        if s.last() == sep {
            parts.push(seq![])
        } else {
            parts.update(parts.len() - 1, parts.last().push(s.last()))
        }
    }
}

pub proof fn lemma_split_nonempty(s: Seq<u8>, sep: u8)
    ensures
        split_on(s, sep).len() >= 1,
    decreases s.len(),
{
    if s.len() > 0 {
        lemma_split_nonempty(s.drop_last(), sep);
    }
}

/// Splits `s` at every `sep` byte (see `split_on`).
pub fn split_bytes(s: &[u8], sep: u8) -> (parts: Vec<Vec<u8>>)
    ensures
        parts@.map_values(|p: Vec<u8>| p@) == split_on(s@, sep),
{
    let mut parts: Vec<Vec<u8>> = Vec::new();
    parts.push(Vec::new());
    let mut i: usize = 0;
    assert(s@.take(0) =~= Seq::<u8>::empty());
    assert(parts@.map_values(|p: Vec<u8>| p@) =~= split_on(s@.take(0), sep));
    while i < s.len()
        invariant
            i <= s@.len(),
            parts@.len() >= 1,
            parts@.map_values(|p: Vec<u8>| p@) == split_on(s@.take(i as int), sep),
        decreases s@.len() - i,
    {
        let b = s[i];
        let ghost prev = parts@.map_values(|p: Vec<u8>| p@);
        assert(s@.take(i + 1).drop_last() =~= s@.take(i as int));
        assert(s@.take(i + 1).last() == b);
        if b == sep {
            parts.push(Vec::new());
            assert(parts@.map_values(|p: Vec<u8>| p@) =~= prev.push(seq![]));
        } else {
            let last = parts.len() - 1;
            let mut piece = parts.pop().unwrap();
            piece.push(b);
            parts.push(piece);
            assert(parts@.map_values(|p: Vec<u8>| p@) =~= prev.update(prev.len() - 1, prev.last().push(b)));
        }
        i = i + 1;
    }
    assert(s@.take(i as int) =~= s@);
    parts
}

/// The value of the decimal digits `d`, or `None` when it exceeds `limit`.
fn digits_up_to(d: &[u8], limit: u64) -> (r: Option<u64>)
    requires
        all_digits(d@),
        limit <= u32::MAX,
    ensures
        r matches Some(v) ==> v == digits_value(d@) && v <= limit,
        r is None ==> digits_value(d@) > limit,
{
    let mut acc: u64 = 0;
    let mut i: usize = 0;
    while i < d.len()
        invariant
            all_digits(d@),
            limit <= u32::MAX,
            i <= d@.len(),
            acc == digits_value(d@.take(i as int)),
            acc <= limit,
        decreases d@.len() - i,
    {
        assert(d@.take(i + 1).drop_last() =~= d@.take(i as int));
        assert(is_digit(d@[i as int]));
        acc = acc * 10 + (d[i] - 48) as u64;
        i = i + 1;
        if acc > limit {
            proof {
                lemma_digits_value_grows(d@, i as nat);
            }
            return None;
        }
    }
    assert(d@.take(i as int) =~= d@);
    Some(acc)
}

proof fn lemma_digits_value_grows(d: Seq<u8>, k: nat)
    requires
        all_digits(d),
        k <= d.len(),
    ensures
        digits_value(d.take(k as int)) <= digits_value(d),
    decreases d.len() - k,
{
    if k < d.len() {
        lemma_digits_value_grows(d, k + 1);
        assert(d.take((k + 1) as int).drop_last() =~= d.take(k as int));
        assert(is_digit(d[k as int]));
    } else {
        assert(d.take(k as int) =~= d);
    }
}

/// Whether every byte of `d` is a decimal digit.
pub fn digits_only(d: &[u8]) -> (b: bool)
    ensures
        b == all_digits(d@),
{
    let mut i: usize = 0;
    while i < d.len()
        invariant
            i <= d@.len(),
            forall|k: int| 0 <= k < i ==> #[trigger] is_digit(d@[k]),
        decreases d@.len() - i,
    {
        if d[i] < 48 || d[i] > 57 {
            assert(!is_digit(d@[i as int]));
            return false;
        }
        i = i + 1;
    }
    true
}

/// Reads `s` as `str::parse::<u32>` does (see `parse_u32_spec`).
pub fn parse_u32(s: &[u8]) -> (r: Option<u32>)
    ensures
        r == parse_u32_spec(s@),
{
    let start: usize = if s.len() > 0 && s[0] == 43 { 1 } else { 0 };
    let mut d: Vec<u8> = Vec::new();
    let mut i: usize = start;
    while i < s.len()
        invariant
            start <= i <= s@.len(),
            d@ == s@.subrange(start as int, i as int),
        decreases s@.len() - i,
    {
        d.push(s[i]);
        i = i + 1;
        assert(d@ =~= s@.subrange(start as int, i as int));
    }
    assert(start == 1 ==> d@ =~= s@.drop_first());
    assert(start == 0 ==> d@ =~= s@);
    if d.len() == 0 || !digits_only(d.as_slice()) {
        return None;
    }
    match digits_up_to(d.as_slice(), 0xffff_ffff) {
        Some(v) => Some(v as u32),
        None => None,
    }
}

/// The decimal value of `n` reads back as `n`, and has no leading zero.
pub proof fn lemma_decimal_digits(n: nat)
    ensures
        all_digits(decimal(n)),
        digits_value(decimal(n)) == n,
        decimal(n).len() >= 1,
        decimal(n).len() > 1 ==> decimal(n)[0] != 48,
        n < 10 ==> decimal(n).len() == 1,
        n >= 10 ==> decimal(n).len() >= 2,
        n < 100 ==> decimal(n).len() <= 2,
        n < 1000 ==> decimal(n).len() <= 3,
    decreases n,
{
    if n >= 10 {
        lemma_decimal_digits(n / 10);
        let d = decimal(n);
        assert(d.drop_last() =~= decimal(n / 10));
        assert forall|i: int| 0 <= i < d.len() implies #[trigger] is_digit(d[i]) by {
            if i < d.len() - 1 {
                assert(d[i] == decimal(n / 10)[i]);
            }
        }
        if n / 10 < 10 {
            assert(n / 10 >= 1);
            assert(decimal(n / 10) == seq![((n / 10) + 48) as u8]);
            assert(decimal(n / 10)[0] != 48);
        }
        assert(d[0] == decimal(n / 10)[0]);
        assert(n == (n / 10) * 10 + n % 10);
        assert(d.last() == (n % 10 + 48) as u8);
        assert((d.last() - 48) as nat == n % 10);
        assert(digits_value(d) == digits_value(d.drop_last()) * 10 + (d.last() - 48) as nat);
    } else {
        assert(decimal(n).drop_last() =~= Seq::<u8>::empty());
        assert(digits_value(decimal(n)) == digits_value(decimal(n).drop_last()) * 10 + (decimal(n).last() - 48) as nat);
    }
}

/// A number written in decimal reads back as itself.
pub proof fn lemma_parse_u32_decimal(n: u32)
    ensures
        parse_u32_spec(decimal(n as nat)) == Some(n),
{
    lemma_decimal_digits(n as nat);
    assert(is_digit(decimal(n as nat)[0]));
}

} // verus!
