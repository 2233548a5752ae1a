use vstd::prelude::*;

verus! {

/// The ASCII decimal rendering of a number, most significant digit first.
pub open spec fn dec_digits(n: nat) -> Seq<u8>
    decreases n,
{
    if n < 10 {
        seq![(48 + n) as u8]
    } else {
        dec_digits(n / 10) + seq![(48 + n % 10) as u8]
    }
}

pub open spec fn is_dec_digit(c: u8) -> bool {
    48 <= c && c <= 57
}

/// The number a sequence of ASCII digits denotes.
pub open spec fn dec_value(ds: Seq<u8>) -> int
    decreases ds.len(),
{
    if ds.len() == 0 {
        0
    } else {
        dec_value(ds.drop_last()) * 10 + (ds.last() as int - 48)
    }
}

/// The first position at or after `pos` that does not hold an ASCII digit.
pub open spec fn digit_run_end(s: Seq<u8>, pos: int) -> int
    decreases s.len() - pos when 0 <= pos <= s.len()
{
    if pos < s.len() && is_dec_digit(s[pos]) {
        digit_run_end(s, pos + 1)
    } else {
        pos
    }
}

/// Reading a decimal number at `pos`: the value of the maximal digit run,
/// when the run is non-empty and the value fits in a u64.
pub open spec fn spec_parse_u64(s: Seq<u8>, pos: int) -> Option<(u64, int)> {
    let end = digit_run_end(s, pos);
    if pos < end && dec_value(s.subrange(pos, end)) <= u64::MAX {
        Some((dec_value(s.subrange(pos, end)) as u64, end))
    } else {
        None
    }
}

pub proof fn lemma_dec_digits_are_digits(n: nat)
    ensures
        dec_digits(n).len() >= 1,
        forall|i: int| 0 <= i < dec_digits(n).len() ==> is_dec_digit(#[trigger] dec_digits(n)[i]),
    decreases n,
{
    if n >= 10 {
        lemma_dec_digits_are_digits(n / 10);
    }
}

pub proof fn lemma_dec_value_of_digits(n: nat)
    ensures
        dec_value(dec_digits(n)) == n,
    decreases n,
{
    let ds = dec_digits(n);
    if n < 10 {
        assert(ds =~= seq![(48 + n) as u8]);
        assert(ds.drop_last() =~= Seq::<u8>::empty());
        assert(dec_value(Seq::<u8>::empty()) == 0);
        assert(dec_value(ds) == dec_value(ds.drop_last()) * 10 + (ds.last() as int - 48));
        assert(ds.last() == (48 + n) as u8);
    } else {
        lemma_dec_value_of_digits(n / 10);
        assert(ds == dec_digits(n / 10) + seq![(48 + n % 10) as u8]);
        assert(ds.drop_last() =~= dec_digits(n / 10));
        assert(dec_value(ds) == dec_value(ds.drop_last()) * 10 + (ds.last() as int - 48));
        assert(ds.last() == (48 + n % 10) as u8);
        assert(n == (n / 10) * 10 + n % 10);
    }
}

proof fn lemma_digit_run_end_at(s: Seq<u8>, pos: int, k: int)
    requires
        0 <= pos <= k <= s.len(),
        forall|j: int| pos <= j < k ==> is_dec_digit(#[trigger] s[j]),
        k == s.len() || !is_dec_digit(s[k]),
    ensures
        digit_run_end(s, pos) == k,
    decreases k - pos,
{
    if pos < k {
        lemma_digit_run_end_at(s, pos + 1, k);
    }
}

proof fn lemma_dec_value_snoc(s: Seq<u8>, pos: int, i: int)
    requires
        0 <= pos <= i < s.len(),
    ensures
        dec_value(s.subrange(pos, i + 1)) == 10 * dec_value(s.subrange(pos, i)) + (s[i] as int
            - 48),
{
    let w = s.subrange(pos, i + 1);
    assert(w.drop_last() =~= s.subrange(pos, i));
    assert(w.last() == s[i]);
}

/// Parsing at a position reads back exactly what rendering wrote there.
pub proof fn lemma_parse_u64_at(s: Seq<u8>, pos: int, n: u64, rest: Seq<u8>)
    requires
        0 <= pos <= s.len(),
        s.subrange(pos, s.len() as int) == dec_digits(n as nat) + rest,
        rest.len() == 0 || !is_dec_digit(rest[0]),
    ensures
        spec_parse_u64(s, pos) == Some::<(u64, int)>(
            (n, pos + dec_digits(n as nat).len() as int),
        ),
{
    let ds = dec_digits(n as nat);
    let tail = s.subrange(pos, s.len() as int);
    lemma_dec_digits_are_digits(n as nat);
    lemma_dec_value_of_digits(n as nat);
    assert(tail.len() == ds.len() + rest.len());
    assert(forall|j: int| pos <= j < s.len() ==> s[j] == tail[j - pos]);
    assert(forall|j: int| pos <= j < pos + ds.len() ==> is_dec_digit(#[trigger] s[j])) by {
        assert(forall|j: int|
            pos <= j < pos + ds.len() ==> #[trigger] s[j] == ds[j - pos]);
    }
    let end = pos + ds.len() as int;
    if end < s.len() {
        assert(s[end] == rest[0]);
    }
    lemma_digit_run_end_at(s, pos, end);
    assert(s.subrange(pos, end) =~= ds);
}

/// Render a number as ASCII decimal digits.
pub fn u64_to_dec(n: u64) -> (r: Vec<u8>)
    ensures
        r@ == dec_digits(n as nat),
    decreases n,
{
    if n < 10 {
        let mut v: Vec<u8> = Vec::new();
        v.push(48 + n as u8);
        v
    } else {
        let mut v = u64_to_dec(n / 10);
        v.push(48 + (n % 10) as u8);
        proof {
            assert(v@ =~= dec_digits(n as nat));
        }
        v
    }
}

/// Read a decimal number at `pos`; the maximal digit run, rejected when empty
/// or when its value does not fit in a u64.
pub fn parse_u64(s: &Vec<u8>, pos: usize) -> (r: Option<(u64, usize)>)
    requires
        pos <= s@.len(),
    ensures
        match r {
            Some((v, end)) => spec_parse_u64(s@, pos as int) == Some::<(u64, int)>(
                (v, end as int),
            ) && pos < end <= s@.len(),
            None => spec_parse_u64(s@, pos as int) is None,
        },
{
    let mut i: usize = pos;
    let mut acc: u128 = 0;
    while i < s.len() && 48 <= s[i] && s[i] <= 57
        invariant
            pos <= i <= s@.len(),
            digit_run_end(s@, pos as int) == digit_run_end(s@, i as int),
            acc <= u64::MAX ==> acc == dec_value(s@.subrange(pos as int, i as int)),
            acc > u64::MAX ==> dec_value(s@.subrange(pos as int, i as int)) > u64::MAX,
            acc <= u64::MAX as u128 * 10 + 9,
        decreases s@.len() - i,
    {
        proof {
            lemma_dec_value_snoc(s@, pos as int, i as int);
        }
        let d = (s[i] - 48) as u128;
        if acc <= u64::MAX as u128 {
            acc = acc * 10 + d;
        }
        i += 1;
    }
    proof {
        assert(digit_run_end(s@, i as int) == i as int);
    }
    if i == pos {
        None
    } else if acc <= u64::MAX as u128 {
        Some((acc as u64, i))
    } else {
        None
    }
}

/// The little-endian bytes of a u64, as the block digest input carries them.
pub open spec fn u64_le_bytes(n: u64) -> Seq<u8> {
    seq![
        (n & 0xff) as u8,
        ((n >> 8) & 0xff) as u8,
        ((n >> 16) & 0xff) as u8,
        ((n >> 24) & 0xff) as u8,
        ((n >> 32) & 0xff) as u8,
        ((n >> 40) & 0xff) as u8,
        ((n >> 48) & 0xff) as u8,
        ((n >> 56) & 0xff) as u8,
    ]
}

/// The little-endian byte rendering of a u64.
pub fn u64_to_le_bytes(n: u64) -> (r: Vec<u8>)
    ensures
        r@ == u64_le_bytes(n),
        r@.len() == 8,
{
    proof {
        assert(forall|x: u64, k: u64| k < 64 ==> ((x >> k) & 0xff) < 256) by (bit_vector);
        assert(n & 0xff == (n >> 0) & 0xff) by (bit_vector);
    }
    let mut r: Vec<u8> = Vec::new();
    r.push((n & 0xff) as u8);
    r.push(((n >> 8) & 0xff) as u8);
    r.push(((n >> 16) & 0xff) as u8);
    r.push(((n >> 24) & 0xff) as u8);
    r.push(((n >> 32) & 0xff) as u8);
    r.push(((n >> 40) & 0xff) as u8);
    r.push(((n >> 48) & 0xff) as u8);
    r.push(((n >> 56) & 0xff) as u8);
    proof {
        assert(r@ =~= u64_le_bytes(n));
    }
    r
}

} // verus!
