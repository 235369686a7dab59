//! Byte-sequence helpers shared by the framing and configuration layers:
//! equality, slicing, decimal rendering and parsing, and JSON string escaping.

use vstd::prelude::*;

verus! {

/// Ghost image of an optional byte vector.
pub open spec fn opt_view(o: Option<Vec<u8>>) -> Option<Seq<u8>> {
    match o {
        None => None,
        Some(v) => Some(v@),
    }
}

/// True exactly when the two byte vectors hold the same bytes.
pub fn bytes_eq(a: &Vec<u8>, b: &Vec<u8>) -> (r: bool)
    ensures
        r == (a@ == b@),
{
    if a.len() != b.len() {
        return false;
    }
    let mut i: usize = 0;
    while i < a.len()
        invariant
            a.len() == b.len(),
            i <= a.len(),
            forall|j: int| 0 <= j < i ==> a@[j] == b@[j],
        decreases a.len() - i,
    {
        if a[i] != b[i] {
            return false;
        }
        i += 1;
    }
    proof {
        assert(a@ =~= b@);
    }
    true
}

/// Copy of the first `n` bytes of `v`.
pub fn take_front(v: &Vec<u8>, n: usize) -> (r: Vec<u8>)
    requires
        n <= v.len(),
    ensures
        r@ == v@.take(n as int),
{
    let mut r: Vec<u8> = Vec::new();
    let mut i: usize = 0;
    while i < n
        invariant
            i <= n,
            n <= v.len(),
            r@ == v@.take(i as int),
        decreases n - i,
    {
        r.push(v[i]);
        proof {
            assert(v@.take(i + 1 as int) =~= v@.take(i as int).push(v@[i as int]));
        }
        i += 1;
    }
    r
}

/// Fresh copy of a byte vector.
pub fn copy_bytes(v: &Vec<u8>) -> (r: Vec<u8>)
    ensures
        r@ == v@,
{
    let r = take_front(v, v.len());
    proof {
        assert(v@.take(v@.len() as int) =~= v@);
    }
    r
}

/// Copy of `v` with its first `n` bytes removed.
pub fn drop_front(v: &Vec<u8>, n: usize) -> (r: Vec<u8>)
    requires
        n <= v.len(),
    ensures
        r@ == v@.skip(n as int),
{
    let mut r: Vec<u8> = Vec::new();
    let mut i: usize = n;
    while i < v.len()
        invariant
            n <= i <= v.len(),
            r@ == v@.subrange(n as int, i as int),
        decreases v.len() - i,
    {
        r.push(v[i]);
        proof {
            assert(v@.subrange(n as int, i + 1 as int) =~= v@.subrange(n as int, i as int).push(
                v@[i as int],
            ));
        }
        i += 1;
    }
    proof {
        assert(v@.subrange(n as int, v@.len() as int) =~= v@.skip(n as int));
    }
    r
}

/// Append all of `src` onto the end of `dst`.
pub fn append_bytes(dst: &mut Vec<u8>, src: &Vec<u8>)
    ensures
        final(dst)@ == old(dst)@ + src@,
{
    let mut i: usize = 0;
    while i < src.len()
        invariant
            i <= src.len(),
            dst@ == old(dst)@ + src@.take(i as int),
        decreases src.len() - i,
    {
        dst.push(src[i]);
        proof {
            assert(old(dst)@ + src@.take(i + 1 as int) =~= (old(dst)@ + src@.take(i as int)).push(
                src@[i as int],
            ));
        }
        i += 1;
    }
    proof {
        assert(src@.take(src@.len() as int) =~= src@);
    }
}

/// Decimal digits (most significant first) of a natural number.
pub open spec fn dec_digits(n: nat) -> Seq<u8>
    decreases n,
{
    if n < 10 {
        seq![(48 + n) as u8]
    } else {
        dec_digits(n / 10).push((48 + n % 10) as u8)
    }
}

pub open spec fn is_digit(b: u8) -> bool {
    48 <= b <= 57
}

pub open spec fn digit_val(b: u8) -> nat {
    (b - 48) as nat
}

/// Value of a digit string read as a decimal numeral.
pub open spec fn dec_value(ds: Seq<u8>) -> nat
    decreases ds.len(),
{
    if ds.len() == 0 {
        0
    } else {
        dec_value(ds.drop_last()) * 10 + digit_val(ds.last())
    }
}

/// Rendering a number as decimal digits and reading them back is the identity;
/// the rendering is never empty and holds digit bytes only.
pub proof fn lemma_dec_digits_value(n: nat)
    ensures
        dec_value(dec_digits(n)) == n,
        dec_digits(n).len() >= 1,
        forall|i: int| 0 <= i < dec_digits(n).len() ==> is_digit(#[trigger] dec_digits(n)[i]),
    decreases n,
{
    if n < 10 {
        let d = seq![(48 + n) as u8];
        assert(dec_digits(n) =~= d);
        assert(d.drop_last() =~= Seq::<u8>::empty());
        assert(d.last() == (48 + n) as u8);
        assert(dec_value(Seq::<u8>::empty()) == 0);
        assert(dec_value(d) == dec_value(d.drop_last()) * 10 + digit_val(d.last()));
    } else {
        lemma_dec_digits_value(n / 10);
        let pre = dec_digits(n / 10);
        let last = (48 + n % 10) as u8;
        assert(dec_digits(n) == pre.push(last));
        assert(pre.push(last).drop_last() =~= pre);
        assert(pre.push(last).last() == last);
        assert(dec_value(dec_digits(n)) == dec_value(pre) * 10 + digit_val(last));
        vstd::arithmetic::div_mod::lemma_fundamental_div_mod(n as int, 10);
        assert(forall|i: int|
            0 <= i < dec_digits(n).len() ==> is_digit(#[trigger] dec_digits(n)[i])) by {
            assert(forall|i: int| 0 <= i < pre.len() ==> #[trigger] pre.push(last)[i] == pre[i]);
        }
    }
}

/// Appending one digit multiplies the value by ten and adds the digit,
/// so a longer numeral is never smaller.
pub proof fn lemma_dec_value_push(ds: Seq<u8>, b: u8)
    ensures
        dec_value(ds.push(b)) == dec_value(ds) * 10 + digit_val(b),
        dec_value(ds.push(b)) >= dec_value(ds),
{
    assert(ds.push(b).drop_last() =~= ds);
    assert(ds.push(b).last() == b);
    assert(dec_value(ds) * 10 >= dec_value(ds)) by (nonlinear_arith);
}

/// Decimal rendering of a machine integer.
pub fn usize_dec_digits(n: usize) -> (r: Vec<u8>)
    ensures
        r@ == dec_digits(n as nat),
    decreases n,
{
    if n < 10 {
        let mut r: Vec<u8> = Vec::new();
        r.push(48 + (n as u8));
        proof {
            assert(r@ =~= dec_digits(n as nat));
        }
        r
    } else {
        let mut r = usize_dec_digits(n / 10);
        r.push(48 + ((n % 10) as u8));
        r
    }
}

/// Lowercase hexadecimal digit for a value below sixteen.
pub open spec fn hex_digit(n: u8) -> u8 {
    if n < 10 {
        (48 + n) as u8
    } else {
        (87 + n) as u8
    }
}

/// How one byte of a string appears inside a JSON string literal:
/// quote, backslash and control bytes are escaped, everything else stands as is.
pub open spec fn escape_byte(b: u8) -> Seq<u8> {
    if b == 34 {
        seq![92u8, 34u8]
    } else if b == 92 {
        seq![92u8, 92u8]
    } else if b == 8 {
        seq![92u8, 98u8]
    } else if b == 9 {
        seq![92u8, 116u8]
    } else if b == 10 {
        seq![92u8, 110u8]
    } else if b == 12 {
        seq![92u8, 102u8]
    } else if b == 13 {
        seq![92u8, 114u8]
    } else if b < 32 {
        seq![92u8, 117u8, 48u8, 48u8, hex_digit(b / 16), hex_digit(b % 16)]
    } else {
        seq![b]
    }
}

/// JSON string-literal escaping of a whole byte string.
pub open spec fn json_escaped(s: Seq<u8>) -> Seq<u8>
    decreases s.len(),
{
    if s.len() == 0 {
        Seq::empty()
    } else {
        escape_byte(s[0]) + json_escaped(s.drop_first())
    }
}

pub proof fn lemma_json_escaped_push(s: Seq<u8>, b: u8)
    ensures
        json_escaped(s.push(b)) == json_escaped(s) + escape_byte(b),
    decreases s.len(),
{
    if s.len() == 0 {
        assert(s.push(b).drop_first() =~= Seq::<u8>::empty());
        assert(s.push(b)[0] == b);
        assert(json_escaped(Seq::<u8>::empty()) =~= Seq::<u8>::empty());
        assert(json_escaped(s.push(b)) == escape_byte(b) + json_escaped(Seq::<u8>::empty()));
        assert(escape_byte(b) + Seq::<u8>::empty() =~= escape_byte(b));
        assert(json_escaped(s) + escape_byte(b) =~= escape_byte(b));
    } else {
        assert(s.push(b).drop_first() =~= s.drop_first().push(b));
        lemma_json_escaped_push(s.drop_first(), b);
        assert(json_escaped(s.push(b)) == escape_byte(s[0]) + (json_escaped(s.drop_first())
            + escape_byte(b)));
        assert(escape_byte(s[0]) + (json_escaped(s.drop_first()) + escape_byte(b)) =~= (escape_byte(
            s[0],
        ) + json_escaped(s.drop_first())) + escape_byte(b));
    }
}

/// JSON string-literal escaping, executable form.
pub fn escape_json_bytes(s: &Vec<u8>) -> (r: Vec<u8>)
    ensures
        r@ == json_escaped(s@),
{
    let mut r: Vec<u8> = Vec::new();
    let mut i: usize = 0;
    while i < s.len()
        invariant
            i <= s.len(),
            r@ == json_escaped(s@.take(i as int)),
        decreases s.len() - i,
    {
        let b = s[i];
        let ghost pre = r@;
        if b == 34 {
            r.push(92);
            r.push(34);
        } else if b == 92 {
            r.push(92);
            r.push(92);
        } else if b == 8 {
            r.push(92);
            r.push(98);
        } else if b == 9 {
            r.push(92);
            r.push(116);
        } else if b == 10 {
            r.push(92);
            r.push(110);
        } else if b == 12 {
            r.push(92);
            r.push(102);
        } else if b == 13 {
            r.push(92);
            r.push(114);
        } else if b < 32 {
            r.push(92);
            r.push(117);
            r.push(48);
            r.push(48);
            let hi = b / 16;
            let lo = b % 16;
            r.push(if hi < 10 { 48 + hi } else { 87 + hi });
            r.push(if lo < 10 { 48 + lo } else { 87 + lo });
        } else {
            r.push(b);
        }
        proof {
            assert(r@ =~= pre + escape_byte(b));
            lemma_json_escaped_push(s@.take(i as int), b);
            assert(s@.take(i + 1 as int) =~= s@.take(i as int).push(s@[i as int]));
        }
        i += 1;
    }
    proof {
        assert(s@.take(s@.len() as int) =~= s@);
    }
    r
}

} // verus!
