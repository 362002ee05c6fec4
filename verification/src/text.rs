//! Small text-building helpers shared by the diagnostics, the
//! disassembler and the virtual machine's `print`.

use vstd::prelude::*;
use vstd::string::StringSliceAdditionalSpecFns;

verus! {

/// The character of a decimal digit `0..=9`.
pub open spec fn digit_char(d: nat) -> char {
    ((48 + d) as u8) as char
}

/// Decimal rendering of a natural number, most significant digit first,
/// with no leading zeros (zero itself renders as `0`).
pub open spec fn decimal(n: nat) -> Seq<char>
    decreases n,
{
    if n < 10 {
        seq![digit_char(n)]
    } else {
        decimal(n / 10).push(digit_char(n % 10))
    }
}

/// Decimal rendering of an integer: a leading `-` for negative values.
pub open spec fn signed_decimal(n: int) -> Seq<char> {
    if n < 0 {
        seq!['-'] + decimal((-n) as nat)
    } else {
        decimal(n as nat)
    }
}

/// `String::push`: appends one character.
#[verifier::external_body]
pub(crate) fn push_char(s: &mut String, c: char)
    ensures
        final(s)@ == old(s)@.push(c),
{
    s.push(c);
}

/// Appends `text` to `s`.
pub fn push_str(s: &mut String, text: &str)
    ensures
        final(s)@ == old(s)@ + text@,
{
    s.append(text);
}

/// Appends the decimal rendering of `n` to `s`.
pub fn push_decimal(s: &mut String, n: u64)
    ensures
        final(s)@ == old(s)@ + decimal(n as nat),
    decreases n,
{
    if n >= 10 {
        push_decimal(s, n / 10);
    }
    let d: u8 = (n % 10) as u8;
    let c = (48u8 + d) as char;
    push_char(s, c);
    proof {
        if n >= 10 {
            assert(decimal(n as nat) == decimal((n / 10) as nat).push(digit_char((n % 10) as nat)));
        }
        assert(old(s)@ + decimal(n as nat) =~= final(s)@);
    }
}

/// Appends the decimal rendering of a signed integer to `s`.
pub fn push_signed(s: &mut String, n: i64)
    ensures
        final(s)@ == old(s)@ + signed_decimal(n as int),
{
    if n < 0 {
        push_char(s, '-');
        let m: u64 = if n == i64::MIN {
            0x8000_0000_0000_0000u64
        } else {
            (-n) as u64
        };
        push_decimal(s, m);
        assert(final(s)@ =~= old(s)@ + signed_decimal(n as int));
    } else {
        push_decimal(s, n as u64);
    }
}

/// `n` rendered in decimal and padded with leading zeros to at least
/// four digits.
pub open spec fn pad4(n: nat) -> Seq<char> {
    let d = decimal(n);
    if d.len() < 4 {
        Seq::new((4 - d.len()) as nat, |k: int| '0') + d
    } else {
        d
    }
}

/// Pieces of text joined with a separator between neighbours.
pub open spec fn join_with(ms: Seq<Seq<char>>, sep: Seq<char>) -> Seq<char>
    decreases ms.len(),
{
    if ms.len() == 0 {
        seq![]
    } else if ms.len() == 1 {
        ms[0]
    } else {
        join_with(ms.drop_last(), sep) + sep + ms.last()
    }
}

proof fn lemma_decimal_len(n: nat)
    ensures
        n < 10 ==> decimal(n).len() == 1,
        10 <= n < 100 ==> decimal(n).len() == 2,
        100 <= n < 1000 ==> decimal(n).len() == 3,
        1000 <= n ==> decimal(n).len() >= 4,
    decreases n,
{
    if n >= 10 {
        lemma_decimal_len(n / 10);
    }
}

/// Appends `n` padded with zeros to four digits.
pub fn push_pad4(s: &mut String, n: usize)
    ensures
        final(s)@ == old(s)@ + pad4(n as nat),
{
    proof {
        lemma_decimal_len(n as nat);
    }
    if n < 10 {
        push_str(s, "000");
    } else if n < 100 {
        push_str(s, "00");
    } else if n < 1000 {
        push_str(s, "0");
    }
    let ghost mid = s@;
    push_decimal(s, n as u64);
    proof {
        reveal_strlit("000");
        reveal_strlit("00");
        reveal_strlit("0");
        let d = decimal(n as nat);
        if n < 10 {
            assert(Seq::new((4 - d.len()) as nat, |k: int| '0') =~= "000"@);
        } else if n < 100 {
            assert(Seq::new((4 - d.len()) as nat, |k: int| '0') =~= "00"@);
        } else if n < 1000 {
            assert(Seq::new((4 - d.len()) as nat, |k: int| '0') =~= "0"@);
        }
        assert(final(s)@ =~= old(s)@ + pad4(n as nat));
    }
}

/// Appends the strings of `items` with `sep` between neighbours.
pub fn push_joined(s: &mut String, items: &Vec<String>, sep: &str)
    ensures
        final(s)@ == old(s)@ + join_with(items@.map_values(|x: String| x@), sep@),
{
    let ghost ms = items@.map_values(|x: String| x@);
    let mut k: usize = 0;
    while k < items.len()
        invariant
            k <= items@.len(),
            ms == items@.map_values(|x: String| x@),
            s@ == old(s)@ + join_with(ms.take(k as int), sep@),
        decreases items@.len() - k,
    {
        if k > 0 {
            push_str(s, sep);
        }
        push_str(s, items[k].as_str());
        proof {
            assert(ms.take(k as int + 1).drop_last() =~= ms.take(k as int));
            if k == 0 {
                assert(join_with(ms.take(0), sep@) =~= Seq::<char>::empty());
            }
            assert(s@ =~= old(s)@ + join_with(ms.take(k as int + 1), sep@));
        }
        k += 1;
    }
    proof {
        assert(ms.take(items@.len() as int) =~= ms);
    }
}

/// Decimal rendering of a signed integer as a new string.
pub fn signed_to_string(n: i64) -> (r: String)
    ensures
        r@ == signed_decimal(n as int),
{
    let mut s = String::new();
    push_signed(&mut s, n);
    assert(s@ =~= signed_decimal(n as int));
    s
}

} // verus!

verus! {

/// Equal UTF-8 encodings mean equal text.
pub proof fn lemma_encode_injective(a: Seq<char>, b: Seq<char>)
    requires
        vstd::utf8::encode_utf8(a) == vstd::utf8::encode_utf8(b),
    ensures
        a == b,
{
    vstd::utf8::encode_utf8_decode_utf8(a);
    vstd::utf8::encode_utf8_decode_utf8(b);
}

/// String equality, by comparing the encodings byte by byte.
pub fn str_eq(a: &str, b: &str) -> (r: bool)
    ensures
        r == (a@ == b@),
{
    let x = a.as_bytes();
    let y = b.as_bytes();
    assert(x@ == vstd::utf8::encode_utf8(a@));
    assert(y@ == vstd::utf8::encode_utf8(b@));
    if x.len() != y.len() {
        return false;
    }
    let mut k: usize = 0;
    while k < x.len()
        invariant
            x@.len() == y@.len(),
            x@ == vstd::utf8::encode_utf8(a@),
            y@ == vstd::utf8::encode_utf8(b@),
            k <= x@.len(),
            forall|m: int| 0 <= m < k ==> x@[m] == y@[m],
        decreases x@.len() - k,
    {
        if x[k] != y[k] {
            return false;
        }
        k += 1;
    }
    proof {
        assert(x@ =~= y@);
        lemma_encode_injective(a@, b@);
    }
    true
}


/// The characters of a string.
pub fn chars_of(s: &str) -> (r: Vec<char>)
    ensures
        r@ == s@,
{
    let mut out: Vec<char> = Vec::new();
    for c in iter: s.chars()
        invariant
            out@ == iter.seq().take(iter.index() as int),
    {
        out.push(c);
    }
    proof {
        vstd::string::axiom_spec_iter(s);
        assert(out@ =~= s@);
    }
    out
}

} // verus!
