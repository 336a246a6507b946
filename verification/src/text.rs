//! Rendering of numbers and byte strings as text.

use vstd::prelude::*;

verus! {

/// The character of hexadecimal digit `d` (lower or upper case letters).
pub open spec fn hex_digit(d: int, upper: bool) -> char {
    if d < 10 {
        (d + 48) as char
    } else if upper {
        (d + 55) as char
    } else {
        (d + 87) as char
    }
}

/// Two lower-case hexadecimal digits of one byte.
pub open spec fn hex_byte(b: u8) -> Seq<char> {
    seq![hex_digit((b / 16) as int, false), hex_digit((b % 16) as int, false)]
}

/// Lower-case hexadecimal rendering of a byte string, two digits per byte.
pub open spec fn hex_lower(bytes: Seq<u8>) -> Seq<char>
    decreases bytes.len(),
{
    if bytes.len() == 0 {
        seq![]
    } else {
        hex_lower(bytes.drop_last()) + hex_byte(bytes.last())
    }
}

/// Decimal rendering of a natural number, without leading zeros.
pub open spec fn decimal(n: nat) -> Seq<char>
    decreases n,
{
    if n < 10 {
        seq![hex_digit(n as int, false)]
    } else {
        decimal(n / 10) + seq![hex_digit((n % 10) as int, false)]
    }
}

/// Decimal rendering of an integer, with a leading `-` when negative.
pub open spec fn signed_decimal(n: int) -> Seq<char> {
    if n < 0 {
        seq!['-'] + decimal((-n) as nat)
    } else {
        decimal(n as nat)
    }
}

/// The last `width` upper-case hexadecimal digits of `n`, zero-padded.
pub open spec fn hex_upper_fixed(n: nat, width: nat) -> Seq<char>
    decreases width,
{
    if width == 0 {
        seq![]
    } else {
        hex_upper_fixed(n / 16, (width - 1) as nat) + seq![hex_digit((n % 16) as int, true)]
    }
}

/// A one-character string holding hexadecimal digit `d`.
pub(crate) fn digit_str(d: u8, upper: bool) -> (s: &'static str)
    requires
        d < 16,
    ensures
        s@ == seq![hex_digit(d as int, upper)],
{
    if d < 10 {
        match d {
            0 => { proof { reveal_strlit("0"); } "0" }
            1 => { proof { reveal_strlit("1"); } "1" }
            2 => { proof { reveal_strlit("2"); } "2" }
            3 => { proof { reveal_strlit("3"); } "3" }
            4 => { proof { reveal_strlit("4"); } "4" }
            5 => { proof { reveal_strlit("5"); } "5" }
            6 => { proof { reveal_strlit("6"); } "6" }
            7 => { proof { reveal_strlit("7"); } "7" }
            8 => { proof { reveal_strlit("8"); } "8" }
            _ => { proof { reveal_strlit("9"); } "9" }
        }
    } else if upper {
        match d {
            10 => { proof { reveal_strlit("A"); } "A" }
            11 => { proof { reveal_strlit("B"); } "B" }
            12 => { proof { reveal_strlit("C"); } "C" }
            13 => { proof { reveal_strlit("D"); } "D" }
            14 => { proof { reveal_strlit("E"); } "E" }
            _ => { proof { reveal_strlit("F"); } "F" }
        }
    } else {
        match d {
            10 => { proof { reveal_strlit("a"); } "a" }
            11 => { proof { reveal_strlit("b"); } "b" }
            12 => { proof { reveal_strlit("c"); } "c" }
            13 => { proof { reveal_strlit("d"); } "d" }
            14 => { proof { reveal_strlit("e"); } "e" }
            _ => { proof { reveal_strlit("f"); } "f" }
        }
    }
}

/// Appends the decimal rendering of `n`.
pub fn push_decimal(s: &mut String, n: u64)
    ensures
        final(s)@ == old(s)@ + decimal(n as nat),
    decreases n,
{
    if n >= 10 {
        push_decimal(s, n / 10);
    }
    let d = (n % 10) as u8;
    s.append(digit_str(d, false));
    assert(final(s)@ =~= old(s)@ + decimal(n as nat)) by {
        if n >= 10 {
            assert(old(s)@ + decimal((n / 10) as nat) + seq![hex_digit(d as int, false)]
                =~= old(s)@ + decimal(n as nat));
        }
    }
}

/// Appends the decimal rendering of a signed number.
pub fn push_signed_decimal(s: &mut String, n: i64)
    ensures
        final(s)@ == old(s)@ + signed_decimal(n as int),
{
    if n < 0 {
        proof { reveal_strlit("-"); }
        s.append("-");
        let m: u64 = (0i128 - n as i128) as u64;
        push_decimal(s, m);
        assert(final(s)@ =~= old(s)@ + signed_decimal(n as int));
    } else {
        push_decimal(s, n as u64);
    }
}

/// Appends the last `width` upper-case hexadecimal digits of `n`, zero-padded.
pub fn push_hex_upper(s: &mut String, n: u64, width: u8)
    ensures
        final(s)@ == old(s)@ + hex_upper_fixed(n as nat, width as nat),
    decreases width,
{
    if width > 0 {
        push_hex_upper(s, n / 16, width - 1);
        let d = (n % 16) as u8;
        s.append(digit_str(d, true));
        assert(final(s)@ =~= old(s)@ + hex_upper_fixed(n as nat, width as nat));
    } else {
        assert(final(s)@ =~= old(s)@ + hex_upper_fixed(n as nat, width as nat));
    }
}

} // verus!

verus! {

/// An executable outcome whose error is a `String` agrees with a modelled
/// outcome whose error is the text of that `String`.
pub open spec fn same_outcome<T>(r: Result<T, String>, m: Result<T, Seq<char>>) -> bool {
    match r {
        Ok(v) => m == Ok::<T, Seq<char>>(v),
        Err(e) => m == Err::<T, Seq<char>>(e@),
    }
}

} // verus!

verus! {

/// The text that `String::from_utf8_lossy` makes of `bytes`.
pub uninterp spec fn utf8_lossy(bytes: Seq<u8>) -> Seq<char>;

/// Calls `String::from_utf8_lossy` (std) and takes the text as an owned `String`.
/// Trusted: the text is the one named `utf8_lossy` of the bytes, and, as the
/// std documentation says, bytes that are valid UTF-8 are decoded unchanged.
#[verifier::external_body]
pub(crate) fn from_utf8_lossy(bytes: &[u8]) -> (s: String)
    ensures
        s@ == utf8_lossy(bytes@),
        vstd::utf8::valid_utf8(bytes@) ==> s@ == vstd::utf8::decode_utf8(bytes@),
{
    String::from_utf8_lossy(bytes).into_owned()
}

} // verus!

verus! {

/// A textual outcome agrees with a modelled one, on both sides.
pub open spec fn same_text_outcome(r: Result<String, String>, m: Result<Seq<char>, Seq<char>>) -> bool {
    match r {
        Ok(s) => m == Ok::<Seq<char>, Seq<char>>(s@),
        Err(e) => m == Err::<Seq<char>, Seq<char>>(e@),
    }
}

} // verus!

verus! {

/// Two hexadecimal digits per byte.
pub proof fn lemma_hex_lower_len(b: Seq<u8>)
    ensures
        hex_lower(b).len() == 2 * b.len(),
    decreases b.len(),
{
    if b.len() > 0 {
        lemma_hex_lower_len(b.drop_last());
    }
}

/// The hexadecimal rendering of the first `k` bytes is the first `2k` digits
/// of the rendering of all bytes.
pub proof fn lemma_hex_lower_prefix(b: Seq<u8>, k: int)
    requires
        0 <= k <= b.len(),
    ensures
        hex_lower(b.take(k)) == hex_lower(b).take(2 * k),
    decreases b.len(),
{
    lemma_hex_lower_len(b);
    if k == b.len() {
        assert(b.take(k) =~= b);
        assert(hex_lower(b).take(2 * k) =~= hex_lower(b));
    } else {
        lemma_hex_lower_prefix(b.drop_last(), k);
        lemma_hex_lower_len(b.drop_last());
        assert(b.take(k) =~= b.drop_last().take(k));
        assert(hex_lower(b).take(2 * k) =~= hex_lower(b.drop_last()).take(2 * k));
    }
}

} // verus!

verus! {

/// Where the two digits of each byte stand in a hexadecimal rendering.
pub proof fn lemma_hex_lower_at(b: Seq<u8>, i: int)
    requires
        0 <= i < b.len(),
    ensures
        hex_lower(b)[2 * i] == hex_digit((b[i] / 16) as int, false),
        hex_lower(b)[2 * i + 1] == hex_digit((b[i] % 16) as int, false),
    decreases b.len(),
{
    lemma_hex_lower_len(b.drop_last());
    if i < b.len() - 1 {
        lemma_hex_lower_at(b.drop_last(), i);
    }
}

} // verus!
