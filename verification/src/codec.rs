//! The canonical byte encoding of the values that are hashed.
//!
//! Numbers are written in decimal. Inside a block every field ends where the
//! next one begins without doubt: a number is closed by `;`, a text is
//! preceded by its length in bytes and `:`.

use vstd::prelude::*;

verus! {

/// The byte `;`, which closes a number field.
pub const NUMBER_END: u8 = 59;

/// The byte `:`, which closes a length.
pub const LENGTH_END: u8 = 58;

/// The byte `-`, which precedes a negative number and stands for an absent text.
pub const MINUS: u8 = 45;

/// The byte `+`, which precedes a text that is present.
pub const PLUS: u8 = 43;

/// The ASCII digit of a value below ten.
pub open spec fn digit(d: nat) -> u8 {
    (48 + d) as u8
}

/// A natural number in decimal, without leading zeros.
pub open spec fn decimal(n: nat) -> Seq<u8>
    decreases n,
{
    if n < 10 {
        seq![digit(n)]
    } else {
        decimal(n / 10).push(digit(n % 10))
    }
}

/// An integer in decimal, with `-` before a negative one.
pub open spec fn signed_decimal(n: int) -> Seq<u8> {
    if n < 0 {
        seq![MINUS] + decimal((-n) as nat)
    } else {
        decimal(n as nat)
    }
}

/// A number as a field of a block: its decimal digits, then `;`.
pub open spec fn number_field(n: nat) -> Seq<u8> {
    decimal(n).push(NUMBER_END)
}

/// A signed number as a field of a block.
pub open spec fn signed_field(n: int) -> Seq<u8> {
    signed_decimal(n).push(NUMBER_END)
}

/// A text as a field of a block: the number of its bytes, `:`, then the bytes.
pub open spec fn text_field(bytes: Seq<u8>) -> Seq<u8> {
    decimal(bytes.len()).push(LENGTH_END) + bytes
}

/// A text that may be absent: `-` alone, or `+` and the text field.
pub open spec fn optional_text_field(bytes: Option<Seq<u8>>) -> Seq<u8> {
    match bytes {
        None => seq![MINUS],
        Some(b) => seq![PLUS] + text_field(b),
    }
}

/// Appends the decimal digits of `n` to `out`.
pub fn push_decimal(out: &mut Vec<u8>, n: u64)
    ensures
        final(out)@ == old(out)@ + decimal(n as nat),
    decreases n,
{
    if n >= 10 {
        push_decimal(out, n / 10);
    }
    let low: u8 = (n % 10) as u8;
    out.push(48 + low);
}

/// Appends the decimal digits of `n` to `out`, with `-` first where `n` is negative.
pub fn push_signed_decimal(out: &mut Vec<u8>, n: i64)
    ensures
        final(out)@ == old(out)@ + signed_decimal(n as int),
{
    if n < 0 {
        out.push(MINUS);
        let magnitude: u64 = ((-(n + 1)) as u64) + 1;
        push_decimal(out, magnitude);
    } else {
        push_decimal(out, n as u64);
    }
}

/// Appends `n` as a number field to `out`.
pub fn push_number_field(out: &mut Vec<u8>, n: u64)
    ensures
        final(out)@ == old(out)@ + number_field(n as nat),
{
    push_decimal(out, n);
    out.push(NUMBER_END);
}

/// Appends `n` as a signed number field to `out`.
pub fn push_signed_field(out: &mut Vec<u8>, n: i64)
    ensures
        final(out)@ == old(out)@ + signed_field(n as int),
{
    push_signed_decimal(out, n);
    out.push(NUMBER_END);
}

/// Appends the bytes of `bytes` to `out`.
pub fn push_bytes(out: &mut Vec<u8>, bytes: &[u8])
    ensures
        final(out)@ == old(out)@ + bytes@,
{
    let mut i: usize = 0;
    while i < bytes.len()
        invariant
            i <= bytes.len(),
            out@ == old(out)@ + bytes@.take(i as int),
        decreases bytes.len() - i,
    {
        out.push(bytes[i]);
        i += 1;
    }
    assert(bytes@.take(bytes.len() as int) == bytes@);
}

/// Appends `bytes` as a text field to `out`.
pub fn push_text_field(out: &mut Vec<u8>, bytes: &[u8])
    ensures
        final(out)@ == old(out)@ + text_field(bytes@),
{
    push_decimal(out, bytes.len() as u64);
    out.push(LENGTH_END);
    push_bytes(out, bytes);
}

/// Joining is associative.
pub proof fn lemma_join_assoc(x: Seq<u8>, y: Seq<u8>, z: Seq<u8>)
    ensures
        (x + y) + z == x + (y + z),
{
    assert((x + y) + z =~= x + (y + z));
}

/// Whether a byte is an ASCII digit.
pub open spec fn is_digit(b: u8) -> bool {
    48 <= b <= 57
}

/// A decimal is one digit or more, and nothing but digits.
pub proof fn lemma_decimal_is_digits(n: nat)
    ensures
        decimal(n).len() >= 1,
        forall|i: int| 0 <= i < decimal(n).len() ==> is_digit(#[trigger] decimal(n)[i]),
    decreases n,
{
    if n >= 10 {
        lemma_decimal_is_digits(n / 10);
    }
}

/// Two numbers with the same decimal are the same.
pub proof fn lemma_decimal_injective(a: nat, b: nat)
    requires
        decimal(a) == decimal(b),
    ensures
        a == b,
    decreases a,
{
    lemma_decimal_is_digits(a / 10);
    lemma_decimal_is_digits(b / 10);
    if a < 10 && b < 10 {
        assert(decimal(a)[0] == digit(a));
        assert(decimal(b)[0] == digit(b));
    } else if a < 10 {
        assert(decimal(a).len() == 1);
        assert(decimal(b).len() == decimal(b / 10).len() + 1);
    } else if b < 10 {
        assert(decimal(b).len() == 1);
        assert(decimal(a).len() == decimal(a / 10).len() + 1);
    } else {
        assert(decimal(a).drop_last() =~= decimal(a / 10));
        assert(decimal(b).drop_last() =~= decimal(b / 10));
        lemma_decimal_injective(a / 10, b / 10);
        assert(decimal(a).last() == digit(a % 10));
        assert(decimal(b).last() == digit(b % 10));
        assert(a % 10 == b % 10);
        assert(a == 10 * (a / 10) + a % 10);
        assert(b == 10 * (b / 10) + b % 10);
    }
}

/// A decimal closed by a byte that is no digit can be read off the front of
/// any bytes in one way only.
pub proof fn lemma_decimal_head(a: nat, b: nat, end: u8, after_a: Seq<u8>, after_b: Seq<u8>)
    requires
        !is_digit(end),
        decimal(a).push(end) + after_a == decimal(b).push(end) + after_b,
    ensures
        a == b,
        after_a == after_b,
{
    let da = decimal(a);
    let db = decimal(b);
    let left = da.push(end) + after_a;
    let right = db.push(end) + after_b;
    lemma_decimal_is_digits(a);
    lemma_decimal_is_digits(b);
    if da.len() < db.len() {
        assert(left[da.len() as int] == end);
        assert(right[da.len() as int] == db[da.len() as int]);
        assert(false);
    }
    if db.len() < da.len() {
        assert(right[db.len() as int] == end);
        assert(left[db.len() as int] == da[db.len() as int]);
        assert(false);
    }
    assert(da =~= db) by {
        assert forall|i: int| 0 <= i < da.len() implies da[i] == db[i] by {
            assert(left[i] == da[i]);
            assert(right[i] == db[i]);
        }
    }
    lemma_decimal_injective(a, b);
    assert(after_a =~= after_b) by {
        assert(left.len() == right.len());
        assert forall|i: int| 0 <= i < after_a.len() implies after_a[i] == after_b[i] by {
            assert(left[da.len() + 1 + i] == after_a[i]);
            assert(right[db.len() + 1 + i] == after_b[i]);
        }
    }
}

/// A number field can be read off the front of any bytes in one way only.
pub proof fn lemma_number_field_head(a: nat, b: nat, after_a: Seq<u8>, after_b: Seq<u8>)
    requires
        number_field(a) + after_a == number_field(b) + after_b,
    ensures
        a == b,
        after_a == after_b,
{
    lemma_decimal_head(a, b, NUMBER_END, after_a, after_b);
}

/// A signed number field can be read off the front of any bytes in one way
/// only.
pub proof fn lemma_signed_field_head(a: int, b: int, after_a: Seq<u8>, after_b: Seq<u8>)
    requires
        signed_field(a) + after_a == signed_field(b) + after_b,
    ensures
        a == b,
        after_a == after_b,
{
    let left = signed_field(a) + after_a;
    let right = signed_field(b) + after_b;
    let ma = if a < 0 { (-a) as nat } else { a as nat };
    let mb = if b < 0 { (-b) as nat } else { b as nat };
    lemma_decimal_is_digits(ma);
    lemma_decimal_is_digits(mb);
    assert(left[0] == (if a < 0 { MINUS } else { decimal(ma)[0] }));
    assert(right[0] == (if b < 0 { MINUS } else { decimal(mb)[0] }));
    assert((a < 0) == (b < 0));
    if a < 0 {
        assert(left.skip(1) =~= decimal(ma).push(NUMBER_END) + after_a);
        assert(right.skip(1) =~= decimal(mb).push(NUMBER_END) + after_b);
    } else {
        assert(left =~= decimal(ma).push(NUMBER_END) + after_a);
        assert(right =~= decimal(mb).push(NUMBER_END) + after_b);
    }
    lemma_decimal_head(ma, mb, NUMBER_END, after_a, after_b);
}

/// A text field can be read off the front of any bytes in one way only.
pub proof fn lemma_text_field_head(a: Seq<u8>, b: Seq<u8>, after_a: Seq<u8>, after_b: Seq<u8>)
    requires
        text_field(a) + after_a == text_field(b) + after_b,
    ensures
        a == b,
        after_a == after_b,
{
    assert(text_field(a) + after_a =~= decimal(a.len()).push(LENGTH_END) + (a + after_a));
    assert(text_field(b) + after_b =~= decimal(b.len()).push(LENGTH_END) + (b + after_b));
    lemma_decimal_head(a.len(), b.len(), LENGTH_END, a + after_a, b + after_b);
    assert(a =~= (a + after_a).take(a.len() as int));
    assert(b =~= (b + after_b).take(b.len() as int));
    assert(after_a =~= (a + after_a).skip(a.len() as int));
    assert(after_b =~= (b + after_b).skip(b.len() as int));
}

/// A text field that may be absent can be read off the front of any bytes
/// in one way only.
pub proof fn lemma_optional_text_field_head(
    a: Option<Seq<u8>>,
    b: Option<Seq<u8>>,
    after_a: Seq<u8>,
    after_b: Seq<u8>,
)
    requires
        optional_text_field(a) + after_a == optional_text_field(b) + after_b,
    ensures
        a == b,
        after_a == after_b,
{
    let left = optional_text_field(a) + after_a;
    let right = optional_text_field(b) + after_b;
    assert(left[0] == (if a is Some { PLUS } else { MINUS }));
    assert(right[0] == (if b is Some { PLUS } else { MINUS }));
    assert(a is Some == b is Some);
    match (a, b) {
        (Some(x), Some(y)) => {
            assert(left.skip(1) =~= text_field(x) + after_a);
            assert(right.skip(1) =~= text_field(y) + after_b);
            lemma_text_field_head(x, y, after_a, after_b);
        },
        _ => {
            assert(left.skip(1) =~= after_a);
            assert(right.skip(1) =~= after_b);
        },
    }
}

} // verus!
