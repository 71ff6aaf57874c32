use vstd::prelude::*;

verus! {

/// `1024^i`, the size of unit number `i` of the binary ladder B, KB, MB, GB, TB.
pub open spec fn unit_bytes(i: nat) -> nat
    decreases i,
{
    if i == 0 {
        1
    } else {
        1024 * unit_bytes((i - 1) as nat)
    }
}

/// The index of the unit a byte count is shown in: the largest `i <= 4` with
/// `1024^i <= bytes`, or 0 for counts under one kibibyte.
pub open spec fn unit_index(bytes: nat) -> nat {
    if bytes < unit_bytes(1) {
        0
    } else if bytes < unit_bytes(2) {
        1
    } else if bytes < unit_bytes(3) {
        2
    } else if bytes < unit_bytes(4) {
        3
    } else {
        4
    }
}

/// The symbol of unit number `i`.
pub open spec fn unit_symbol(i: nat) -> Seq<char> {
    if i == 0 {
        seq!['B']
    } else if i == 1 {
        seq!['K', 'B']
    } else if i == 2 {
        seq!['M', 'B']
    } else if i == 3 {
        seq!['G', 'B']
    } else {
        seq!['T', 'B']
    }
}

/// `n / d` rounded to the nearest integer, ties going to the even neighbour.
pub open spec fn div_round_even(n: nat, d: nat) -> nat
    recommends
        d > 0,
{
    let q = n / d;
    let r = n % d;
    if 2 * r > d || (2 * r == d && q % 2 == 1) {
        q + 1
    } else {
        q
    }
}

/// The value shown for `bytes`, in hundredths of its unit.
pub open spec fn shown_hundredths(bytes: nat) -> nat {
    div_round_even(100 * bytes, unit_bytes(unit_index(bytes)))
}

/// The ASCII digit for `d < 10`.
pub open spec fn digit_char(d: nat) -> char {
    ((d + 48) as u8) as char
}

/// The decimal digits of `n`, most significant first, without leading zeros.
pub open spec fn decimal(n: nat) -> Seq<char>
    decreases n,
{
    if n < 10 {
        seq![digit_char(n)]
    } else {
        decimal(n / 10).push(digit_char(n % 10))
    }
}

/// A number of hundredths written with exactly two decimal places.
pub open spec fn fixed2(h: nat) -> Seq<char> {
    decimal(h / 100) + seq!['.', digit_char((h / 10) % 10), digit_char(h % 10)]
}

/// The readable form of a byte count: the value in its unit with two decimal
/// places, a space, and the unit symbol.
pub open spec fn human_text(bytes: nat) -> Seq<char> {
    fixed2(shown_hundredths(bytes)) + seq![' '] + unit_symbol(unit_index(bytes))
}

pub(crate) fn push_decimal(out: &mut Vec<char>, n: u64)
    ensures
        final(out)@ == old(out)@ + decimal(n as nat),
    decreases n,
{
    if n < 10 {
        out.push(((n as u8) + 48) as char);
    } else {
        push_decimal(out, n / 10);
        out.push((((n % 10) as u8) + 48) as char);
    }
}

/// Relies on `String`'s `FromIterator<&char>`: the string holds the characters in order.
#[verifier::external_body]
pub(crate) fn string_of(chars: &Vec<char>) -> (r: String)
    ensures
        r@ == chars@,
{
    String::from_iter(chars.iter())
}

/// Appends the characters of `human_text(bytes)`.
pub(crate) fn push_human(out: &mut Vec<char>, bytes: u64)
    ensures
        final(out)@ == old(out)@ + human_text(bytes as nat),
{
    reveal_with_fuel(unit_bytes, 5);
    assert(unit_bytes(1) == 1024 && unit_bytes(2) == 1048576 && unit_bytes(3) == 1073741824
        && unit_bytes(4) == 1099511627776);
    let (index, unit): (u64, u64) = if bytes < 1024 {
        (0, 1)
    } else if bytes < 1048576 {
        (1, 1024)
    } else if bytes < 1073741824 {
        (2, 1048576)
    } else if bytes < 1099511627776 {
        (3, 1073741824)
    } else {
        (4, 1099511627776)
    };
    assert(index as nat == unit_index(bytes as nat));
    let n: u128 = 100 * (bytes as u128);
    let d: u128 = unit as u128;
    let q: u128 = n / d;
    let r: u128 = n % d;
    let h: u128 = if 2 * r > d || (2 * r == d && q % 2 == 1) {
        q + 1
    } else {
        q
    };
    assert(q <= n) by (nonlinear_arith)
        requires
            d >= 1,
            q == n / d,
    ;
    assert(h <= u64::MAX);
    let h: u64 = h as u64;
    push_decimal(out, h / 100);
    out.push('.');
    out.push((((h / 10) % 10) as u8 + 48) as char);
    out.push(((h % 10) as u8 + 48) as char);
    out.push(' ');
    if index == 1 {
        out.push('K');
    } else if index == 2 {
        out.push('M');
    } else if index == 3 {
        out.push('G');
    } else if index == 4 {
        out.push('T');
    }
    out.push('B');
    assert(final(out)@ =~= old(out)@ + human_text(bytes as nat));
}

/// The readable form of a byte count, in binary units B, KB, MB, GB and TB with
/// two decimal places (`1024` is `"1.00 KB"`); counts of a tebibyte and over
/// stay in TB.
pub fn human_size(bytes: u64) -> (r: String)
    ensures
        r@ == human_text(bytes as nat),
{
    let mut out: Vec<char> = Vec::new();
    push_human(&mut out, bytes);
    string_of(&out)
}

proof fn lemma_round_even_monotone(n1: nat, n2: nat, d: nat)
    requires
        d > 0,
        n1 <= n2,
    ensures
        div_round_even(n1, d) <= div_round_even(n2, d),
{
    let q1 = n1 / d;
    let q2 = n2 / d;
    assert(q1 <= q2) by (nonlinear_arith)
        requires
            d > 0,
            n1 <= n2,
            q1 == n1 / d,
            q2 == n2 / d,
    ;
    if q1 == q2 {
        assert(n1 % d <= n2 % d) by (nonlinear_arith)
            requires
                d > 0,
                n1 <= n2,
                n1 / d == n2 / d,
        ;
    }
}

/// Within one unit the shown value never decreases as the byte count grows:
/// for two counts shown in the same unit, the smaller one's value is at most
/// the larger one's.
pub proof fn lemma_human_size_monotone(a: u64, b: u64)
    requires
        a <= b,
        unit_index(a as nat) == unit_index(b as nat),
    ensures
        shown_hundredths(a as nat) <= shown_hundredths(b as nat),
{
    reveal_with_fuel(unit_bytes, 5);
    lemma_round_even_monotone(100 * (a as nat), 100 * (b as nat), unit_bytes(unit_index(a as nat)));
}

/// The unit a byte count is shown in, as the colour of a report line follows it.
#[derive(PartialEq, Eq, Structural, Clone, Copy, Debug)]
pub enum SizeUnit {
    Bytes,
    Kilo,
    Mega,
    Giga,
    Tera,
}

/// The unit of index `i` of the ladder.
pub open spec fn unit_of_index(i: nat) -> SizeUnit {
    if i == 0 {
        SizeUnit::Bytes
    } else if i == 1 {
        SizeUnit::Kilo
    } else if i == 2 {
        SizeUnit::Mega
    } else if i == 3 {
        SizeUnit::Giga
    } else {
        SizeUnit::Tera
    }
}

/// The unit that `human_size` shows a byte count in.
pub fn size_unit(bytes: u64) -> (r: SizeUnit)
    ensures
        r == unit_of_index(unit_index(bytes as nat)),
{
    reveal_with_fuel(unit_bytes, 5);
    if bytes < 1024 {
        SizeUnit::Bytes
    } else if bytes < 1048576 {
        SizeUnit::Kilo
    } else if bytes < 1073741824 {
        SizeUnit::Mega
    } else if bytes < 1099511627776 {
        SizeUnit::Giga
    } else {
        SizeUnit::Tera
    }
}

} // verus!
