//! Rendering of unsigned integers as decimal or lower-case hexadecimal text,
//! the way `{}` and `{:x}` print them: no sign, no prefix, no leading zeros.
use vstd::prelude::*;
use vstd::string::*;

verus! {

/// The character of digit `d` (below 16), lower-case for 10..=15.
pub open spec fn digit_char(d: nat) -> char {
    if d == 0 { '0' }
    else if d == 1 { '1' }
    else if d == 2 { '2' }
    else if d == 3 { '3' }
    else if d == 4 { '4' }
    else if d == 5 { '5' }
    else if d == 6 { '6' }
    else if d == 7 { '7' }
    else if d == 8 { '8' }
    else if d == 9 { '9' }
    else if d == 10 { 'a' }
    else if d == 11 { 'b' }
    else if d == 12 { 'c' }
    else if d == 13 { 'd' }
    else if d == 14 { 'e' }
    else { 'f' }
}

/// The value of a digit character; the inverse of `digit_char`.
pub open spec fn digit_value(c: char) -> nat {
    if c == '0' { 0 }
    else if c == '1' { 1 }
    else if c == '2' { 2 }
    else if c == '3' { 3 }
    else if c == '4' { 4 }
    else if c == '5' { 5 }
    else if c == '6' { 6 }
    else if c == '7' { 7 }
    else if c == '8' { 8 }
    else if c == '9' { 9 }
    else if c == 'a' { 10 }
    else if c == 'b' { 11 }
    else if c == 'c' { 12 }
    else if c == 'd' { 13 }
    else if c == 'e' { 14 }
    else { 15 }
}

/// `c` is one of the sixteen digit characters.
pub open spec fn is_digit_char(c: char) -> bool {
    exists|d: nat| d < 16 && digit_char(d) == c
}

/// `n` written in base `base` (2..=16), most significant digit first,
/// without leading zeros; zero is written as "0".
pub open spec fn radix_text(n: nat, base: nat) -> Seq<char>
    recommends 2 <= base <= 16,
    decreases n,
{
    if n < base || base < 2 {
        seq![digit_char(n % 16)]
    } else {
        proof {
            assert(n / base < n) by (nonlinear_arith)
                requires
                    n >= base,
                    base >= 2,
            ;
        }
        radix_text(n / base, base).push(digit_char(n % base))
    }
}

/// Decimal text of `n`, as `{}` prints it.
pub open spec fn dec_text(n: nat) -> Seq<char> {
    radix_text(n, 10)
}

/// Lower-case hexadecimal text of `n`, as `{:x}` prints it.
pub open spec fn hex_text(n: nat) -> Seq<char> {
    radix_text(n, 16)
}

/// The number that a sequence of digits denotes in base `base`.
pub open spec fn radix_value(s: Seq<char>, base: nat) -> nat
    decreases s.len(),
{
    if s.len() == 0 {
        0
    } else {
        radix_value(s.drop_last(), base) * base + digit_value(s.last())
    }
}

pub proof fn lemma_digit_roundtrip(d: nat)
    requires
        d < 16,
    ensures
        digit_value(digit_char(d)) == d,
        is_digit_char(digit_char(d)),
{
}

/// Reading back the text of `n` gives `n`.
pub proof fn lemma_radix_value_of_text(n: nat, base: nat)
    requires
        2 <= base <= 16,
    ensures
        radix_value(radix_text(n, base), base) == n,
        radix_text(n, base).len() >= 1,
        forall|i: int|
            0 <= i < radix_text(n, base).len() ==> #[trigger] is_digit_char(radix_text(n, base)[i]),
    decreases n,
{
    if n < base {
        lemma_digit_roundtrip(n);
        assert(n % 16 == n);
        let t = radix_text(n, base);
        assert(t.drop_last() =~= Seq::<char>::empty());
        assert(radix_value(t.drop_last(), base) == 0);
        assert(0 * base == 0);
        assert(radix_value(t, base) == 0 * base + digit_value(t.last()));
    } else {
        let q = n / base;
        let r = n % base;
        assert(q < n) by (nonlinear_arith)
            requires
                n >= base,
                base >= 2,
                q == n / base,
        ;
        lemma_radix_value_of_text(q, base);
        lemma_digit_roundtrip(r);
        assert(q * base + r == n) by (nonlinear_arith)
            requires
                q == n / base,
                r == n % base,
                base >= 2,
        ;
        let t = radix_text(n, base);
        assert(t.drop_last() =~= radix_text(q, base));
        assert(t.last() == digit_char(r));
        assert(radix_value(t, base) == radix_value(t.drop_last(), base) * base + digit_value(t.last()));
    }
}

/// Distinct numbers have distinct texts.
pub proof fn lemma_radix_text_injective(n: nat, m: nat, base: nat)
    requires
        2 <= base <= 16,
        radix_text(n, base) == radix_text(m, base),
    ensures
        n == m,
{
    lemma_radix_value_of_text(n, base);
    lemma_radix_value_of_text(m, base);
}

/// A sequence made only of digit characters.
pub open spec fn all_digits(s: Seq<char>) -> bool {
    forall|i: int| 0 <= i < s.len() ==> #[trigger] is_digit_char(s[i])
}

pub proof fn lemma_separator_not_digit(c: char)
    requires
        c == '-' || c == ':' || c == ' ',
    ensures
        !is_digit_char(c),
{
    if is_digit_char(c) {
        let d = choose|d: nat| d < 16 && digit_char(d) == c;
        assert(digit_char(d) != c);
    }
}

/// Two texts `a + [sep] + b` where `a` holds no separator split the same way.
pub proof fn lemma_split_at_separator(a1: Seq<char>, b1: Seq<char>, a2: Seq<char>, b2: Seq<char>, sep: char)
    requires
        all_digits(a1),
        all_digits(a2),
        !is_digit_char(sep),
        a1 + seq![sep] + b1 == a2 + seq![sep] + b2,
    ensures
        a1 == a2,
        b1 == b2,
{
    let k1 = a1 + seq![sep] + b1;
    let k2 = a2 + seq![sep] + b2;
    if a1.len() < a2.len() {
        assert(k1[a1.len() as int] == sep);
        assert(k2[a1.len() as int] == a2[a1.len() as int]);
        assert(false);
    }
    if a2.len() < a1.len() {
        assert(k2[a2.len() as int] == sep);
        assert(k1[a2.len() as int] == a1[a2.len() as int]);
        assert(false);
    }
    assert(a1 =~= k1.subrange(0, a1.len() as int));
    assert(a2 =~= k2.subrange(0, a2.len() as int));
    assert(b1 =~= k1.subrange(a1.len() as int + 1, k1.len() as int));
    assert(b2 =~= k2.subrange(a2.len() as int + 1, k2.len() as int));
}

/// The one-character text of digit `d`.
fn digit_str(d: u64) -> (s: &'static str)
    requires
        d < 16,
    ensures
        s@ == seq![digit_char(d as nat)],
{
    if d == 0 { proof { reveal_strlit("0"); } "0" }
    else if d == 1 { proof { reveal_strlit("1"); } "1" }
    else if d == 2 { proof { reveal_strlit("2"); } "2" }
    else if d == 3 { proof { reveal_strlit("3"); } "3" }
    else if d == 4 { proof { reveal_strlit("4"); } "4" }
    else if d == 5 { proof { reveal_strlit("5"); } "5" }
    else if d == 6 { proof { reveal_strlit("6"); } "6" }
    else if d == 7 { proof { reveal_strlit("7"); } "7" }
    else if d == 8 { proof { reveal_strlit("8"); } "8" }
    else if d == 9 { proof { reveal_strlit("9"); } "9" }
    else if d == 10 { proof { reveal_strlit("a"); } "a" }
    else if d == 11 { proof { reveal_strlit("b"); } "b" }
    else if d == 12 { proof { reveal_strlit("c"); } "c" }
    else if d == 13 { proof { reveal_strlit("d"); } "d" }
    else if d == 14 { proof { reveal_strlit("e"); } "e" }
    else { proof { reveal_strlit("f"); } "f" }
}

/// Appends the text of `n` in base `base` to `out`.
pub fn push_radix(out: &mut String, n: u64, base: u64)
    requires
        2 <= base <= 16,
    ensures
        final(out)@ == old(out)@ + radix_text(n as nat, base as nat),
    decreases n,
{
    if n < base {
        let s = digit_str(n);
        out.append(s);
    } else {
        assert(n / base < n) by (nonlinear_arith)
            requires
                n >= base,
                base >= 2,
        ;
        push_radix(out, n / base, base);
        let s = digit_str(n % base);
        out.append(s);
        assert(final(out)@ =~= old(out)@ + radix_text(n as nat, base as nat));
    }
}

/// Appends the decimal text of `n` to `out`.
pub fn push_dec(out: &mut String, n: u64)
    ensures
        final(out)@ == old(out)@ + dec_text(n as nat),
{
    push_radix(out, n, 10);
}

/// Appends the lower-case hexadecimal text of `n` to `out`.
pub fn push_hex(out: &mut String, n: u64)
    ensures
        final(out)@ == old(out)@ + hex_text(n as nat),
{
    push_radix(out, n, 16);
}

} // verus!
