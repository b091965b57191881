//! Numbers as text: positional notation in bases up to sixteen, and reading decimal numbers.

use vstd::prelude::*;
use vstd::string::*;

use crate::text;

verus! {

/// The digit with value `d` (0 to 15), in lower case.
pub open spec fn digit(d: int) -> char {
    if d == 0 {
        '0'
    } else if d == 1 {
        '1'
    } else if d == 2 {
        '2'
    } else if d == 3 {
        '3'
    } else if d == 4 {
        '4'
    } else if d == 5 {
        '5'
    } else if d == 6 {
        '6'
    } else if d == 7 {
        '7'
    } else if d == 8 {
        '8'
    } else if d == 9 {
        '9'
    } else if d == 10 {
        'a'
    } else if d == 11 {
        'b'
    } else if d == 12 {
        'c'
    } else if d == 13 {
        'd'
    } else if d == 14 {
        'e'
    } else {
        'f'
    }
}

/// `n` written in base `base`, without leading zeros.
pub open spec fn notation(n: nat, base: nat) -> Seq<char>
    recommends
        2 <= base <= 16,
    decreases n,
{
    if base < 2 || n < base {
        seq![digit(n as int)]
    } else {
        proof {
            assert(n / base < n) by (nonlinear_arith)
                requires
                    n >= base,
                    base >= 2,
            ;
        }
        notation(n / base, base).push(digit((n % base) as int))
    }
}

/// `n` in decimal notation.
pub open spec fn decimal(n: nat) -> Seq<char> {
    notation(n, 10)
}

/// `n` in hexadecimal notation.
pub open spec fn hexadecimal(n: nat) -> Seq<char> {
    notation(n, 16)
}

fn digit_text(d: u8) -> (r: &'static str)
    requires
        d < 16,
    ensures
        r@ == seq![digit(d as int)],
{
    proof {
        reveal_strlit("0");
        reveal_strlit("1");
        reveal_strlit("2");
        reveal_strlit("3");
        reveal_strlit("4");
        reveal_strlit("5");
        reveal_strlit("6");
        reveal_strlit("7");
        reveal_strlit("8");
        reveal_strlit("9");
        reveal_strlit("a");
        reveal_strlit("b");
        reveal_strlit("c");
        reveal_strlit("d");
        reveal_strlit("e");
        reveal_strlit("f");
    }
    let r = match d {
        0 => "0",
        1 => "1",
        2 => "2",
        3 => "3",
        4 => "4",
        5 => "5",
        6 => "6",
        7 => "7",
        8 => "8",
        9 => "9",
        10 => "a",
        11 => "b",
        12 => "c",
        13 => "d",
        14 => "e",
        _ => "f",
    };
    assert(r@ =~= seq![digit(d as int)]);
    r
}

fn write_notation(n: u128, base: u128) -> (r: String)
    requires
        2 <= base <= 16,
    ensures
        r@ == notation(n as nat, base as nat),
    decreases n,
{
    if n < base {
        digit_text(n as u8).to_owned()
    } else {
        assert(n / base < n) by (nonlinear_arith)
            requires
                n >= base,
                base >= 2,
        ;
        assert(0 <= n % base < base) by (nonlinear_arith)
            requires
                base >= 2,
        ;
        let mut r = write_notation(n / base, base);
        let ghost head = r@;
        let d: u8 = (n % base) as u8;
        r.append(digit_text(d));
        assert(r@ =~= head.push(digit((n % base) as int)));
        r
    }
}

/// Writes `n` in decimal notation.
pub fn to_decimal(n: u64) -> (r: String)
    ensures
        r@ == decimal(n as nat),
{
    write_notation(n as u128, 10)
}

/// Writes `n` in hexadecimal notation.
pub fn to_hexadecimal(n: u128) -> (r: String)
    ensures
        r@ == hexadecimal(n as nat),
{
    write_notation(n, 16)
}

/// Whether `c` is a decimal digit.
pub open spec fn is_digit(c: char) -> bool {
    '0' <= c <= '9'
}

/// Whether `s` holds decimal digits only.
pub open spec fn all_digits(s: Seq<char>) -> bool {
    forall|i: int| 0 <= i < s.len() ==> is_digit(#[trigger] s[i])
}

/// The number that the digits of `s` spell.
pub open spec fn digits_value(s: Seq<char>) -> nat
    decreases s.len(),
{
    if s.len() == 0 {
        0
    } else {
        (digits_value(s.drop_last()) * 10 + (s.last() as nat - 48) as nat) as nat
    }
}

/// The number that `s` spells: a sign `+` that may be missing, then at least one digit, and no
/// more than fits in 64 bits.
pub open spec fn parsed_u64(s: Seq<char>) -> Option<u64> {
    let body = if s.len() > 0 && s[0] == '+' {
        s.skip(1)
    } else {
        s
    };
    if body.len() > 0 && all_digits(body) && digits_value(body) <= u64::MAX {
        Some(digits_value(body) as u64)
    } else {
        None
    }
}

/// What spells a number is made of digits, but for a sign at its beginning.
pub proof fn lemma_parsed_digits(s: Seq<char>)
    requires
        parsed_u64(s) is Some,
    ensures
        s.len() > 0,
        forall|i: int| 0 <= i < s.len() ==> is_digit(#[trigger] s[i]) || s[i] == '+',
{
    if s.len() > 0 && s[0] == '+' {
        assert forall|i: int| 0 < i < s.len() implies is_digit(#[trigger] s[i]) by {
            assert(s.skip(1)[i - 1] == s[i]);
        }
    }
}

proof fn lemma_prefix_value(s: Seq<char>, i: int)
    requires
        all_digits(s),
        0 <= i <= s.len(),
    ensures
        digits_value(s.take(i)) <= digits_value(s),
    decreases s.len() - i,
{
    if i < s.len() {
        assert(s.take(i + 1).drop_last() =~= s.take(i));
        lemma_prefix_value(s, i + 1);
        assert(is_digit(s[i]));
    } else {
        assert(s.take(i) =~= s);
    }
}

/// Reads a number as [`parsed_u64`] says.
pub fn parse_u64(s: &str) -> (r: Option<u64>)
    ensures
        r == parsed_u64(s@),
{
    let chars = text::chars_of(s);
    let from: usize = if chars.len() > 0 && chars[0] == '+' {
        1
    } else {
        0
    };
    let ghost body = if s@.len() > 0 && s@[0] == '+' {
        s@.skip(1)
    } else {
        s@
    };
    assert(body =~= chars@.skip(from as int));
    if from == chars.len() {
        return None;
    }
    let mut value: u64 = 0;
    let mut i: usize = from;
    assert(body.take(0) =~= Seq::<char>::empty());
    while i < chars.len()
        invariant
            from <= i <= chars@.len(),
            from <= 1,
            body == chars@.skip(from as int),
            body.len() > 0,
            forall|j: int| 0 <= j < i - from ==> is_digit(#[trigger] body[j]),
            value == digits_value(body.take(i - from)),
            parsed_u64(s@) == (if all_digits(body) && digits_value(body) <= u64::MAX {
                Some(digits_value(body) as u64)
            } else {
                None
            }),
        decreases chars@.len() - i,
    {
        let c = chars[i];
        assert(c == body[i - from]);
        if !('0' <= c && c <= '9') {
            return None;
        }
        let d: u64 = c as u64 - 48;
        proof {
            let next = body.take(i - from + 1);
            assert(next.drop_last() =~= body.take(i - from));
            assert(next.last() == c);
            if all_digits(body) {
                lemma_prefix_value(body, i - from + 1);
            }
        }
        if value > (u64::MAX - d) / 10 {
            return None;
        }
        value = value * 10 + d;
        i = i + 1;
    }
    assert(body.take(i - from) =~= body);
    Some(value)
}

proof fn lemma_decimal_digits(n: nat)
    ensures
        all_digits(decimal(n)),
        decimal(n).len() > 0,
        digits_value(decimal(n)) == n,
    decreases n,
{
    let s = decimal(n);
    if n < 10 {
        assert(s.drop_last() =~= Seq::<char>::empty());
        assert(digits_value(s.drop_last()) == 0);
        assert(s.last() == digit(n as int));
    } else {
        lemma_decimal_digits(n / 10);
        assert(s.drop_last() =~= decimal(n / 10));
        assert(s.last() == digit((n % 10) as int));
    }
}

/// Reading what was written gives the number back.
pub proof fn decimal_reads_back(n: u64)
    ensures
        parsed_u64(decimal(n as nat)) == Some(n),
{
    lemma_decimal_digits(n as nat);
    assert(is_digit(decimal(n as nat)[0]));
}

proof fn lemma_digit_injective(a: int, b: int)
    requires
        0 <= a < 16,
        0 <= b < 16,
        digit(a) == digit(b),
    ensures
        a == b,
{
}

proof fn lemma_notation_length(n: nat, base: nat)
    requires
        2 <= base <= 16,
    ensures
        notation(n, base).len() > 0,
        notation(n, base).len() == 1 <==> n < base,
{
    if n >= base {
        assert(notation(n / base, base).len() > 0);
    }
}

/// Different numbers are written differently.
pub proof fn notation_is_injective(m: nat, n: nat, base: nat)
    requires
        2 <= base <= 16,
        notation(m, base) == notation(n, base),
    ensures
        m == n,
    decreases m,
{
    lemma_notation_length(m, base);
    lemma_notation_length(n, base);
    let s = notation(m, base);
    if m < base {
        assert(s[0] == digit(m as int) && s[0] == digit(n as int));
        lemma_digit_injective(m as int, n as int);
    } else {
        assert(m / base < m) by (nonlinear_arith)
            requires
                m >= base,
                base >= 2,
        ;
        assert(s.drop_last() =~= notation(m / base, base));
        assert(s.drop_last() =~= notation(n / base, base));
        notation_is_injective(m / base, n / base, base);
        assert(0 <= m % base < base && 0 <= n % base < base) by (nonlinear_arith)
            requires
                base >= 2,
        ;
        assert(s.last() == digit((m % base) as int) && s.last() == digit((n % base) as int));
        lemma_digit_injective((m % base) as int, (n % base) as int);
        assert(m == base * (m / base) + m % base && n == base * (n / base) + n % base)
            by (nonlinear_arith)
            requires
                base >= 2,
        ;
    }
}

/// Notation consists of digits: it has neither slashes nor dashes.
pub proof fn lemma_notation_characters(n: nat, base: nat, i: int)
    requires
        2 <= base <= 16,
        0 <= i < notation(n, base).len(),
    ensures
        notation(n, base)[i] != '/',
        notation(n, base)[i] != '-',
    decreases n,
{
    if n >= base {
        assert(n / base < n) by (nonlinear_arith)
            requires
                n >= base,
                base >= 2,
        ;
        let init = notation(n / base, base);
        if i < init.len() {
            lemma_notation_characters(n / base, base, i);
        }
    }
}

/// Three numbers in hexadecimal notation with dashes between them.
pub open spec fn dashed(a: nat, b: nat, c: nat) -> Seq<char> {
    hexadecimal(a) + seq!['-'] + hexadecimal(b) + seq!['-'] + hexadecimal(c)
}

proof fn lemma_first_dash(a: nat, x: nat, s: Seq<char>, t: Seq<char>)
    requires
        hexadecimal(a) + seq!['-'] + s == hexadecimal(x) + seq!['-'] + t,
    ensures
        a == x,
        s == t,
{
    let p = hexadecimal(a);
    let q = hexadecimal(x);
    let l = p + seq!['-'] + s;
    let r = q + seq!['-'] + t;
    if p.len() < q.len() {
        lemma_notation_characters(x, 16, p.len() as int);
        assert(l[p.len() as int] == '-');
        assert(r[p.len() as int] == q[p.len() as int]);
    }
    if q.len() < p.len() {
        lemma_notation_characters(a, 16, q.len() as int);
        assert(r[q.len() as int] == '-');
        assert(l[q.len() as int] == p[q.len() as int]);
    }
    assert(p =~= l.take(p.len() as int));
    assert(q =~= r.take(q.len() as int));
    notation_is_injective(a, x, 16);
    assert(s =~= l.skip((p.len() + 1) as int));
    assert(t =~= r.skip((q.len() + 1) as int));
}

/// The numbers can be told from their text.
pub proof fn dashed_is_injective(a: nat, b: nat, c: nat, x: nat, y: nat, z: nat)
    requires
        dashed(a, b, c) == dashed(x, y, z),
    ensures
        a == x,
        b == y,
        c == z,
{
    let s = hexadecimal(b) + seq!['-'] + hexadecimal(c);
    let t = hexadecimal(y) + seq!['-'] + hexadecimal(z);
    assert(dashed(a, b, c) =~= hexadecimal(a) + seq!['-'] + s);
    assert(dashed(x, y, z) =~= hexadecimal(x) + seq!['-'] + t);
    lemma_first_dash(a, x, s, t);
    lemma_first_dash(b, y, hexadecimal(c), hexadecimal(z));
    notation_is_injective(c, z, 16);
}

/// Writes three numbers in hexadecimal notation with dashes between them.
pub fn write_dashed(a: u128, b: u32, c: u64) -> (r: String)
    ensures
        r@ == dashed(a as nat, b as nat, c as nat),
{
    let mut r = to_hexadecimal(a);
    r.push('-');
    r.append(to_hexadecimal(b as u128).as_str());
    r.push('-');
    r.append(to_hexadecimal(c as u128).as_str());
    assert(r@ =~= dashed(a as nat, b as nat, c as nat));
    r
}

// ---------------------------------------------------------------------------------------------
// Laws

/// The digits in the order of their values.
pub const DIGITS: &'static str = "0123456789abcdef";

proof fn lemma_digits(d: int)
    requires
        0 <= d < 16,
    ensures
        DIGITS@.len() == 16,
        digit(d) == DIGITS@[d],
{
    reveal_strlit("0123456789abcdef");
}

/// A number is written digit by digit: one less than the base is a digit, and a digit behind the
/// notation of a number makes the notation of the base times that number and the digit.
pub proof fn numbers_are_written_digit_by_digit(n: nat, d: nat, base: nat)
    requires
        2 <= base <= 16,
        d < base,
    ensures
        notation(d, base) == seq![DIGITS@[d as int]],
        n > 0 ==> notation(n * base + d, base) == notation(n, base).push(DIGITS@[d as int]),
{
    lemma_digits(d as int);
    if n > 0 {
        let whole = n * base + d;
        assert(whole >= base && whole / base == n && whole % base == d) by (nonlinear_arith)
            requires
                whole == n * base + d,
                n > 0,
                base >= 2,
                d < base,
        ;
    }
}

/// Decimal and hexadecimal notation are those in the bases ten and sixteen.
pub proof fn notations_have_their_bases(n: nat, d: nat)
    requires
        n > 0,
    ensures
        d < 10 ==> decimal(n * 10 + d) == decimal(n).push(DIGITS@[d as int]) && decimal(d) == seq![
            DIGITS@[d as int],
        ],
        d < 16 ==> hexadecimal(n * 16 + d) == hexadecimal(n).push(DIGITS@[d as int])
            && hexadecimal(d) == seq![DIGITS@[d as int]],
{
    if d < 10 {
        numbers_are_written_digit_by_digit(n, d, 10);
    }
    if d < 16 {
        numbers_are_written_digit_by_digit(n, d, 16);
    }
}

/// A digit spells its value.
pub proof fn digits_spell_their_values(c: char)
    requires
        '0' <= c <= '9',
    ensures
        parsed_u64(seq![c]) == Some((c as u32 - '0' as u32) as u64),
{
    let one = seq![c];
    let none = one.drop_last();
    assert(none.len() == 0);
    assert(digits_value(none) == 0);
    assert(one.last() == c);
    assert(is_digit(one[0]));
    assert(all_digits(one));
    assert(digits_value(one) == (c as nat - 48) as nat);
}

/// A digit behind digits makes ten times the number and the digit, as long as that fits in 64
/// bits.
pub proof fn numbers_are_read_digit_by_digit(s: Seq<char>, c: char)
    requires
        s.len() > 0,
        forall|i: int| 0 <= i < s.len() ==> '0' <= #[trigger] s[i] <= '9',
        '0' <= c <= '9',
    ensures
        parsed_u64(s.push(c)) == match parsed_u64(s) {
            Some(n) => if n * 10 + (c as u32 - '0' as u32) <= u64::MAX {
                Some((n * 10 + (c as u32 - '0' as u32)) as u64)
            } else {
                None
            },
            None => None,
        },
{
    let more = s.push(c);
    assert(all_digits(s));
    assert(is_digit(s[0]));
    assert(s[0] == more[0]);
    assert(more.drop_last() =~= s);
    assert(more.last() == c);
    assert(all_digits(more)) by {
        assert forall|i: int| 0 <= i < more.len() implies is_digit(#[trigger] more[i]) by {
            if i < s.len() {
                assert(is_digit(s[i]));
            }
        }
    }
    assert(digits_value(more) == digits_value(s) * 10 + (c as nat - 48));
}

/// A sign before digits makes no difference, and neither does a nought.
pub proof fn signs_and_zeros_make_no_difference(s: Seq<char>)
    requires
        s.len() > 0,
        forall|i: int| 0 <= i < s.len() ==> '0' <= #[trigger] s[i] <= '9',
    ensures
        parsed_u64(seq!['+'] + s) == parsed_u64(s),
        parsed_u64(seq!['0'] + s) == parsed_u64(s),
{
    assert(all_digits(s));
    assert(is_digit(s[0]));
    assert((seq!['+'] + s).skip(1) =~= s);
    let zero = seq!['0'] + s;
    assert(all_digits(zero)) by {
        assert forall|i: int| 0 <= i < zero.len() implies is_digit(#[trigger] zero[i]) by {
            if i > 0 {
                assert(is_digit(s[i - 1]));
            }
        }
    }
    lemma_leading_zero(s);
}

proof fn lemma_leading_zero(s: Seq<char>)
    ensures
        digits_value(seq!['0'] + s) == digits_value(s),
    decreases s.len(),
{
    let zero = seq!['0'] + s;
    if s.len() == 0 {
        let none = zero.drop_last();
        assert(none.len() == 0);
        assert(digits_value(none) == 0);
        assert(zero.last() == '0');
    } else {
        assert(zero.drop_last() =~= seq!['0'] + s.drop_last());
        lemma_leading_zero(s.drop_last());
    }
}

/// Nothing is read from a text that is empty, is a sign alone, or holds anything but digits behind
/// a sign at its beginning.
pub proof fn other_texts_spell_no_number(s: Seq<char>)
    requires
        s.len() == 0 || s == seq!['+'] || exists|i: int|
            0 <= i < s.len() && !('0' <= #[trigger] s[i] <= '9') && !(i == 0 && s[i] == '+'),
    ensures
        parsed_u64(s) is None,
{
    if parsed_u64(s) is Some {
        let body = if s.len() > 0 && s[0] == '+' {
            s.skip(1)
        } else {
            s
        };
        let i = choose|i: int|
            0 <= i < s.len() && !('0' <= #[trigger] s[i] <= '9') && !(i == 0 && s[i] == '+');
        if s.len() > 0 && s != seq!['+'] {
            if s[0] == '+' {
                assert(is_digit(body[i - 1]));
            } else {
                assert(is_digit(body[i]));
            }
        }
    }
}

/// Notation has no zero at its beginning but where it is that of nought.
pub proof fn no_zero_leads(n: nat, base: nat)
    requires
        2 <= base <= 16,
    ensures
        notation(n, base).len() > 0,
        n > 0 ==> notation(n, base)[0] != '0',
    decreases n,
{
    if n >= base {
        assert(0 < n / base < n) by (nonlinear_arith)
            requires
                n >= base,
                base >= 2,
        ;
        no_zero_leads(n / base, base);
    }
}

} // verus!
