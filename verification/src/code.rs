//! Registry codes: six small integers that name one measurement.

use vstd::prelude::*;

verus! {

/// A registry code. Two codes are equal exactly when all six groups are
/// equal, and codes are ordered group by group, the first group counting most.
#[derive(Clone, Copy, Debug, PartialEq, Eq, Structural, PartialOrd, Ord, Hash)]
pub struct RegistryCode {
    pub a: u8,
    pub b: u8,
    pub c: u8,
    pub d: u8,
    pub e: u8,
    pub f: u8,
}

/// The character that writes the decimal digit `d`.
pub open spec fn spec_digit(d: int) -> char {
    if d == 0 {
        '0'
    } else if d == 1 {
        '1'
    } else if d == 2 {
        '2'
    } else if d == 3 {
        '3'
    } else if d == 4 {
        '4'
    } else if d == 5 {
        '5'
    } else if d == 6 {
        '6'
    } else if d == 7 {
        '7'
    } else if d == 8 {
        '8'
    } else {
        '9'
    }
}

/// The decimal numeral of `n`, without leading zeros.
pub open spec fn decimal(n: u8) -> Seq<char> {
    if n < 10 {
        seq![spec_digit(n as int)]
    } else if n < 100 {
        seq![spec_digit(n as int / 10), spec_digit(n as int % 10)]
    } else {
        seq![spec_digit(n as int / 100), spec_digit(n as int / 10 % 10), spec_digit(n as int % 10)]
    }
}

/// `String::push` appends exactly one character to the end of the string.
#[verifier::external_body]
fn push_char(s: &mut String, c: char)
    ensures
        final(s)@ == old(s)@.push(c),
{
    s.push(c)
}

fn digit(d: u8) -> (c: char)
    requires
        d < 10,
    ensures
        c == spec_digit(d as int),
{
    match d {
        0 => '0',
        1 => '1',
        2 => '2',
        3 => '3',
        4 => '4',
        5 => '5',
        6 => '6',
        7 => '7',
        8 => '8',
        _ => '9',
    }
}

fn push_decimal(s: &mut String, n: u8)
    ensures
        final(s)@ == old(s)@ + decimal(n),
{
    if n >= 100 {
        push_char(s, digit(n / 100));
    }
    if n >= 10 {
        push_char(s, digit(n / 10 % 10));
    }
    push_char(s, digit(n % 10));
    assert(s@ =~= old(s)@ + decimal(n));
}

impl RegistryCode {
    pub fn new(a: u8, b: u8, c: u8, d: u8, e: u8, f: u8) -> (code: RegistryCode)
        ensures
            code == (RegistryCode { a, b, c, d, e, f }),
    {
        RegistryCode { a, b, c, d, e, f }
    }

    /// The property name of a code: its six groups in decimal, joined by dots.
    pub open spec fn spec_name(self) -> Seq<char> {
        joined(
            decimal(self.a),
            joined(
                decimal(self.b),
                joined(
                    decimal(self.c),
                    joined(decimal(self.d), joined(decimal(self.e), decimal(self.f))),
                ),
            ),
        )
    }

    pub fn name(&self) -> (s: String)
        ensures
            s@ == self.spec_name(),
    {
        let mut s = String::new();
        push_decimal(&mut s, self.a);
        push_char(&mut s, '.');
        push_decimal(&mut s, self.b);
        push_char(&mut s, '.');
        push_decimal(&mut s, self.c);
        push_char(&mut s, '.');
        push_decimal(&mut s, self.d);
        push_char(&mut s, '.');
        push_decimal(&mut s, self.e);
        push_char(&mut s, '.');
        push_decimal(&mut s, self.f);
        proof {
            lemma_name_flat(*self);
        }
        s
    }

    pub fn same(&self, other: &RegistryCode) -> (r: bool)
        ensures
            r == (*self == *other),
    {
        self.a == other.a && self.b == other.b && self.c == other.c && self.d == other.d
            && self.e == other.e && self.f == other.f
    }

    /// The order of codes: by the first group in which they differ.
    pub open spec fn spec_precedes(self, other: RegistryCode) -> bool {
        if self.a != other.a {
            self.a < other.a
        } else if self.b != other.b {
            self.b < other.b
        } else if self.c != other.c {
            self.c < other.c
        } else if self.d != other.d {
            self.d < other.d
        } else if self.e != other.e {
            self.e < other.e
        } else {
            self.f < other.f
        }
    }

    /// Whether this code comes before the other.
    pub fn precedes(&self, other: &RegistryCode) -> (r: bool)
        ensures
            r == self.spec_precedes(*other),
    {
        if self.a != other.a {
            self.a < other.a
        } else if self.b != other.b {
            self.b < other.b
        } else if self.c != other.c {
            self.c < other.c
        } else if self.d != other.d {
            self.d < other.d
        } else if self.e != other.e {
            self.e < other.e
        } else {
            self.f < other.f
        }
    }
}

/// The order of codes is a strict total order.
pub proof fn lemma_order_is_total(x: RegistryCode, y: RegistryCode, z: RegistryCode)
    ensures
        !x.spec_precedes(x),
        x.spec_precedes(y) && y.spec_precedes(z) ==> x.spec_precedes(z),
        x.spec_precedes(y) || y.spec_precedes(x) || x == y,
        !(x.spec_precedes(y) && y.spec_precedes(x)),
{
}

/// The numeral of a group, a dot, and what follows.
pub open spec fn joined(group: Seq<char>, rest: Seq<char>) -> Seq<char> {
    group + seq!['.'] + rest
}

/// No dot occurs in the text.
pub open spec fn dot_free(s: Seq<char>) -> bool {
    forall|i: int| 0 <= i < s.len() ==> s[i] != '.'
}

/// A numeral has one to three characters and no dot.
pub proof fn lemma_decimal_shape(n: u8)
    ensures
        1 <= decimal(n).len() <= 3,
        dot_free(decimal(n)),
{
}

/// Two digits written by the same character are the same digit.
pub proof fn lemma_digit_injective(a: int, b: int)
    requires
        0 <= a < 10,
        0 <= b < 10,
        spec_digit(a) == spec_digit(b),
    ensures
        a == b,
{
}

/// Two numbers with the same numeral are the same number.
pub proof fn lemma_decimal_injective(m: u8, n: u8)
    requires
        decimal(m) == decimal(n),
    ensures
        m == n,
{
    let dm = decimal(m);
    let dn = decimal(n);
    let x = m as int;
    let y = n as int;
    assert(dm.len() == dn.len());
    if m < 10 {
        assert(dm.len() == 1);
        assert(n < 10);
        assert(dm =~= seq![spec_digit(x)]);
        assert(dn =~= seq![spec_digit(y)]);
        assert(dm[0] == spec_digit(x));
        assert(dn[0] == spec_digit(y));
        lemma_digit_injective(x, y);
    } else if m < 100 {
        assert(dm.len() == 2);
        assert(10 <= n < 100);
        assert(dm[0] == spec_digit(x / 10) && dn[0] == spec_digit(y / 10));
        assert(dm[1] == spec_digit(x % 10) && dn[1] == spec_digit(y % 10));
        lemma_digit_injective(x / 10, y / 10);
        lemma_digit_injective(x % 10, y % 10);
        assert(x == 10 * (x / 10) + x % 10);
        assert(y == 10 * (y / 10) + y % 10);
    } else {
        assert(dm.len() == 3);
        assert(n >= 100);
        assert(dm[0] == spec_digit(x / 100) && dn[0] == spec_digit(y / 100));
        assert(dm[1] == spec_digit(x / 10 % 10) && dn[1] == spec_digit(y / 10 % 10));
        assert(dm[2] == spec_digit(x % 10) && dn[2] == spec_digit(y % 10));
        lemma_digit_injective(x / 100, y / 100);
        lemma_digit_injective(x / 10 % 10, y / 10 % 10);
        lemma_digit_injective(x % 10, y % 10);
        assert(x == 10 * (x / 10) + x % 10);
        assert(y == 10 * (y / 10) + y % 10);
        assert(x / 10 == 10 * (x / 10 / 10) + x / 10 % 10);
        assert(y / 10 == 10 * (y / 10 / 10) + y / 10 % 10);
        assert(x / 10 / 10 == x / 100);
        assert(y / 10 / 10 == y / 100);
    }
}

/// A text is split at its first dot in one way only.
pub proof fn lemma_split_at_dot(x1: Seq<char>, r1: Seq<char>, x2: Seq<char>, r2: Seq<char>)
    requires
        joined(x1, r1) == joined(x2, r2),
        dot_free(x1),
        dot_free(x2),
    ensures
        x1 == x2,
        r1 == r2,
{
    let s1 = joined(x1, r1);
    let s2 = joined(x2, r2);
    assert(s1[x1.len() as int] == '.');
    assert(s2[x2.len() as int] == '.');
    if x1.len() < x2.len() {
        assert(s2[x1.len() as int] == x2[x1.len() as int]);
    }
    if x2.len() < x1.len() {
        assert(s1[x2.len() as int] == x1[x2.len() as int]);
    }
    assert(x1.len() == x2.len());
    assert(s1.len() == s2.len());
    assert forall|i: int| 0 <= i < x1.len() implies x1[i] == x2[i] by {
        assert(s1[i] == x1[i]);
        assert(s2[i] == x2[i]);
    }
    assert(x1 =~= x2);
    assert(s1.len() == x1.len() + 1 + r1.len());
    assert(s2.len() == x2.len() + 1 + r2.len());
    assert(r1.len() == r2.len());
    assert forall|i: int| 0 <= i < r1.len() implies r1[i] == r2[i] by {
        assert(s1[x1.len() + 1 + i] == r1[i]);
        assert(s2[x2.len() + 1 + i] == r2[i]);
    }
    assert(r1 =~= r2);
}

/// A text followed by a group, a dot and a rest is the text with the group
/// and the dot appended, followed by the rest.
pub proof fn lemma_joined_after(prefix: Seq<char>, group: Seq<char>, rest: Seq<char>)
    ensures
        prefix + joined(group, rest) == prefix + group + seq!['.'] + rest,
{
    assert(prefix + joined(group, rest) =~= prefix + group + seq!['.'] + rest);
}

/// A name read from left to right: numeral, dot, numeral, and so on.
pub proof fn lemma_name_flat(code: RegistryCode)
    ensures
        code.spec_name() == decimal(code.a) + seq!['.'] + decimal(code.b) + seq!['.'] + decimal(
            code.c,
        ) + seq!['.'] + decimal(code.d) + seq!['.'] + decimal(code.e) + seq!['.'] + decimal(code.f),
{
    let from_e = joined(decimal(code.e), decimal(code.f));
    let from_d = joined(decimal(code.d), from_e);
    let from_c = joined(decimal(code.c), from_d);
    let from_b = joined(decimal(code.b), from_c);
    let to_b = decimal(code.a) + seq!['.'];
    let to_c = to_b + decimal(code.b) + seq!['.'];
    let to_d = to_c + decimal(code.c) + seq!['.'];
    let to_e = to_d + decimal(code.d) + seq!['.'];
    let to_f = to_e + decimal(code.e) + seq!['.'];
    assert(code.spec_name() == to_b + from_b);
    lemma_joined_after(to_b, decimal(code.b), from_c);
    assert(code.spec_name() == to_c + from_c);
    lemma_joined_after(to_c, decimal(code.c), from_d);
    assert(code.spec_name() == to_d + from_d);
    lemma_joined_after(to_d, decimal(code.d), from_e);
    assert(code.spec_name() == to_e + from_e);
    lemma_joined_after(to_e, decimal(code.e), decimal(code.f));
    assert(code.spec_name() == to_f + decimal(code.f));
}

/// Two codes with the same name are the same code: a property name stands for
/// one code only.
pub proof fn lemma_name_injective(c1: RegistryCode, c2: RegistryCode)
    requires
        c1.spec_name() == c2.spec_name(),
    ensures
        c1 == c2,
{
    lemma_decimal_shape(c1.a);
    lemma_decimal_shape(c2.a);
    lemma_decimal_shape(c1.b);
    lemma_decimal_shape(c2.b);
    lemma_decimal_shape(c1.c);
    lemma_decimal_shape(c2.c);
    lemma_decimal_shape(c1.d);
    lemma_decimal_shape(c2.d);
    lemma_decimal_shape(c1.e);
    lemma_decimal_shape(c2.e);
    let e1 = joined(decimal(c1.e), decimal(c1.f));
    let e2 = joined(decimal(c2.e), decimal(c2.f));
    let d1 = joined(decimal(c1.d), e1);
    let d2 = joined(decimal(c2.d), e2);
    let g1 = joined(decimal(c1.c), d1);
    let g2 = joined(decimal(c2.c), d2);
    let b1 = joined(decimal(c1.b), g1);
    let b2 = joined(decimal(c2.b), g2);
    lemma_split_at_dot(decimal(c1.a), b1, decimal(c2.a), b2);
    lemma_split_at_dot(decimal(c1.b), g1, decimal(c2.b), g2);
    lemma_split_at_dot(decimal(c1.c), d1, decimal(c2.c), d2);
    lemma_split_at_dot(decimal(c1.d), e1, decimal(c2.d), e2);
    lemma_split_at_dot(decimal(c1.e), decimal(c1.f), decimal(c2.e), decimal(c2.f));
    lemma_decimal_injective(c1.a, c2.a);
    lemma_decimal_injective(c1.b, c2.b);
    lemma_decimal_injective(c1.c, c2.c);
    lemma_decimal_injective(c1.d, c2.d);
    lemma_decimal_injective(c1.e, c2.e);
    lemma_decimal_injective(c1.f, c2.f);
}

} // verus!
