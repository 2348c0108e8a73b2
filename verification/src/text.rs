//! How identifiers, numbers and coordinates are written as text.
use crate::NodeId;
use uuid::Uuid;
use vstd::prelude::*;
use vstd::string::*;

verus! {

/// The digit `d`, in base sixteen.
pub open spec fn hex_char(d: int) -> char {
    if d == 0 {
        '0'
    } else if d == 1 {
        '1'
    } else if d == 2 {
        '2'
    } else if d == 3 {
        '3'
    } else if d == 4 {
        '4'
    } else if d == 5 {
        '5'
    } else if d == 6 {
        '6'
    } else if d == 7 {
        '7'
    } else if d == 8 {
        '8'
    } else if d == 9 {
        '9'
    } else if d == 10 {
        'a'
    } else if d == 11 {
        'b'
    } else if d == 12 {
        'c'
    } else if d == 13 {
        'd'
    } else if d == 14 {
        'e'
    } else {
        'f'
    }
}

/// What the first `n` of the 32 hexadecimal digits of an identifier stand for.
pub open spec fn leading_digits(id: NodeId, n: int) -> int {
    id as int / vstd::arithmetic::power::pow(16, (32 - n) as nat)
}

/// The hexadecimal digit of an identifier at `k`, of 32, from the left.
pub open spec fn hex_digit(id: NodeId, k: int) -> int {
    leading_digits(id, k + 1) % 16
}

/// An identifier as text: 32 lower-case hexadecimal digits in groups of 8, 4, 4, 4 and 12, with
/// hyphens between the groups.
pub open spec fn hyphenated(id: NodeId) -> Seq<char> {
    Seq::new(
        36,
        |i: int|
            if i == 8 || i == 13 || i == 18 || i == 23 {
                '-'
            } else if i < 8 {
                hex_char(hex_digit(id, i))
            } else if i < 13 {
                hex_char(hex_digit(id, i - 1))
            } else if i < 18 {
                hex_char(hex_digit(id, i - 2))
            } else if i < 23 {
                hex_char(hex_digit(id, i - 3))
            } else {
                hex_char(hex_digit(id, i - 4))
            },
    )
}

/// The identifier that `Uuid::parse_str` reads out of a text, if it accepts the text.
pub uninterp spec fn parsed_uuid(text: Seq<char>) -> Option<NodeId>;

/// Writes an identifier as text, by the `to_string` that the `Display` of `uuid::Uuid` gives: the
/// hyphenated form, in lower case.
#[verifier::external_body]
pub(crate) fn uuid_text(id: NodeId) -> (text: String)
    ensures
        text@ == hyphenated(id),
{
    Uuid::from_u128(id).to_string()
}

/// Reads an identifier out of a text, by `Uuid::parse_str`. What it accepts depends on the text
/// alone, and it accepts what [`uuid_text`] writes.
#[verifier::external_body]
pub(crate) fn parse_uuid(text: &str) -> (id: Option<NodeId>)
    ensures
        id == parsed_uuid(text@),
        forall|written: NodeId| text@ == #[trigger] hyphenated(written) ==> id == Some(written),
{
    Uuid::parse_str(text).ok().map(|id| id.as_u128())
}

/// The digit `d` of a decimal number.
pub open spec fn decimal_char(d: int) -> char {
    hex_char(d)
}

/// A number below 256 in decimal, without leading zeros.
pub open spec fn decimal(n: u8) -> Seq<char> {
    if n < 10 {
        seq![decimal_char(n as int)]
    } else if n < 100 {
        seq![decimal_char(n as int / 10), decimal_char(n as int % 10)]
    } else {
        seq![
            decimal_char(n as int / 100),
            decimal_char(n as int / 10 % 10),
            decimal_char(n as int % 10),
        ]
    }
}

/// A coordinate as text: the two numbers with a comma between them.
pub open spec fn coord_text(x: u8, y: u8) -> Seq<char> {
    decimal(x) + seq![','] + decimal(y)
}

/// The text of one digit.
fn digit_text(d: u8) -> (text: &'static str)
    requires
        d < 10,
    ensures
        text@ == seq![decimal_char(d as int)],
{
    proof {
        reveal_strlit("0");
        reveal_strlit("1");
        reveal_strlit("2");
        reveal_strlit("3");
        reveal_strlit("4");
        reveal_strlit("5");
        reveal_strlit("6");
        reveal_strlit("7");
        reveal_strlit("8");
        reveal_strlit("9");
    }
    let text: &'static str = if d == 0 {
        "0"
    } else if d == 1 {
        "1"
    } else if d == 2 {
        "2"
    } else if d == 3 {
        "3"
    } else if d == 4 {
        "4"
    } else if d == 5 {
        "5"
    } else if d == 6 {
        "6"
    } else if d == 7 {
        "7"
    } else if d == 8 {
        "8"
    } else {
        "9"
    };
    assert(text@ =~= seq![decimal_char(d as int)]);
    text
}

/// Appends a number in decimal.
fn append_decimal(text: &mut String, n: u8)
    ensures
        final(text)@ == old(text)@ + decimal(n),
{
    let ghost before = text@;
    if n >= 100 {
        text.append(digit_text(n / 100));
    }
    if n >= 10 {
        text.append(digit_text(n / 10 % 10));
    }
    text.append(digit_text(n % 10));
    assert(text@ =~= before + decimal(n));
}

/// Writes a coordinate as text.
pub fn coord_key(x: u8, y: u8) -> (text: String)
    ensures
        text@ == coord_text(x, y),
{
    let mut text = String::new();
    append_decimal(&mut text, x);
    text.append(",");
    append_decimal(&mut text, y);
    proof {
        reveal_strlit(",");
        assert(text@ =~= coord_text(x, y));
    }
    text
}

/// Text `a` sorts before text `b`: the first character in which they differ is lower in `a`.
pub open spec fn sorts_before(a: Seq<char>, b: Seq<char>) -> bool {
    exists|at: int|
        0 <= at < a.len() && at < b.len() && (#[trigger] a[at] as int) < b[at] as int && forall|
            i: int,
        |
            0 <= i < at ==> a[i] == #[trigger] b[i]
}

proof fn sixteen_to_the_32()
    ensures
        vstd::arithmetic::power::pow(16, 32) == u128::MAX + 1,
        vstd::arithmetic::power::pow(16, 0) == 1,
{
    assert(vstd::arithmetic::power::pow(16, 8) == 4294967296) by {
        reveal_with_fuel(vstd::arithmetic::power::pow, 9);
    }
    vstd::arithmetic::power::lemma_pow_adds(16, 8, 8);
    assert(4294967296int * 4294967296int == 18446744073709551616int) by (nonlinear_arith);
    assert(vstd::arithmetic::power::pow(16, 16) == 18446744073709551616int);
    vstd::arithmetic::power::lemma_pow_adds(16, 16, 16);
    assert(18446744073709551616int * 18446744073709551616int == u128::MAX + 1)
        by (nonlinear_arith);
    vstd::arithmetic::power::lemma_pow0(16);
}

/// One digit more multiplies by sixteen and adds the digit.
proof fn leading_digits_step(id: NodeId, k: int)
    requires
        0 <= k < 32,
    ensures
        leading_digits(id, k + 1) == 16 * leading_digits(id, k) + hex_digit(id, k),
        0 <= hex_digit(id, k) < 16,
{
    let scale = vstd::arithmetic::power::pow(16, (31 - k) as nat);
    vstd::arithmetic::power::lemma_pow_positive(16, (31 - k) as nat);
    vstd::arithmetic::power::lemma_pow_adds(16, (31 - k) as nat, 1);
    vstd::arithmetic::power::lemma_pow1(16);
    vstd::arithmetic::div_mod::lemma_div_denominator(id as int, scale, 16);
    assert(leading_digits(id, k + 1) == id as int / scale);
    assert(leading_digits(id, k) == id as int / (scale * 16));
}

/// Of two identifiers, the lower one has the lower digit where they first differ.
proof fn first_difference(a: NodeId, b: NodeId, n: int) -> (k: int)
    requires
        0 <= n <= 32,
        leading_digits(a, n) < leading_digits(b, n),
    ensures
        0 <= k < n,
        hex_digit(a, k) < hex_digit(b, k),
        forall|j: int| 0 <= j < k ==> #[trigger] hex_digit(a, j) == hex_digit(b, j),
    decreases n,
{
    sixteen_to_the_32();
    if n == 0 {
        vstd::arithmetic::div_mod::lemma_basic_div(
            a as int,
            vstd::arithmetic::power::pow(16, 32),
        );
        vstd::arithmetic::div_mod::lemma_basic_div(
            b as int,
            vstd::arithmetic::power::pow(16, 32),
        );
        0
    } else {
        leading_digits_step(a, n - 1);
        leading_digits_step(b, n - 1);
        if leading_digits(a, n - 1) == leading_digits(b, n - 1) {
            same_leading_digits(a, b, n - 1);
            n - 1
        } else {
            assert(leading_digits(a, n - 1) < leading_digits(b, n - 1));
            first_difference(a, b, n - 1)
        }
    }
}

/// Identifiers with the same leading digits agree in each of them.
proof fn same_leading_digits(a: NodeId, b: NodeId, n: int)
    requires
        0 <= n <= 32,
        leading_digits(a, n) == leading_digits(b, n),
    ensures
        forall|j: int| 0 <= j < n ==> #[trigger] hex_digit(a, j) == hex_digit(b, j),
    decreases n,
{
    if n > 0 {
        leading_digits_step(a, n - 1);
        leading_digits_step(b, n - 1);
        same_leading_digits(a, b, n - 1);
    }
}

/// The text of a lower identifier sorts before that of a higher one.
pub proof fn text_keeps_order(a: NodeId, b: NodeId)
    requires
        a < b,
    ensures
        sorts_before(hyphenated(a), hyphenated(b)),
{
    sixteen_to_the_32();
    assert(leading_digits(a, 32) == a && leading_digits(b, 32) == b) by {
        assert(a as int / 1 == a && b as int / 1 == b);
    }
    let k = first_difference(a, b, 32);
    leading_digits_step(a, k);
    leading_digits_step(b, k);
    let at = if k < 8 {
        k
    } else if k < 12 {
        k + 1
    } else if k < 16 {
        k + 2
    } else if k < 20 {
        k + 3
    } else {
        k + 4
    };
    let x = hyphenated(a);
    let y = hyphenated(b);
    assert(x[at] == hex_char(hex_digit(a, k)) && y[at] == hex_char(hex_digit(b, k)));
    assert forall|i: int| 0 <= i < at implies x[i] == #[trigger] y[i] by {
        let j = if i < 8 {
            i
        } else if i < 13 {
            i - 1
        } else if i < 18 {
            i - 2
        } else if i < 23 {
            i - 3
        } else {
            i - 4
        };
        if j < k {
            assert(hex_digit(a, j) == hex_digit(b, j));
        }
    }
    assert((x[at] as int) < y[at] as int);
}

/// Identifiers that are written alike are the same.
pub proof fn text_tells_ids_apart(a: NodeId, b: NodeId)
    requires
        hyphenated(a) == hyphenated(b),
    ensures
        a == b,
{
    if a < b {
        text_keeps_order(a, b);
    } else if b < a {
        text_keeps_order(b, a);
    }
}

/// A number is read off its digits.
proof fn decimal_tells_apart(a: u8, b: u8)
    requires
        decimal(a) == decimal(b),
    ensures
        a == b,
{
    let s = decimal(a);
    let t = decimal(b);
    assert(s.len() == t.len());
    assert(s[0] == t[0]);
    if s.len() >= 2 {
        assert(s[1] == t[1]);
    }
    if s.len() == 3 {
        assert(s[2] == t[2]);
    }
}

/// Coordinates that are written alike are the same.
pub proof fn text_tells_coords_apart(ax: u8, ay: u8, bx: u8, by: u8)
    requires
        coord_text(ax, ay) == coord_text(bx, by),
    ensures
        ax == bx,
        ay == by,
{
    let s = coord_text(ax, ay);
    let t = coord_text(bx, by);
    let m = decimal(ax).len() as int;
    let n = decimal(bx).len() as int;
    assert(s[m] == ',' && t[n] == ',');
    assert forall|i: int| 0 <= i < m implies s[i] != ',' by {
        assert(s[i] == decimal(ax)[i]);
    }
    assert forall|i: int| 0 <= i < n implies t[i] != ',' by {
        assert(t[i] == decimal(bx)[i]);
    }
    assert(m == n);
    assert(decimal(ax) =~= s.take(m));
    assert(decimal(bx) =~= t.take(n));
    decimal_tells_apart(ax, bx);
    assert(decimal(ay) =~= s.skip(m + 1));
    assert(decimal(by) =~= t.skip(n + 1));
    decimal_tells_apart(ay, by);
}

/// The number that decimal digits stand for.
pub open spec fn read_decimal(text: Seq<char>) -> int
    decreases text.len(),
{
    if text.len() == 0 {
        0
    } else {
        10 * read_decimal(text.drop_last()) + (text.last() as int - '0' as int)
    }
}

/// A number is written in decimal digits, without leading zeros, and reads back as that number.
pub proof fn decimal_reads_back(n: u8)
    ensures
        read_decimal(decimal(n)) == n,
        1 <= decimal(n).len() <= 3,
        forall|i: int| 0 <= i < decimal(n).len() ==> '0' <= #[trigger] decimal(n)[i] <= '9',
        decimal(n).len() > 1 ==> decimal(n)[0] != '0',
{
    let text = decimal(n);
    reveal_with_fuel(read_decimal, 4);
    if text.len() == 1 {
        assert(text.drop_last() =~= Seq::empty());
    } else if text.len() == 2 {
        assert(text.drop_last() =~= seq![decimal_char(n as int / 10)]);
        assert(text.drop_last().drop_last() =~= Seq::empty());
    } else {
        assert(text.drop_last() =~= seq![
            decimal_char(n as int / 100),
            decimal_char(n as int / 10 % 10),
        ]);
        assert(text.drop_last().drop_last() =~= seq![decimal_char(n as int / 100)]);
        assert(text.drop_last().drop_last().drop_last() =~= Seq::empty());
    }
}

/// A coordinate is written as its first number, a comma, and its second number.
pub proof fn coordinate_reads_back(x: u8, y: u8)
    ensures
        exists|at: int|
            {
                &&& 0 <= at < coord_text(x, y).len()
                &&& #[trigger] coord_text(x, y)[at] == ','
                &&& read_decimal(coord_text(x, y).take(at)) == x
                &&& read_decimal(coord_text(x, y).skip(at + 1)) == y
            },
{
    let at = decimal(x).len() as int;
    let text = coord_text(x, y);
    decimal_reads_back(x);
    decimal_reads_back(y);
    assert(text[at] == ',');
    assert(text.take(at) =~= decimal(x));
    assert(text.skip(at + 1) =~= decimal(y));
}

/// The number that a hexadecimal digit in lower case stands for.
pub open spec fn hex_value(c: char) -> int {
    if c <= '9' {
        c as int - '0' as int
    } else {
        c as int - 'a' as int + 10
    }
}

/// The number that hexadecimal digits stand for; hyphens between them do not count.
pub open spec fn read_hex(text: Seq<char>) -> int
    decreases text.len(),
{
    if text.len() == 0 {
        0
    } else if text.last() == '-' {
        read_hex(text.drop_last())
    } else {
        16 * read_hex(text.drop_last()) + hex_value(text.last())
    }
}

/// The number of digits among the first `n` characters of an identifier.
spec fn digits_before(n: int) -> int {
    if n <= 8 {
        n
    } else if n <= 13 {
        n - 1
    } else if n <= 18 {
        n - 2
    } else if n <= 23 {
        n - 3
    } else {
        n - 4
    }
}

proof fn leading_text_reads(id: NodeId, n: int)
    requires
        0 <= n <= 36,
    ensures
        read_hex(hyphenated(id).take(n)) == if n == 9 || n == 14 || n == 19 || n == 24 {
            leading_digits(id, digits_before(n - 1))
        } else {
            leading_digits(id, digits_before(n))
        },
    decreases n,
{
    let text = hyphenated(id).take(n);
    if n == 0 {
        sixteen_to_the_32();
        vstd::arithmetic::div_mod::lemma_basic_div(
            id as int,
            vstd::arithmetic::power::pow(16, 32),
        );
    } else {
        leading_text_reads(id, n - 1);
        assert(text.drop_last() =~= hyphenated(id).take(n - 1));
        assert(text.last() == hyphenated(id)[n - 1]);
        if !(n == 9 || n == 14 || n == 19 || n == 24) {
            let k = digits_before(n) - 1;
            leading_digits_step(id, k);
            assert(text.last() == hex_char(hex_digit(id, k)));
            assert(hex_value(hex_char(hex_digit(id, k))) == hex_digit(id, k));
        }
    }
}

/// An identifier is written in 36 characters, with hyphens after the digits 8, 12, 16 and 20, and
/// the others hexadecimal digits in lower case; and reads back as that identifier.
pub proof fn identifier_reads_back(id: NodeId)
    ensures
        hyphenated(id).len() == 36,
        forall|i: int|
            0 <= i < 36 ==> (#[trigger] hyphenated(id)[i] == '-' <==> i == 8 || i == 13 || i == 18
                || i == 23),
        forall|i: int|
            0 <= i < 36 && #[trigger] hyphenated(id)[i] != '-' ==> '0' <= hyphenated(id)[i] <= '9'
                || 'a' <= hyphenated(id)[i] <= 'f',
        read_hex(hyphenated(id)) == id,
{
    leading_text_reads(id, 36);
    sixteen_to_the_32();
    assert(hyphenated(id).take(36) =~= hyphenated(id));
    assert(leading_digits(id, 32) == id) by {
        assert(id as int / 1 == id);
    }
}

/// Of two texts, the one that is lower in the first character in which they differ sorts first; so
/// no text sorts before itself, and of two texts at most one sorts before the other.
pub proof fn sorting_is_by_first_difference(a: Seq<char>, b: Seq<char>)
    requires
        sorts_before(a, b),
    ensures
        a != b,
        !sorts_before(b, a),
        exists|at: int|
            0 <= at < a.len() && at < b.len() && (#[trigger] a[at] as int) < b[at] as int && a.take(
                at,
            ) == b.take(at),
{
    let at = choose|at: int|
        0 <= at < a.len() && at < b.len() && (#[trigger] a[at] as int) < b[at] as int && forall|
            i: int,
        |
            0 <= i < at ==> a[i] == #[trigger] b[i];
    assert(a.take(at) =~= b.take(at)) by {
        assert forall|i: int| 0 <= i < at implies a.take(at)[i] == b.take(at)[i] by {
            assert(a[i] == b[i]);
        }
    }
    if sorts_before(b, a) {
        let other = choose|other: int|
            0 <= other < b.len() && other < a.len() && (#[trigger] b[other] as int)
                < a[other] as int && forall|i: int| 0 <= i < other ==> b[i] == #[trigger] a[i];
        if other < at {
            assert(a[other] == b[other]);
        } else if at < other {
            assert(b[at] == a[at]);
        }
    }
}

} // verus!
