//! Text produced for labels and commands: decimal numbers, zero-padded
//! two-digit fields and lists joined by a separator.
use vstd::prelude::*;

verus! {

/// The character of a decimal digit.
pub open spec fn digit_char(d: nat) -> char
    recommends
        d < 10,
{
    (48 + d) as char
}

/// The decimal digits of a natural number, most significant first, without
/// leading zeros (zero is written as a single `0`).
pub open spec fn digits(n: nat) -> Seq<char>
    decreases n,
{
    if n < 10 {
        seq![digit_char(n)]
    } else {
        digits(n / 10).push(digit_char(n % 10))
    }
}

/// How an integer is written in decimal: a minus sign for negative values,
/// then the digits of its magnitude.
pub open spec fn decimal(n: int) -> Seq<char> {
    if n < 0 {
        seq!['-'] + digits((-n) as nat)
    } else {
        digits(n as nat)
    }
}

/// A natural number written with at least two digits, padded with a leading
/// zero.
pub open spec fn two_digit(n: nat) -> Seq<char> {
    if n < 10 {
        seq!['0'] + digits(n)
    } else {
        digits(n)
    }
}

proof fn lemma_digits_len(n: nat)
    ensures
        digits(n).len() >= 1,
        n >= 10 ==> digits(n).len() >= 2,
    decreases n,
{
    if n >= 10 {
        lemma_digits_len(n / 10);
    }
}

proof fn lemma_digit_char_injective(a: nat, b: nat)
    requires
        a < 10,
        b < 10,
        digit_char(a) == digit_char(b),
    ensures
        a == b,
{
}

proof fn lemma_digits_injective(a: nat, b: nat)
    requires
        digits(a) == digits(b),
    ensures
        a == b,
    decreases a,
{
    lemma_digits_len(a);
    lemma_digits_len(b);
    if a < 10 && b < 10 {
        assert(digits(a) == seq![digit_char(a)]);
        assert(digits(b) == seq![digit_char(b)]);
        assert(digits(a)[0] == digits(b)[0]);
        assert(seq![digit_char(a)][0] == digit_char(a));
        assert(seq![digit_char(b)][0] == digit_char(b));
        lemma_digit_char_injective(a, b);
    } else if a >= 10 && b >= 10 {
        let da = digits(a);
        let db = digits(b);
        assert(da.last() == db.last());
        lemma_digit_char_injective(a % 10, b % 10);
        assert(da.drop_last() == db.drop_last());
        assert(digits(a / 10) =~= da.drop_last());
        assert(digits(b / 10) =~= db.drop_last());
        lemma_digits_injective(a / 10, b / 10);
    }
}

/// Different integers are written differently: a number written in decimal
/// names exactly one integer.
pub proof fn law_decimal_injective(a: int, b: int)
    requires
        decimal(a) == decimal(b),
    ensures
        a == b,
{
    let da = decimal(a);
    let db = decimal(b);
    if a < 0 && b < 0 {
        assert(digits((-a) as nat) =~= da.skip(1));
        assert(digits((-b) as nat) =~= db.skip(1));
        lemma_digits_injective((-a) as nat, (-b) as nat);
    } else if a >= 0 && b >= 0 {
        lemma_digits_injective(a as nat, b as nat);
    } else if a < 0 {
        lemma_digits_len(b as nat);
        assert(da[0] == '-');
        lemma_first_digit_not_minus(b as nat);
    } else {
        lemma_first_digit_not_minus(a as nat);
        assert(db[0] == '-');
    }
}

proof fn lemma_first_digit_not_minus(n: nat)
    ensures
        digits(n).len() >= 1,
        digits(n)[0] != '-',
    decreases n,
{
    lemma_digits_len(n);
    if n >= 10 {
        lemma_first_digit_not_minus(n / 10);
        assert(digits(n)[0] == digits(n / 10)[0]);
    }
}

/// A number below 100 is written with exactly two digits: its tens, then its
/// units (so `10` is "10" and `7` is "07").
pub proof fn law_two_digit_shape(n: nat)
    requires
        n < 100,
    ensures
        two_digit(n).len() == 2,
        two_digit(n)[0] == digit_char(n / 10),
        two_digit(n)[1] == digit_char(n % 10),
{
    if n < 10 {
        assert(digits(n) == seq![digit_char(n)]);
        assert(two_digit(n) =~= seq!['0', digit_char(n)]);
    } else {
        assert(digits(n / 10) == seq![digit_char(n / 10)]);
        assert(digits(n) =~= seq![digit_char(n / 10), digit_char(n % 10)]);
    }
}

/// The number that a string of decimal digits denotes.
pub open spec fn digits_value(s: Seq<char>) -> int
    decreases s.len(),
{
    if s.len() == 0 {
        0
    } else {
        digits_value(s.drop_last()) * 10 + (s.last() as int - 48)
    }
}

/// The digits of a number are decimal digits and denote that number, with no
/// leading zero (but for zero itself).
pub proof fn law_digits_denote(n: nat)
    ensures
        digits_value(digits(n)) == n,
        forall|i: int| 0 <= i < digits(n).len() ==> '0' <= #[trigger] digits(n)[i] <= '9',
        digits(n).len() > 1 ==> digits(n)[0] != '0',
    decreases n,
{
    if n >= 10 {
        law_digits_denote(n / 10);
        let d = digits(n);
        assert(d.drop_last() =~= digits(n / 10));
        assert(d.last() == digit_char(n % 10));
        assert(digit_char(n % 10) as int == 48 + n % 10);
        assert(digits_value(d) == digits_value(digits(n / 10)) * 10 + (d.last() as int - 48));
        assert(digits_value(d) == (n / 10) * 10 + n % 10);
        lemma_digits_len(n / 10);
        assert(d[0] == digits(n / 10)[0]);
        if digits(n / 10).len() == 1 {
            assert(digits(n / 10) == seq![digit_char(n / 10)]);
            assert(n / 10 > 0);
        }
        assert forall|i: int| 0 <= i < d.len() implies '0' <= #[trigger] d[i] <= '9' by {
            if i < d.len() - 1 {
                assert(d[i] == digits(n / 10)[i]);
            }
        }
    } else {
        assert(digits(n) == seq![digit_char(n)]);
        assert(digits(n).drop_last() =~= Seq::<char>::empty());
        assert(digit_char(n) as int == 48 + n);
        assert(digits(n).last() == digit_char(n));
        assert(digits_value(Seq::<char>::empty()) == 0);
        assert(digits_value(digits(n)) == digits_value(digits(n).drop_last()) * 10 + (digits(
            n,
        ).last() as int - 48));
    }
}

/// The one-character string of a decimal digit.
fn digit_str(d: u32) -> (s: &'static str)
    requires
        d < 10,
    ensures
        s@ == seq![digit_char(d as nat)],
{
    proof {
        reveal_strlit("0");
        reveal_strlit("1");
        reveal_strlit("2");
        reveal_strlit("3");
        reveal_strlit("4");
        reveal_strlit("5");
        reveal_strlit("6");
        reveal_strlit("7");
        reveal_strlit("8");
        reveal_strlit("9");
    }
    match d {
        0 => "0",
        1 => "1",
        2 => "2",
        3 => "3",
        4 => "4",
        5 => "5",
        6 => "6",
        7 => "7",
        8 => "8",
        _ => "9",
    }
}

/// Appends the decimal digits of `n`.
fn push_digits(s: &mut String, n: u32)
    ensures
        final(s)@ == old(s)@ + digits(n as nat),
    decreases n,
{
    if n >= 10 {
        push_digits(s, n / 10);
        s.append(digit_str(n % 10));
        assert(digits(n as nat) == digits((n / 10) as nat).push(digit_char((n % 10) as nat)));
    } else {
        s.append(digit_str(n));
    }
}

/// Writes an integer in decimal, as `format!("{}", n)` does.
pub fn decimal_string(n: i32) -> (s: String)
    ensures
        s@ == decimal(n as int),
{
    let mut s = String::new();
    if n < 0 {
        proof {
            reveal_strlit("-");
        }
        s.append("-");
        let wide: i64 = n as i64;
        let magnitude: u32 = (0 - wide) as u32;
        push_digits(&mut s, magnitude);
    } else {
        push_digits(&mut s, n as u32);
    }
    s
}

/// Writes a number with at least two digits, as `format!("{:02}", n)` does.
pub fn two_digit_string(n: u32) -> (s: String)
    ensures
        s@ == two_digit(n as nat),
{
    let mut s = String::new();
    if n < 10 {
        proof {
            reveal_strlit("0");
        }
        s.append("0");
    }
    push_digits(&mut s, n);
    s
}

/// The views of a list of strings.
pub open spec fn views(parts: Seq<String>) -> Seq<Seq<char>> {
    parts.map_values(|p: String| p@)
}

/// Parts joined with a separator between neighbours, as `[String]::join`
/// writes them.
pub open spec fn joined(parts: Seq<Seq<char>>, sep: Seq<char>) -> Seq<char>
    decreases parts.len(),
{
    if parts.len() == 0 {
        Seq::empty()
    } else if parts.len() == 1 {
        parts[0]
    } else {
        joined(parts.drop_last(), sep) + sep + parts.last()
    }
}

/// Joining puts the separator between each two neighbours and nowhere else:
/// no parts give nothing, one part gives itself, and otherwise the first part
/// comes, then the separator, then the rest joined.
pub proof fn law_joined_from_front(parts: Seq<Seq<char>>, sep: Seq<char>)
    ensures
        parts.len() == 0 ==> joined(parts, sep) == Seq::<char>::empty(),
        parts.len() == 1 ==> joined(parts, sep) == parts[0],
        parts.len() >= 2 ==> joined(parts, sep) == parts[0] + sep + joined(
            parts.drop_first(),
            sep,
        ),
    decreases parts.len(),
{
    if parts.len() >= 3 {
        law_joined_from_front(parts.drop_last(), sep);
        assert(parts.drop_last().drop_first() =~= parts.drop_first().drop_last());
        assert(parts.drop_first().last() == parts.last());
        assert(parts.drop_last()[0] == parts[0]);
        let a = parts.drop_last();
        let b = parts.drop_first();
        assert(joined(parts, sep) == joined(a, sep) + sep + parts.last());
        assert(joined(b, sep) == joined(b.drop_last(), sep) + sep + b.last());
        assert(joined(a, sep) == a[0] + sep + joined(a.drop_first(), sep));
        assert(joined(parts, sep) =~= parts[0] + sep + joined(parts.drop_first(), sep));
    } else if parts.len() == 2 {
        let a = parts.drop_last();
        let b = parts.drop_first();
        assert(a =~= seq![parts[0]]);
        assert(b =~= seq![parts[1]]);
        assert(joined(a, sep) == parts[0]);
        assert(joined(b, sep) == parts[1]);
        assert(joined(parts, sep) == joined(a, sep) + sep + parts.last());
    }
}

/// Taking a prefix off leaves the rest: when `s` begins with `prefix`, the
/// rest is what follows it; otherwise no rest put after `prefix` gives `s`.
pub proof fn law_without_prefix_rest(s: Seq<char>, prefix: Seq<char>, other: Seq<char>)
    ensures
        without_prefix(s, prefix) matches Some(rest) ==> prefix + rest == s,
        without_prefix(s, prefix) is None ==> prefix + other != s,
{
    if without_prefix(s, prefix) is Some {
        assert(prefix + s.skip(prefix.len() as int) =~= s);
    } else if prefix + other == s {
        assert((prefix + other).take(prefix.len() as int) =~= prefix);
    }
}

/// Joins the parts with `sep` between each two neighbours.
pub fn join(parts: &Vec<String>, sep: &str) -> (s: String)
    ensures
        s@ == joined(views(parts@), sep@),
{
    let mut s = String::new();
    let n = parts.len();
    let ghost all = views(parts@);
    assert(all.take(0) =~= Seq::<Seq<char>>::empty());
    for i in 0..n
        invariant
            n == parts@.len(),
            all == views(parts@),
            s@ == joined(all.take(i as int), sep@),
    {
        if i > 0 {
            s.append(sep);
        }
        s.append(parts[i].as_str());
        assert(all.take(i + 1).drop_last() =~= all.take(i as int));
        assert(all.take(i + 1).last() == parts@[i as int]@);
        if i == 0 {
            assert(all.take(1) =~= seq![parts@[0]@]);
        }
    }
    assert(all.take(n as int) =~= all);
    s
}

/// `s` with `prefix` taken off its front, when `s` begins with `prefix`
/// (`str::strip_prefix` with a string pattern).
pub open spec fn without_prefix(s: Seq<char>, prefix: Seq<char>) -> Option<Seq<char>> {
    if prefix.len() <= s.len() && s.take(prefix.len() as int) == prefix {
        Some(s.skip(prefix.len() as int))
    } else {
        None
    }
}

/// `str::strip_prefix` of std, called with a string pattern. Its
/// documentation: it returns the rest of the string after the prefix when the
/// string starts with it, and `None` otherwise; that is what this states.
#[verifier::external_body]
pub(crate) fn strip_prefix<'a>(s: &'a str, prefix: &str) -> (r: Option<&'a str>)
    ensures
        r matches Some(rest) ==> without_prefix(s@, prefix@) == Some(rest@),
        r is None ==> without_prefix(s@, prefix@) is None,
{
    s.strip_prefix(prefix)
}

} // verus!
