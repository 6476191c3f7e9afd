//! Building messages.

use vstd::prelude::*;
use vstd::string::StringExecFns;

verus! {

/// The decimal digit `d`.
pub open spec fn digit_text(d: int) -> Seq<char> {
    if d == 0 {
        "0"@
    } else if d == 1 {
        "1"@
    } else if d == 2 {
        "2"@
    } else if d == 3 {
        "3"@
    } else if d == 4 {
        "4"@
    } else if d == 5 {
        "5"@
    } else if d == 6 {
        "6"@
    } else if d == 7 {
        "7"@
    } else if d == 8 {
        "8"@
    } else {
        "9"@
    }
}

/// The decimal representation of `n`, without leading zeros.
pub open spec fn decimal_text(n: nat) -> Seq<char>
    decreases n,
{
    if n < 10 {
        digit_text(n as int)
    } else {
        decimal_text(n / 10) + digit_text(n as int % 10)
    }
}

fn digit(d: u64) -> (text: &'static str)
    requires
        d < 10,
    ensures
        text@ == digit_text(d as int),
{
    match d {
        0 => "0",
        1 => "1",
        2 => "2",
        3 => "3",
        4 => "4",
        5 => "5",
        6 => "6",
        7 => "7",
        8 => "8",
        _ => "9",
    }
}

/// Writes `n` in decimal.
pub fn decimal(n: u64) -> (text: String)
    ensures
        text@ == decimal_text(n as nat),
    decreases n,
{
    if n < 10 {
        digit(n).to_owned()
    } else {
        let mut text = decimal(n / 10);
        text.append(digit(n % 10));
        text
    }
}

/// The concatenation of `parts`.
pub open spec fn joined(parts: Seq<&str>) -> Seq<char>
    decreases parts.len(),
{
    if parts.len() == 0 {
        Seq::empty()
    } else {
        joined(parts.drop_last()) + parts.last()@
    }
}

/// Concatenates `parts`.
pub fn join(parts: &[&str]) -> (text: String)
    ensures
        text@ == joined(parts@),
{
    let mut text = String::new();
    let mut i: usize = 0;
    assert(parts@.take(0) =~= Seq::empty());
    while i < parts.len()
        invariant
            i <= parts@.len(),
            text@ == joined(parts@.take(i as int)),
        decreases parts@.len() - i,
    {
        text.append(parts[i]);
        assert(parts@.take(i + 1).drop_last() =~= parts@.take(i as int));
        i = i + 1;
    }
    assert(parts@.take(i as int) =~= parts@);
    text
}

/// A digit is one character, and different digits are different characters.
proof fn lemma_digits(c: int, d: int)
    requires
        0 <= c < 10,
        0 <= d < 10,
    ensures
        digit_text(c).len() == 1,
        digit_text(c) == digit_text(d) ==> c == d,
{
    reveal_strlit("0");
    reveal_strlit("1");
    reveal_strlit("2");
    reveal_strlit("3");
    reveal_strlit("4");
    reveal_strlit("5");
    reveal_strlit("6");
    reveal_strlit("7");
    reveal_strlit("8");
    reveal_strlit("9");
    if c != d {
        assert(digit_text(c)[0] != digit_text(d)[0]);
    }
}

proof fn lemma_decimal_len(n: nat)
    ensures
        decimal_text(n).len() >= 1,
        n >= 10 ==> decimal_text(n).len() >= 2,
    decreases n,
{
    if n < 10 {
        lemma_digits(n as int, 0);
    } else {
        lemma_decimal_len(n / 10);
        lemma_digits(n as int % 10, 0);
    }
}

/// Different numbers have different decimal representations.
pub proof fn decimal_is_injective(a: nat, b: nat)
    requires
        decimal_text(a) == decimal_text(b),
    ensures
        a == b,
    decreases a,
{
    lemma_decimal_len(a);
    lemma_decimal_len(b);
    if a < 10 {
        lemma_digits(a as int, 0);
        if b < 10 {
            lemma_digits(a as int, b as int);
        }
    } else if b < 10 {
        lemma_digits(b as int, 0);
    } else {
        let x = decimal_text(a / 10);
        let y = decimal_text(b / 10);
        let c = digit_text(a as int % 10);
        let d = digit_text(b as int % 10);
        lemma_digits(a as int % 10, b as int % 10);
        lemma_digits(b as int % 10, a as int % 10);
        assert(x.len() == y.len());
        assert((x + c).take(x.len() as int) =~= x);
        assert((y + d).take(y.len() as int) =~= y);
        assert((x + c).skip(x.len() as int) =~= c);
        assert((y + d).skip(y.len() as int) =~= d);
        decimal_is_injective(a / 10, b / 10);
    }
}

/// The number that a text of decimal digits stands for.
pub open spec fn number_of(text: Seq<char>) -> int {
    text.fold_left(0int, |sum: int, c: char| 10 * sum + (c as int - '0' as int))
}

/// What is written in decimal reads back as the number: ten times what the digits before stand for,
/// plus the digit, all of them digits, and the first one zero only for zero itself.
pub proof fn decimal_reads_back(n: nat)
    ensures
        number_of(decimal_text(n)) == n,
        decimal_text(n).len() > 0,
        forall|i: int| 0 <= i < decimal_text(n).len() ==> '0' <= #[trigger] decimal_text(n)[i] <= '9',
        n > 0 ==> decimal_text(n)[0] != '0',
    decreases n,
{
    let d = n as int % 10;
    lemma_digit_value(d);
    let text = decimal_text(n);
    if n < 10 {
        lemma_digit_value(n as int);
        reveal_with_fuel(Seq::fold_left, 2);
    } else {
        decimal_reads_back(n / 10);
        assert(text.drop_last() =~= decimal_text(n / 10));
        assert(text.last() == digit_text(d)[0]);
    }
}

proof fn lemma_digit_value(d: int)
    requires
        0 <= d < 10,
    ensures
        digit_text(d).len() == 1,
        digit_text(d)[0] as int == '0' as int + d,
        '0' <= digit_text(d)[0] <= '9',
{
    reveal_strlit("0");
    reveal_strlit("1");
    reveal_strlit("2");
    reveal_strlit("3");
    reveal_strlit("4");
    reveal_strlit("5");
    reveal_strlit("6");
    reveal_strlit("7");
    reveal_strlit("8");
    reveal_strlit("9");
}

/// Joined texts are the parts one after the other: the parts before, and then the next one.
pub proof fn joining_appends_parts(parts: Seq<&str>, more: Seq<&str>)
    ensures
        joined(parts + more) == joined(parts) + joined(more),
        parts.len() == 1 ==> joined(parts) == parts[0]@,
    decreases more.len(),
{
    if more.len() == 0 {
        assert(parts + more =~= parts);
    } else {
        joining_appends_parts(parts, more.drop_last());
        assert((parts + more).drop_last() =~= parts + more.drop_last());
        assert((parts + more).last() == more.last());
    }
    if parts.len() == 1 {
        reveal_with_fuel(joined, 2);
        assert(parts.drop_last() =~= Seq::<&str>::empty());
        assert(joined(parts) =~= parts[0]@);
    }
}

} // verus!
