//! Decimal text.

use vstd::prelude::*;
use vstd::string::StringExecFns;

verus! {

/// The character of a decimal digit.
pub open spec fn digit(d: int) -> char {
    if d == 0 {
        '0'
    } else if d == 1 {
        '1'
    } else if d == 2 {
        '2'
    } else if d == 3 {
        '3'
    } else if d == 4 {
        '4'
    } else if d == 5 {
        '5'
    } else if d == 6 {
        '6'
    } else if d == 7 {
        '7'
    } else if d == 8 {
        '8'
    } else {
        '9'
    }
}

/// A number in decimal, without leading zeros.
pub open spec fn digits(n: nat) -> Seq<char>
    decreases n,
{
    if n < 10 {
        seq![digit(n as int)]
    } else {
        digits(n / 10).push(digit((n % 10) as int))
    }
}

/// An integer in decimal, with a sign where it is negative.
pub open spec fn decimal(n: int) -> Seq<char> {
    if n < 0 {
        seq!['-'] + digits((-n) as nat)
    } else {
        digits(n as nat)
    }
}

/// The number that a row of decimal digits says.
pub open spec fn number(text: Seq<char>) -> int
    decreases text.len(),
{
    if text.len() == 0 {
        0
    } else {
        10 * number(text.drop_last()) + (text.last() as int - '0' as int)
    }
}

/// Decimal text consists of digits, says its number, and has no leading zero but that of
/// zero itself. A minus stands in front of what is below zero.
pub proof fn lemma_decimal(n: int)
    ensures
        ({
            let size = if n < 0 {
                -n
            } else {
                n
            };
            let text = decimal(n);
            let body = if n < 0 {
                text.skip(1)
            } else {
                text
            };
            &&& n < 0 ==> text.len() > 1 && text[0] == '-'
            &&& body.len() > 0
            &&& number(body) == size
            &&& forall|i: int| 0 <= i < body.len() ==> '0' <= #[trigger] body[i] <= '9'
            &&& size > 0 ==> body[0] != '0'
            &&& size == 0 ==> body.len() == 1
        }),
{
    if n < 0 {
        lemma_digits((-n) as nat);
        assert(decimal(n).skip(1) =~= digits((-n) as nat));
    } else {
        lemma_digits(n as nat);
    }
}

proof fn lemma_digits(n: nat)
    ensures
        digits(n).len() > 0,
        number(digits(n)) == n,
        forall|i: int| 0 <= i < digits(n).len() ==> '0' <= #[trigger] digits(n)[i] <= '9',
        n > 0 ==> digits(n)[0] != '0',
        n == 0 ==> digits(n).len() == 1,
    decreases n,
{
    let text = digits(n);
    reveal_with_fuel(number, 2);
    if n < 10 {
        assert(text.drop_last() =~= Seq::<char>::empty());
    } else {
        lemma_digits(n / 10);
        assert(text.drop_last() =~= digits(n / 10));
    }
}

/// Integers in decimal with a separator between them.
pub open spec fn separated(list: Seq<i64>, separator: Seq<char>) -> Seq<char>
    decreases list.len(),
{
    if list.len() == 0 {
        seq![]
    } else if list.len() == 1 {
        decimal(list[0] as int)
    } else {
        separated(list.drop_last(), separator) + separator + decimal(list.last() as int)
    }
}

/// A list is its first number, the separator and the rest of the list.
pub proof fn lemma_separated(list: Seq<i64>, separator: Seq<char>)
    ensures
        separated(Seq::empty(), separator) == Seq::<char>::empty(),
        list.len() == 1 ==> separated(list, separator) == decimal(list[0] as int),
        list.len() > 1 ==> separated(list, separator) == decimal(list[0] as int) + separator
            + separated(list.skip(1), separator),
    decreases list.len(),
{
    reveal_with_fuel(separated, 2);
    if list.len() > 2 {
        let front = list.drop_last();
        lemma_separated(front, separator);
        assert(list.skip(1).drop_last() =~= front.skip(1));
        assert(list.skip(1).last() == list.last());
        assert(separated(list, separator) =~= decimal(list[0] as int) + separator + separated(
            list.skip(1),
            separator,
        ));
    } else if list.len() == 2 {
        assert(list.drop_last().len() == 1 && list.drop_last()[0] == list[0]);
        assert(list.skip(1).len() == 1 && list.skip(1)[0] == list.last());
    }
}

fn append_digit(out: &mut String, d: u64)
    requires
        d < 10,
    ensures
        final(out)@ == old(out)@.push(digit(d as int)),
{
    let ghost before = out@;
    proof {
        reveal_strlit("0");
        reveal_strlit("1");
        reveal_strlit("2");
        reveal_strlit("3");
        reveal_strlit("4");
        reveal_strlit("5");
        reveal_strlit("6");
        reveal_strlit("7");
        reveal_strlit("8");
        reveal_strlit("9");
    }
    let text: &str = if d == 0 {
        "0"
    } else if d == 1 {
        "1"
    } else if d == 2 {
        "2"
    } else if d == 3 {
        "3"
    } else if d == 4 {
        "4"
    } else if d == 5 {
        "5"
    } else if d == 6 {
        "6"
    } else if d == 7 {
        "7"
    } else if d == 8 {
        "8"
    } else {
        "9"
    };
    out.append(text);
    assert(out@ =~= before.push(digit(d as int)));
}

fn append_digits(out: &mut String, n: u64)
    ensures
        final(out)@ == old(out)@ + digits(n as nat),
    decreases n,
{
    let ghost before = out@;
    if n < 10 {
        append_digit(out, n);
    } else {
        append_digits(out, n / 10);
        append_digit(out, n % 10);
    }
    assert(out@ =~= before + digits(n as nat));
}

/// Append an integer in decimal.
pub fn append_decimal(out: &mut String, n: i64)
    ensures
        final(out)@ == old(out)@ + decimal(n as int),
{
    let ghost before = out@;
    if n < 0 {
        proof {
            reveal_strlit("-");
        }
        out.append("-");
        let size: u64 = (-(n + 1)) as u64 + 1;
        append_digits(out, size);
        assert(out@ =~= before + decimal(n as int));
    } else {
        append_digits(out, n as u64);
    }
}

/// Append a size in decimal.
pub fn append_size(out: &mut String, n: usize)
    ensures
        final(out)@ == old(out)@ + decimal(n as int),
{
    append_digits(out, n as u64);
}

/// Append integers in decimal with a separator between them.
pub fn append_separated(out: &mut String, list: &[i64], separator: &str)
    ensures
        final(out)@ == old(out)@ + separated(list@, separator@),
{
    let ghost before = out@;
    let mut i: usize = 0;
    assert(out@ =~= before + separated(list@.take(0), separator@));
    while i < list.len()
        invariant
            i <= list@.len(),
            before == old(out)@,
            out@ == before + separated(list@.take(i as int), separator@),
        decreases list@.len() - i,
    {
        let ghost done = list@.take(i as int);
        let ghost more = list@.take(i + 1);
        if i > 0 {
            out.append(separator);
        }
        append_decimal(out, list[i]);
        proof {
            assert(more.drop_last() =~= done);
            assert(more.last() == list@[i as int]);
            assert(out@ =~= before + separated(more, separator@));
        }
        i = i + 1;
    }
    assert(list@.take(i as int) =~= list@);
}

/// A list in the form `[1, 2, 3]`.
pub open spec fn bracketed(list: Seq<i64>) -> Seq<char> {
    "["@ + separated(list, ", "@) + "]"@
}

/// Append a list in the form `[1, 2, 3]`.
pub fn append_bracketed(out: &mut String, list: &[i64])
    ensures
        final(out)@ == old(out)@ + bracketed(list@),
{
    let ghost before = out@;
    out.append("[");
    append_separated(out, list, ", ");
    out.append("]");
    assert(out@ =~= before + bracketed(list@));
}

} // verus!
