use vstd::prelude::*;
use vstd::string::StrSliceExecFns;
use vstd::string::StringExecFns;

verus! {

/// The character of a decimal digit.
pub open spec fn digit(d: int) -> char {
    if d == 0 {
        '0'
    } else if d == 1 {
        '1'
    } else if d == 2 {
        '2'
    } else if d == 3 {
        '3'
    } else if d == 4 {
        '4'
    } else if d == 5 {
        '5'
    } else if d == 6 {
        '6'
    } else if d == 7 {
        '7'
    } else if d == 8 {
        '8'
    } else {
        '9'
    }
}

/// The decimal numeral of a natural number, without leading zeros.
pub open spec fn decimal(n: nat) -> Seq<char>
    decreases n,
{
    if n < 10 {
        seq![digit(n as int)]
    } else {
        decimal(n / 10).push(digit((n % 10) as int))
    }
}

/// The decimal numeral of an integer, with `-` before a negative one.
pub open spec fn signed_decimal(i: int) -> Seq<char> {
    if i < 0 {
        seq!['-'] + decimal((-i) as nat)
    } else {
        decimal(i as nat)
    }
}

/// `n` spaces.
pub open spec fn spaces(n: nat) -> Seq<char>
    decreases n,
{
    if n == 0 {
        Seq::empty()
    } else {
        spaces((n - 1) as nat).push(' ')
    }
}

/// The digit as a string of one character.
fn digit_text(d: u8) -> (r: &'static str)
    requires
        d < 10,
    ensures
        r@ == seq![digit(d as int)],
{
    proof {
        reveal_strlit("0");
        reveal_strlit("1");
        reveal_strlit("2");
        reveal_strlit("3");
        reveal_strlit("4");
        reveal_strlit("5");
        reveal_strlit("6");
        reveal_strlit("7");
        reveal_strlit("8");
        reveal_strlit("9");
    }
    let r = if d == 0 {
        "0"
    } else if d == 1 {
        "1"
    } else if d == 2 {
        "2"
    } else if d == 3 {
        "3"
    } else if d == 4 {
        "4"
    } else if d == 5 {
        "5"
    } else if d == 6 {
        "6"
    } else if d == 7 {
        "7"
    } else if d == 8 {
        "8"
    } else {
        "9"
    };
    assert(r@ =~= seq![digit(d as int)]);
    r
}

/// Appends the decimal numeral of `n`.
pub fn push_decimal(out: &mut String, n: u128)
    ensures
        final(out)@ == old(out)@ + decimal(n as nat),
    decreases n,
{
    if n >= 10 {
        push_decimal(out, n / 10);
    }
    out.append(digit_text((n % 10) as u8));
    assert(out@ =~= old(out)@ + decimal(n as nat));
}

/// Appends the decimal numeral of `i`, with `-` before a negative one.
pub fn push_signed(out: &mut String, i: isize)
    ensures
        final(out)@ == old(out)@ + signed_decimal(i as int),
{
    let wide: i128 = i as i128;
    if wide < 0 {
        proof {
            reveal_strlit("-");
        }
        out.append("-");
        push_decimal(out, (-wide) as u128);
        assert(out@ =~= old(out)@ + signed_decimal(i as int));
    } else {
        push_decimal(out, wide as u128);
    }
}

/// Appends `n` spaces.
pub fn push_spaces(out: &mut String, n: usize)
    ensures
        final(out)@ == old(out)@ + spaces(n as nat),
{
    let mut i: usize = 0;
    assert(out@ =~= old(out)@ + spaces(0));
    while i < n
        invariant
            i <= n,
            out@ == old(out)@ + spaces(i as nat),
        decreases n - i,
    {
        proof {
            reveal_strlit(" ");
        }
        out.append(" ");
        i += 1;
        assert(out@ =~= old(out)@ + spaces(i as nat));
    }
}

/// `text`, followed by the spaces that bring it to `width` characters.
pub open spec fn pad_right(text: Seq<char>, width: nat) -> Seq<char> {
    if text.len() < width {
        text + spaces((width - text.len()) as nat)
    } else {
        text
    }
}

/// `text`, after the spaces that bring it to `width` characters.
pub open spec fn pad_left(text: Seq<char>, width: nat) -> Seq<char> {
    if text.len() < width {
        spaces((width - text.len()) as nat) + text
    } else {
        text
    }
}

/// `text`, between the spaces that bring it to `width` characters: half of
/// them before it, rounded down, and the rest after it.
pub open spec fn centered(text: Seq<char>, width: nat) -> Seq<char> {
    if text.len() < width {
        let gap = (width - text.len()) as nat;
        spaces(gap / 2) + text + spaces((gap - gap / 2) as nat)
    } else {
        text
    }
}

/// Appends `text`, padded on the right to `width` characters.
pub fn push_pad_right(out: &mut String, text: &str, width: usize)
    ensures
        final(out)@ == old(out)@ + pad_right(text@, width as nat),
{
    let n = text.unicode_len();
    out.append(text);
    if n < width {
        push_spaces(out, width - n);
    }
    assert(out@ =~= old(out)@ + pad_right(text@, width as nat));
}

/// Appends `text`, padded on the left to `width` characters.
pub fn push_pad_left(out: &mut String, text: &str, width: usize)
    ensures
        final(out)@ == old(out)@ + pad_left(text@, width as nat),
{
    let n = text.unicode_len();
    if n < width {
        push_spaces(out, width - n);
    }
    out.append(text);
    assert(out@ =~= old(out)@ + pad_left(text@, width as nat));
}

/// Appends `text`, centered in `width` characters.
pub fn push_centered(out: &mut String, text: &str, width: usize)
    ensures
        final(out)@ == old(out)@ + centered(text@, width as nat),
{
    let n = text.unicode_len();
    if n < width {
        let gap = width - n;
        push_spaces(out, gap / 2);
        out.append(text);
        push_spaces(out, gap - gap / 2);
    } else {
        out.append(text);
    }
    assert(out@ =~= old(out)@ + centered(text@, width as nat));
}

/// The index of the last `c` in `s`, if there is one.
pub open spec fn last_index_of(s: Seq<char>, c: char) -> Option<int>
    decreases s.len(),
{
    if s.len() == 0 {
        None
    } else if s.last() == c {
        Some(s.len() - 1)
    } else {
        last_index_of(s.drop_last(), c)
    }
}

} // verus!
