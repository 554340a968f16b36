use vstd::prelude::*;

use crate::types::Name;

verus! {

/// The decimal digit character of `d`, for `d < 10`.
pub open spec fn digit_char(d: nat) -> char {
    if d == 0 {
        '0'
    } else if d == 1 {
        '1'
    } else if d == 2 {
        '2'
    } else if d == 3 {
        '3'
    } else if d == 4 {
        '4'
    } else if d == 5 {
        '5'
    } else if d == 6 {
        '6'
    } else if d == 7 {
        '7'
    } else if d == 8 {
        '8'
    } else {
        '9'
    }
}

/// The decimal text of `n`, without leading zeros.
pub open spec fn decimal(n: nat) -> Seq<char>
    decreases n,
{
    if n < 10 {
        seq![digit_char(n)]
    } else {
        decimal(n / 10) + seq![digit_char(n % 10)]
    }
}

fn digit_str(d: u128) -> (r: &'static str)
    requires
        d < 10,
    ensures
        r@ == seq![digit_char(d as nat)],
{
    proof {
        reveal_strlit("0");
        reveal_strlit("1");
        reveal_strlit("2");
        reveal_strlit("3");
        reveal_strlit("4");
        reveal_strlit("5");
        reveal_strlit("6");
        reveal_strlit("7");
        reveal_strlit("8");
        reveal_strlit("9");
    }
    if d == 0 {
        "0"
    } else if d == 1 {
        "1"
    } else if d == 2 {
        "2"
    } else if d == 3 {
        "3"
    } else if d == 4 {
        "4"
    } else if d == 5 {
        "5"
    } else if d == 6 {
        "6"
    } else if d == 7 {
        "7"
    } else if d == 8 {
        "8"
    } else {
        "9"
    }
}

/// Appends the decimal text of `n` to `s`.
pub fn push_decimal(s: &mut String, n: u128)
    ensures
        final(s)@ == old(s)@ + decimal(n as nat),
    decreases n,
{
    if n >= 10 {
        push_decimal(s, n / 10);
    }
    s.append(digit_str(n % 10));
    proof {
        if n >= 10 {
            assert(old(s)@ + decimal((n / 10) as nat) + seq![digit_char((n % 10) as nat)] =~= old(s)@
                + decimal(n as nat));
        } else {
            assert(n % 10 == n);
        }
    }
}

/// Appends `t` to `s`.
pub fn push_str(s: &mut String, t: &str)
    ensures
        final(s)@ == old(s)@ + t@,
{
    s.append(t);
}

/// The text that `s` holds from character `start` on.
pub fn text_from<'a>(s: &'a String, start: usize) -> (r: &'a str)
    requires
        start <= s@.len(),
    ensures
        r@ == s@.subrange(start as int, s@.len() as int),
{
    let end = s.as_str().unicode_len();
    s.as_str().substring_char(start, end)
}

/// The number of characters of `s`.
pub fn char_len(s: &String) -> (r: usize)
    ensures
        r == s@.len(),
{
    s.as_str().unicode_len()
}

/// A name quoted for its dialect: between backticks, or between brackets.
pub open spec fn quoted(bracket: bool, n: Seq<char>) -> Seq<char> {
    if bracket {
        "["@ + n + "]"@
    } else {
        "`"@ + n + "`"@
    }
}

/// A quoted `table.column` reference.
pub open spec fn column_ref(bracket: bool, t: Seq<char>, c: Seq<char>) -> Seq<char> {
    quoted(bracket, t) + "."@ + quoted(bracket, c)
}

/// Appends `n` quoted for its dialect.
pub fn push_quoted(s: &mut String, bracket: bool, n: &Name)
    ensures
        final(s)@ == old(s)@ + quoted(bracket, n@),
{
    if bracket {
        push_str(s, "[");
        push_str(s, n.as_str());
        push_str(s, "]");
    } else {
        push_str(s, "`");
        push_str(s, n.as_str());
        push_str(s, "`");
    }
    assert(final(s)@ =~= old(s)@ + quoted(bracket, n@));
}

/// Appends the quoted reference `t.c`.
pub fn push_column_ref(s: &mut String, bracket: bool, t: &Name, c: &Name)
    ensures
        final(s)@ == old(s)@ + column_ref(bracket, t@, c@),
{
    push_quoted(s, bracket, t);
    push_str(s, ".");
    push_quoted(s, bracket, c);
    assert(final(s)@ =~= old(s)@ + column_ref(bracket, t@, c@));
}

} // verus!
