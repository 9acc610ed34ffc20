//! Building text.
use vstd::prelude::*;

verus! {

/// `String::push`: the character is added at the end.
pub assume_specification[ String::push ](string: &mut String, c: char)
    ensures
        final(string)@ == old(string)@.push(c),
;

/// The decimal digits of `n`, without leading zeros.
pub open spec fn decimal(n: nat) -> Seq<char>
    decreases n,
{
    if n < 10 {
        seq![digit(n)]
    } else {
        decimal(n / 10).push(digit(n % 10))
    }
}

/// The character of a digit.
pub open spec fn digit(n: nat) -> char {
    (n + '0' as nat) as char
}

/// `digit`, computed.
fn digit_char(n: u32) -> (c: char)
    requires
        n < 10,
    ensures
        c == digit(n as nat),
{
    (n as u8 + 48u8) as char
}

/// Adds the decimal digits of `n` to `text`.
pub fn push_decimal(text: &mut String, n: u32)
    ensures
        final(text)@ == old(text)@ + decimal(n as nat),
    decreases n,
{
    if n >= 10 {
        push_decimal(text, n / 10);
    }
    text.push(digit_char(n % 10));
    assert(text@ =~= old(text)@ + decimal(n as nat));
}

/// `n` spaces.
pub open spec fn spaces(n: nat) -> Seq<char> {
    Seq::new(n, |i: int| ' ')
}

/// `text` cut or filled with spaces to `n` characters.
pub open spec fn padded(text: Seq<char>, n: nat) -> Seq<char> {
    if text.len() < n {
        text + spaces((n - text.len()) as nat)
    } else {
        text.take(n as int)
    }
}

/// Cuts or fills `s` to `n` characters.
pub fn pad_to(s: &str, n: usize) -> (out: String)
    ensures
        out@ == padded(s@, n as nat),
{
    let mut out = String::new();
    let mut count: usize = 0;
    for c in chars: s.chars()
        invariant
            chars.seq() == s@,
            count <= n,
            out@ == s@.take(count as int),
            count == (if chars.index() < n { chars.index() } else { n as int }),
    {
        if count < n {
            out.push(c);
            count = count + 1;
            assert(out@ =~= s@.take(count as int));
        }
    }
    let ghost text = out@;
    while count < n
        invariant
            count <= n,
            text.len() <= count,
            out@ == text + spaces((count - text.len()) as nat),
        decreases n - count,
    {
        out.push(' ');
        count = count + 1;
        assert(out@ =~= text + spaces((count - text.len()) as nat));
    }
    out
}

/// The number that a row of digits stands for.
pub open spec fn value(digits: Seq<char>) -> int
    decreases digits.len(),
{
    if digits.len() == 0 {
        0
    } else {
        10 * value(digits.drop_last()) + (digits.last() as int - '0' as int)
    }
}

/// The digits of a number stand for it, are digits, and begin with a zero only for zero itself.
pub proof fn law_digits_stand_for_the_number(n: nat)
    ensures
        value(decimal(n)) == n,
        decimal(n).len() > 0,
        forall|i: int| 0 <= i < decimal(n).len() ==> '0' <= #[trigger] decimal(n)[i] <= '9',
        decimal(n)[0] == '0' ==> n == 0,
    decreases n,
{
    let digits = decimal(n);
    if n < 10 {
        assert(digits.drop_last() =~= Seq::<char>::empty());
        assert(value(digits.drop_last()) == 0);
    } else {
        law_digits_stand_for_the_number(n / 10);
        assert(digits.drop_last() =~= decimal(n / 10));
        assert forall|i: int| 0 <= i < digits.len() implies '0' <= #[trigger] digits[i] <= '9' by {
            if i < decimal(n / 10).len() {
                assert(digits[i] == decimal(n / 10)[i]);
            }
        }
        assert(digits[0] == decimal(n / 10)[0]);
    }
}

/// A text that is cut or filled has exactly the wanted length: its own characters as far as they
/// go, and spaces after them.
pub proof fn law_padding_keeps_the_text(text: Seq<char>, n: nat)
    ensures
        padded(text, n).len() == n,
        forall|i: int|
            0 <= i < n ==> #[trigger] padded(text, n)[i] == (if i < text.len() {
                text[i]
            } else {
                ' '
            }),
{
}

} // verus!
