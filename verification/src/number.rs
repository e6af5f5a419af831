use crate::decimal::{all_digits, is_decimal, is_decimal_text, is_digit, unsigned};
use vstd::prelude::*;
use vstd::string::*;

verus! {

/// The decimal digit that stands for `d`, for `d` below ten.
pub open spec fn digit_char(d: int) -> char {
    if d == 0 {
        '0'
    } else if d == 1 {
        '1'
    } else if d == 2 {
        '2'
    } else if d == 3 {
        '3'
    } else if d == 4 {
        '4'
    } else if d == 5 {
        '5'
    } else if d == 6 {
        '6'
    } else if d == 7 {
        '7'
    } else if d == 8 {
        '8'
    } else {
        '9'
    }
}

/// The digits of a natural number, most significant first.
pub open spec fn digits_of(n: nat) -> Seq<char>
    decreases n,
{
    if n < 10 {
        seq![digit_char(n as int)]
    } else {
        digits_of(n / 10).push(digit_char((n % 10) as int))
    }
}

/// An integer written in decimal, with a minus sign where it is negative.
pub open spec fn decimal_text(n: int) -> Seq<char> {
    if n < 0 {
        seq!['-'] + digits_of((-n) as nat)
    } else {
        digits_of(n as nat)
    }
}

/// The text that stands for the number zero.
pub open spec fn zero_text() -> Seq<char> {
    seq!['0']
}

/// The text by which a number is kept when `text` is given for it: `text`
/// itself where it reads as a number, and the text for zero where it does
/// not.
pub open spec fn number_text(text: Seq<char>) -> Seq<char> {
    if is_decimal(text) {
        text
    } else {
        zero_text()
    }
}

/// The digits of a number are digits, and there is at least one.
proof fn lemma_digits_of(n: nat)
    ensures
        digits_of(n).len() > 0,
        all_digits(digits_of(n)),
    decreases n,
{
    if n >= 10 {
        lemma_digits_of(n / 10);
    }
}

/// An integer written in decimal reads as a number.
pub proof fn lemma_decimal_text(n: int)
    ensures
        is_decimal(decimal_text(n)),
{
    if n < 0 {
        lemma_digits_of((-n) as nat);
        assert(unsigned(decimal_text(n)) =~= digits_of((-n) as nat));
    } else {
        lemma_digits_of(n as nat);
        assert(is_digit(decimal_text(n)[0]));
    }
}

/// A number of the dynamic side, held as the decimal text that denotes it.
///
/// The dynamic side computes with 32-bit floating-point numbers. Here a
/// number is kept in writing, so that two numbers can be compared and a
/// number can serve as a key. The text is always one that reads as a
/// floating-point number.
#[derive(Debug)]
pub struct Number {
    text: String,
}

impl View for Number {
    type V = Seq<char>;

    closed spec fn view(&self) -> Seq<char> {
        self.text@
    }
}

impl Number {
    #[verifier::type_invariant]
    spec fn well_formed(self) -> bool {
        is_decimal(self.text@)
    }

    /// The number zero.
    pub fn zero() -> (number: Number)
        ensures
            number@ == zero_text(),
    {
        proof {
            reveal_strlit("0");
            assert("0"@ =~= zero_text());
            assert(is_digit(zero_text()[0]));
        }
        Number { text: "0".to_owned() }
    }

    /// The number that `text` denotes, or zero where `text` is not written
    /// as a decimal number.
    pub fn from_text(text: &str) -> (number: Number)
        ensures
            number@ == number_text(text@),
    {
        if is_decimal_text(text) {
            Number { text: text.to_owned() }
        } else {
            Number::zero()
        }
    }

    /// The number that an integer denotes.
    pub fn from_integer(n: i64) -> (number: Number)
        ensures
            number@ == decimal_text(n as int),
    {
        let mut text = String::new();
        let magnitude: u64 = if n < 0 {
            text.append("-");
            (-(n + 1)) as u64 + 1
        } else {
            n as u64
        };
        push_digits(&mut text, magnitude);
        proof {
            reveal_strlit("-");
            lemma_decimal_text(n as int);
            assert(text@ =~= decimal_text(n as int));
        }
        Number { text }
    }

    /// The number that an index denotes.
    pub fn from_index(n: usize) -> (number: Number)
        ensures
            number@ == decimal_text(n as int),
    {
        let mut text = String::new();
        push_digits(&mut text, n as u64);
        proof {
            lemma_decimal_text(n as int);
            assert(text@ =~= decimal_text(n as int));
        }
        Number { text }
    }

    /// Whether two numbers are written alike.
    pub fn same(&self, other: &Number) -> (r: bool)
        ensures
            r == (self@ == other@),
    {
        self.text == other.text
    }

    /// The text that denotes the number.
    pub fn as_str(&self) -> (text: &str)
        ensures
            text@ == self@,
            is_decimal(text@),
    {
        proof {
            use_type_invariant(self);
        }
        self.text.as_str()
    }
}

impl PartialEq for Number {
    fn eq(&self, other: &Number) -> (r: bool) {
        self.same(other)
    }
}

impl vstd::std_specs::cmp::PartialEqSpecImpl for Number {
    open spec fn obeys_eq_spec() -> bool {
        true
    }

    open spec fn eq_spec(&self, other: &Number) -> bool {
        self@ == other@
    }
}

impl Clone for Number {
    fn clone(&self) -> (copy: Number)
        ensures
            copy@ == self@,
    {
        proof {
            use_type_invariant(self);
        }
        Number { text: self.text.clone() }
    }
}

/// The text of one decimal digit.
fn digit_str(d: u64) -> (text: &'static str)
    requires
        d < 10,
    ensures
        text@ == seq![digit_char(d as int)],
{
    proof {
        reveal_strlit("0");
        reveal_strlit("1");
        reveal_strlit("2");
        reveal_strlit("3");
        reveal_strlit("4");
        reveal_strlit("5");
        reveal_strlit("6");
        reveal_strlit("7");
        reveal_strlit("8");
        reveal_strlit("9");
    }
    let text = match d {
        0 => "0",
        1 => "1",
        2 => "2",
        3 => "3",
        4 => "4",
        5 => "5",
        6 => "6",
        7 => "7",
        8 => "8",
        _ => "9",
    };
    assert(text@ =~= seq![digit_char(d as int)]);
    text
}

/// Writes the digits of `n` behind what `out` holds.
fn push_digits(out: &mut String, n: u64)
    ensures
        final(out)@ == old(out)@ + digits_of(n as nat),
    decreases n,
{
    if n >= 10 {
        push_digits(out, n / 10);
    }
    out.append(digit_str(n % 10));
}

} // verus!
