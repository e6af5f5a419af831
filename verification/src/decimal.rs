use vstd::prelude::*;
use vstd::string::*;

verus! {

/// A decimal digit.
pub open spec fn is_digit(c: char) -> bool {
    '0' <= c && c <= '9'
}

/// A plus or a minus sign.
pub open spec fn is_sign(c: char) -> bool {
    c == '+' || c == '-'
}

/// Every character is a decimal digit.
pub open spec fn all_digits(s: Seq<char>) -> bool {
    forall|i: int| 0 <= i < s.len() ==> is_digit(#[trigger] s[i])
}

/// Digits with at most one point among them, and at least one digit: `12`,
/// `12.`, `.5` and `12.5`, but not the point alone.
pub open spec fn is_significand(s: Seq<char>) -> bool {
    ||| s.len() > 0 && all_digits(s)
    ||| exists|p: int|
        0 <= p < s.len() && s.len() > 1 && #[trigger] s[p] == '.' && all_digits(s.subrange(0, p))
            && all_digits(s.subrange(p + 1, s.len() as int))
}

/// The letter `e` in either case, then an optional sign, then one or more
/// digits.
pub open spec fn is_exponent(s: Seq<char>) -> bool {
    &&& s.len() > 0
    &&& s[0] == 'e' || s[0] == 'E'
    &&& {
        let from = if s.len() > 1 && is_sign(s[1]) {
            2int
        } else {
            1int
        };
        from < s.len() && all_digits(s.subrange(from, s.len() as int))
    }
}

/// A significand, with or without an exponent behind it.
pub open spec fn is_finite_number(s: Seq<char>) -> bool {
    ||| is_significand(s)
    ||| exists|e: int|
        0 <= e < s.len() && is_significand(#[trigger] s.subrange(0, e)) && is_exponent(
            s.subrange(e, s.len() as int),
        )
}

/// The character is `lower` or `upper`.
pub open spec fn either(c: char, lower: char, upper: char) -> bool {
    c == lower || c == upper
}

/// One of the words `inf`, `infinity` and `nan`, in any mix of cases.
pub open spec fn is_special(s: Seq<char>) -> bool {
    ||| s.len() == 3 && either(s[0], 'i', 'I') && either(s[1], 'n', 'N') && either(s[2], 'f', 'F')
    ||| s.len() == 3 && either(s[0], 'n', 'N') && either(s[1], 'a', 'A') && either(s[2], 'n', 'N')
    ||| s.len() == 8 && either(s[0], 'i', 'I') && either(s[1], 'n', 'N') && either(s[2], 'f', 'F')
        && either(s[3], 'i', 'I') && either(s[4], 'n', 'N') && either(s[5], 'i', 'I') && either(
        s[6],
        't',
        'T',
    ) && either(s[7], 'y', 'Y')
}

/// What stands behind the sign, or all of it where there is no sign.
pub open spec fn unsigned(s: Seq<char>) -> Seq<char> {
    if s.len() > 0 && is_sign(s[0]) {
        s.subrange(1, s.len() as int)
    } else {
        s
    }
}

/// The text is written as a decimal number: an optional sign, and then
/// either a finite number or one of the special words. These are the texts
/// that `str::parse` reads as a floating-point number.
pub open spec fn is_decimal(s: Seq<char>) -> bool {
    is_finite_number(unsigned(s)) || is_special(unsigned(s))
}

/// Where the run of digits that begins at `from` ends: the first place at
/// or behind `from` that holds no digit.
pub open spec fn digits_end(s: Seq<char>, from: int) -> int
    decreases s.len() - from,
{
    if 0 <= from < s.len() && is_digit(s[from]) {
        digits_end(s, from + 1)
    } else {
        from
    }
}

proof fn lemma_digits_end(s: Seq<char>, from: int)
    requires
        0 <= from <= s.len(),
    ensures
        from <= digits_end(s, from) <= s.len(),
        all_digits(s.subrange(from, digits_end(s, from))),
        digits_end(s, from) < s.len() ==> !is_digit(s[digits_end(s, from)]),
    decreases s.len() - from,
{
    if from < s.len() && is_digit(s[from]) {
        lemma_digits_end(s, from + 1);
        let end = digits_end(s, from);
        assert forall|i: int| 0 <= i < end - from implies is_digit(
            #[trigger] s.subrange(from, end)[i],
        ) by {
            if i > 0 {
                assert(s.subrange(from, end)[i] == s.subrange(from + 1, end)[i - 1]);
            }
        }
    }
}

/// A run of digits from `from` to `to` that a non-digit or the end follows
/// ends where `digits_end` says.
proof fn lemma_digits_end_is(s: Seq<char>, from: int, to: int)
    requires
        0 <= from <= to <= s.len(),
        all_digits(s.subrange(from, to)),
        to < s.len() ==> !is_digit(s[to]),
    ensures
        digits_end(s, from) == to,
    decreases to - from,
{
    if from < to {
        assert(s.subrange(from, to)[0] == s[from]);
        assert forall|i: int| 0 <= i < to - from - 1 implies is_digit(
            #[trigger] s.subrange(from + 1, to)[i],
        ) by {
            assert(s.subrange(from + 1, to)[i] == s.subrange(from, to)[i + 1]);
        }
        lemma_digits_end_is(s, from + 1, to);
    }
}

/// Whether a text is a significand is settled by its first run of digits
/// and by what follows that run.
proof fn lemma_significand(s: Seq<char>)
    ensures
        is_significand(s) <==> {
            let a = digits_end(s, 0);
            if a == s.len() {
                a > 0
            } else {
                s[a] == '.' && digits_end(s, a + 1) == s.len() && s.len() > 1
            }
        },
{
    let len = s.len() as int;
    let a = digits_end(s, 0);
    lemma_digits_end(s, 0);
    if a < len {
        lemma_digits_end(s, a + 1);
    }
    if is_significand(s) {
        if len > 0 && all_digits(s) {
            if a < len {
                assert(is_digit(s[a]));
            }
        } else {
            let p = choose|p: int|
                0 <= p < s.len() && s.len() > 1 && #[trigger] s[p] == '.' && all_digits(
                    s.subrange(0, p),
                ) && all_digits(s.subrange(p + 1, s.len() as int));
            lemma_digits_end_is(s, 0, p);
            lemma_digits_end_is(s, p + 1, len);
        }
    } else {
        if a == len {
            assert(s.subrange(0, len) =~= s);
        } else if s[a] == '.' && digits_end(s, a + 1) == len && len > 1 {
            assert(s[a] == '.' && all_digits(s.subrange(0, a)) && all_digits(
                s.subrange(a + 1, len),
            ));
        }
    }
}

/// Where the significand of a text would end: behind the first run of
/// digits, and behind the digits that follow a point there.
pub open spec fn significand_end(s: Seq<char>) -> int {
    let a = digits_end(s, 0);
    if a < s.len() && s[a] == '.' {
        digits_end(s, a + 1)
    } else {
        a
    }
}

proof fn lemma_significand_end(s: Seq<char>)
    ensures
        0 <= significand_end(s) <= s.len(),
        forall|i: int|
            0 <= i < significand_end(s) ==> is_digit(#[trigger] s[i]) || (s[i] == '.' && i
                == digits_end(s, 0)),
        significand_end(s) < s.len() ==> !is_digit(s[significand_end(s)]),
        significand_end(s) < s.len() && s[significand_end(s)] == '.' ==> digits_end(s, 0)
            < significand_end(s),
{
    let a = digits_end(s, 0);
    lemma_digits_end(s, 0);
    assert forall|i: int| 0 <= i < a implies is_digit(#[trigger] s[i]) by {
        assert(s.subrange(0, a)[i] == s[i]);
    }
    if a < s.len() && s[a] == '.' {
        lemma_digits_end(s, a + 1);
        let b = digits_end(s, a + 1);
        assert forall|i: int| a < i < b implies is_digit(#[trigger] s[i]) by {
            assert(s.subrange(a + 1, b)[i - a - 1] == s[i]);
        }
    }
}

/// Whether a text is a finite number is settled by where its significand
/// would end and by what follows there.
proof fn lemma_finite_number(s: Seq<char>)
    ensures
        is_finite_number(s) <==> {
            let b = significand_end(s);
            is_significand(s.subrange(0, b)) && (b == s.len() || is_exponent(
                s.subrange(b, s.len() as int),
            ))
        },
{
    let len = s.len() as int;
    let a = digits_end(s, 0);
    let b = significand_end(s);
    lemma_digits_end(s, 0);
    lemma_significand_end(s);
    if is_significand(s) {
        lemma_significand(s);
        assert(b == len);
        assert(s.subrange(0, b) =~= s);
    } else if is_finite_number(s) {
        let e = choose|e: int|
            0 <= e < s.len() && is_significand(#[trigger] s.subrange(0, e)) && is_exponent(
                s.subrange(e, s.len() as int),
            );
        let head = s.subrange(0, e);
        assert(s.subrange(e, len)[0] == s[e]);
        assert(!is_digit(s[e]) && s[e] != '.');
        lemma_significand(head);
        lemma_digits_end(head, 0);
        let ha = digits_end(head, 0);
        assert(head.subrange(0, ha) =~= s.subrange(0, ha));
        if ha == e {
            lemma_digits_end_is(s, 0, e);
            assert(b == e);
        } else {
            assert(head[ha] == s[ha]);
            lemma_digits_end_is(s, 0, ha);
            lemma_digits_end(head, ha + 1);
            assert(head.subrange(ha + 1, e) =~= s.subrange(ha + 1, e));
            lemma_digits_end_is(s, ha + 1, e);
            assert(b == e);
        }
    }
    if is_significand(s.subrange(0, b)) && (b == len || is_exponent(s.subrange(b, len))) {
        if b == len {
            assert(s.subrange(0, b) =~= s);
        } else {
            assert(s.subrange(b, len).len() > 0);
        }
    }
}

/// What stands before the place where the significand would end is a
/// significand as soon as it holds a digit.
proof fn lemma_significand_prefix(s: Seq<char>)
    ensures
        is_significand(s.subrange(0, significand_end(s))) <==> {
            let a = digits_end(s, 0);
            if a < s.len() && s[a] == '.' {
                significand_end(s) > 1
            } else {
                a > 0
            }
        },
{
    let a = digits_end(s, 0);
    let b = significand_end(s);
    let head = s.subrange(0, b);
    lemma_digits_end(s, 0);
    lemma_significand_end(s);
    lemma_significand(head);
    if a < s.len() && s[a] == '.' {
        lemma_digits_end(s, a + 1);
        assert(head.subrange(0, a) =~= s.subrange(0, a));
        assert(head[a] == s[a]);
        lemma_digits_end_is(head, 0, a);
        assert(head.subrange(a + 1, b) =~= s.subrange(a + 1, b));
        lemma_digits_end_is(head, a + 1, b);
    } else {
        assert(head =~= s.subrange(0, a));
        lemma_digits_end_is(head, 0, a);
    }
}

/// An exponent is settled by the run of digits behind its letter and sign.
proof fn lemma_exponent(s: Seq<char>)
    ensures
        is_exponent(s) <==> {
            &&& s.len() > 0
            &&& s[0] == 'e' || s[0] == 'E'
            &&& {
                let from = if s.len() > 1 && is_sign(s[1]) {
                    2int
                } else {
                    1int
                };
                from < s.len() && digits_end(s, from) == s.len()
            }
        },
{
    if s.len() > 0 {
        let from = if s.len() > 1 && is_sign(s[1]) {
            2int
        } else {
            1int
        };
        if from < s.len() {
            lemma_digits_end(s, from);
            if all_digits(s.subrange(from, s.len() as int)) {
                lemma_digits_end_is(s, from, s.len() as int);
            }
        }
    }
}

/// No special word is a finite number, and no finite number holds a
/// character outside the digits, the point, the signs and the letter `e`.
proof fn lemma_decimal_is_ascii(s: Seq<char>)
    requires
        is_decimal(s),
    ensures
        vstd::utf8::is_ascii_chars(s),
{
    let body = unsigned(s);
    let shift = s.len() - body.len();
    assert forall|i: int| 0 <= i < body.len() implies '\0' <= (#[trigger] body[i]) <= '\u{7f}' by {
        if is_special(body) {
        } else {
            lemma_finite_number(body);
            lemma_significand_end(body);
            let b = significand_end(body);
            if i >= b {
                let tail = body.subrange(b, body.len() as int);
                assert(tail[i - b] == body[i]);
                let from = if tail.len() > 1 && is_sign(tail[1]) {
                    2int
                } else {
                    1int
                };
                if i - b >= from {
                    assert(tail.subrange(from, tail.len() as int)[i - b - from] == body[i]);
                }
            }
        }
    }
    assert forall|i: int| 0 <= i < s.len() implies '\0' <= (#[trigger] s[i]) <= '\u{7f}' by {
        if i >= shift {
            assert(body[i - shift] == s[i]);
        }
    }
}

/// Whether the character at `at` is a digit.
fn digit_at(text: &str, at: usize) -> (r: bool)
    requires
        text.is_ascii(),
        at < text@.len(),
    ensures
        r == is_digit(text@[at as int]),
{
    let c = text.get_ascii(at);
    48 <= c && c <= 57
}

/// Whether the character at `at` is a sign.
fn sign_at(text: &str, at: usize) -> (r: bool)
    requires
        text.is_ascii(),
        at < text@.len(),
    ensures
        r == is_sign(text@[at as int]),
{
    let c = text.get_ascii(at);
    c == 43 || c == 45
}

/// Whether the character at `at` is one of two ASCII characters.
fn letter_at(text: &str, at: usize, lower: char, upper: char) -> (r: bool)
    requires
        text.is_ascii(),
        at < text@.len(),
        lower <= '\u{7f}',
        upper <= '\u{7f}',
    ensures
        r == either(text@[at as int], lower, upper),
{
    let c = text.get_ascii(at);
    c == lower as u8 || c == upper as u8
}

/// Where the run of digits that begins at `from` ends.
fn digits_until(text: &str, from: usize, len: usize) -> (to: usize)
    requires
        text.is_ascii(),
        from <= len == text@.len(),
    ensures
        to == digits_end(text@, from as int),
        from <= to <= len,
{
    let mut to = from;
    while to < len && digit_at(text, to)
        invariant
            text.is_ascii(),
            from <= to <= len == text@.len(),
            digits_end(text@, from as int) == digits_end(text@, to as int),
        decreases len - to,
    {
        to += 1;
    }
    to
}

/// Whether an ASCII text is one of the special words.
fn is_special_word(text: &str, len: usize) -> (r: bool)
    requires
        text.is_ascii(),
        len == text@.len(),
    ensures
        r == is_special(text@),
{
    if len == 3 {
        let inf = letter_at(text, 0, 'i', 'I') && letter_at(text, 1, 'n', 'N') && letter_at(
            text,
            2,
            'f',
            'F',
        );
        let nan = letter_at(text, 0, 'n', 'N') && letter_at(text, 1, 'a', 'A') && letter_at(
            text,
            2,
            'n',
            'N',
        );
        inf || nan
    } else if len == 8 {
        letter_at(text, 0, 'i', 'I') && letter_at(text, 1, 'n', 'N') && letter_at(text, 2, 'f', 'F')
            && letter_at(text, 3, 'i', 'I') && letter_at(text, 4, 'n', 'N') && letter_at(
            text,
            5,
            'i',
            'I',
        ) && letter_at(text, 6, 't', 'T') && letter_at(text, 7, 'y', 'Y')
    } else {
        false
    }
}

/// Whether an ASCII text is an exponent.
fn is_exponent_text(text: &str, len: usize) -> (r: bool)
    requires
        text.is_ascii(),
        len == text@.len(),
    ensures
        r == is_exponent(text@),
{
    proof {
        lemma_exponent(text@);
    }
    if len == 0 || !letter_at(text, 0, 'e', 'E') {
        return false;
    }
    let from: usize = if len > 1 && sign_at(text, 1) {
        2
    } else {
        1
    };
    from < len && digits_until(text, from, len) == len
}

/// Whether a text is written as a decimal number.
pub fn is_decimal_text(text: &str) -> (r: bool)
    ensures
        r == is_decimal(text@),
{
    if !text.is_ascii() {
        proof {
            if is_decimal(text@) {
                lemma_decimal_is_ascii(text@);
            }
        }
        return false;
    }
    let len = text.unicode_len();
    let start: usize = if len > 0 && sign_at(text, 0) {
        1
    } else {
        0
    };
    let body = text.substring_ascii(start, len);
    let n = len - start;
    assert(body@ =~= unsigned(text@));
    if is_special_word(body, n) {
        return true;
    }
    proof {
        lemma_finite_number(body@);
        lemma_significand_prefix(body@);
    }
    let a = digits_until(body, 0, n);
    let point = a < n && letter_at(body, a, '.', '.');
    let b = if point {
        digits_until(body, a + 1, n)
    } else {
        a
    };
    let digits = if point {
        b > 1
    } else {
        a > 0
    };
    if !digits {
        return false;
    }
    if b == n {
        return true;
    }
    let tail = body.substring_ascii(b, n);
    is_exponent_text(tail, n - b)
}

} // verus!
