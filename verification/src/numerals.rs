//! Numbers written out in text.

use vstd::prelude::*;
use vstd::string::*;

use crate::text::decimal;

verus! {

/// A decimal digit.
pub open spec fn is_digit(c: char) -> bool {
    '0' <= c && c <= '9'
}

/// Only digits.
pub open spec fn all_digits(s: Seq<char>) -> bool {
    forall|i: int| 0 <= i < s.len() ==> is_digit(#[trigger] s[i])
}

/// The number that a row of digits stands for.
pub open spec fn digits_value(s: Seq<char>) -> int
    decreases s.len(),
{
    if s.len() == 0 {
        0
    } else {
        digits_value(s.drop_last()) * 10 + (s.last() as int - '0' as int)
    }
}

/// A text without a leading plus sign.
pub open spec fn unsigned_part(s: Seq<char>) -> Seq<char> {
    if s.len() > 0 && s[0] == '+' {
        s.skip(1)
    } else {
        s
    }
}

/// The number that a text stands for: digits, behind an optional plus sign,
/// that make up a number of the machine.
pub open spec fn parsed(s: Seq<char>) -> Option<usize> {
    let digits = unsigned_part(s);
    if digits.len() > 0 && all_digits(digits) && digits_value(digits) <= usize::MAX {
        Some(digits_value(digits) as usize)
    } else {
        None
    }
}

/// White space.
pub open spec fn is_space(c: char) -> bool {
    let n = c as int;
    ||| 0x9 <= n <= 0xd
    ||| n == 0x20
    ||| n == 0x85
    ||| n == 0xa0
    ||| n == 0x1680
    ||| 0x2000 <= n <= 0x200a
    ||| n == 0x2028
    ||| n == 0x2029
    ||| n == 0x202f
    ||| n == 0x205f
    ||| n == 0x3000
}

/// A text without the white space in front.
pub open spec fn trimmed_front(s: Seq<char>) -> Seq<char>
    decreases s.len(),
{
    if s.len() > 0 && is_space(s[0]) {
        trimmed_front(s.skip(1))
    } else {
        s
    }
}

/// A text without the white space behind.
pub open spec fn trimmed_back(s: Seq<char>) -> Seq<char>
    decreases s.len(),
{
    if s.len() > 0 && is_space(s.last()) {
        trimmed_back(s.drop_last())
    } else {
        s
    }
}

/// The number in one field of a list, if there is one.
pub open spec fn field_number(field: Seq<char>) -> Seq<usize> {
    match parsed(trimmed_back(trimmed_front(field))) {
        Some(n) => seq![n],
        None => Seq::empty(),
    }
}

/// The numbers in a list with commas between its fields; fields that hold no
/// number are passed over. `open` is the field that has been begun.
pub open spec fn listed_numbers(open: Seq<char>, rest: Seq<char>) -> Seq<usize>
    decreases rest.len(),
{
    if rest.len() == 0 {
        field_number(open)
    } else if rest[0] == ',' {
        field_number(open) + listed_numbers(Seq::empty(), rest.skip(1))
    } else {
        listed_numbers(open.push(rest[0]), rest.skip(1))
    }
}

/// The characters of a text.
pub fn characters(text: &str) -> (chars: Vec<char>)
    ensures
        chars@ == text@,
{
    let len: usize = text.unicode_len();
    let mut chars: Vec<char> = Vec::new();
    let mut i: usize = 0;
    while i < len
        invariant
            len == text@.len(),
            i <= len,
            chars@ == text@.take(i as int),
        decreases len - i,
    {
        chars.push(text.get_char(i));
        i = i + 1;
        assert(chars@ =~= text@.take(i as int));
    }
    assert(text@.take(len as int) =~= text@);
    chars
}

/// Whether a character is white space.
fn space(c: char) -> (yes: bool)
    ensures
        yes == is_space(c),
{
    let n: u32 = c as u32;
    (0x9 <= n && n <= 0xd) || n == 0x20 || n == 0x85 || n == 0xa0 || n == 0x1680 || (0x2000 <= n
        && n <= 0x200a) || n == 0x2028 || n == 0x2029 || n == 0x202f || n == 0x205f || n == 0x3000
}

/// A row of digits is worth at least as much as each beginning of it.
proof fn lemma_digits_grow(s: Seq<char>, i: int)
    requires
        all_digits(s),
        0 <= i <= s.len(),
    ensures
        0 <= digits_value(s.take(i)) <= digits_value(s),
    decreases s.len() - i, s.len(),
{
    if i < s.len() {
        lemma_digits_grow(s, i + 1);
        assert(s.take(i + 1).drop_last() =~= s.take(i));
        lemma_digits_nonnegative(s.take(i));
        assert(is_digit(s[i]));
    } else {
        assert(s.take(i) =~= s);
        lemma_digits_nonnegative(s);
    }
}

/// A row of digits is worth nothing negative.
proof fn lemma_digits_nonnegative(s: Seq<char>)
    requires
        all_digits(s),
    ensures
        digits_value(s) >= 0,
    decreases s.len(),
{
    if s.len() > 0 {
        assert(all_digits(s.drop_last())) by {
            assert forall|i: int| 0 <= i < s.drop_last().len() implies is_digit(
                #[trigger] s.drop_last()[i],
            ) by {
                assert(is_digit(s[i]));
            }
        }
        lemma_digits_nonnegative(s.drop_last());
        assert(is_digit(s.last()));
    }
}

/// Reads the number that `chars[from..to]` stands for.
fn parse_range(chars: &Vec<char>, from: usize, to: usize) -> (n: Option<usize>)
    requires
        from <= to <= chars@.len(),
    ensures
        n == parsed(chars@.subrange(from as int, to as int)),
{
    let ghost s = chars@.subrange(from as int, to as int);
    let start: usize = if from < to && chars[from] == '+' {
        from + 1
    } else {
        from
    };
    let ghost digits = unsigned_part(s);
    assert(digits =~= chars@.subrange(start as int, to as int));
    if start == to {
        return None;
    }
    let mut value: usize = 0;
    let mut i: usize = start;
    assert(digits.take(0) =~= Seq::empty());
    while i < to
        invariant
            start <= i <= to,
            to <= chars@.len(),
            start < to,
            digits == chars@.subrange(start as int, to as int),
            digits == unsigned_part(s),
            s == chars@.subrange(from as int, to as int),
            value == digits_value(digits.take(i - start)),
            forall|j: int| 0 <= j < i - start ==> is_digit(#[trigger] digits[j]),
        decreases to - i,
    {
        let c: char = chars[i];
        assert(c == digits[i - start]);
        if !('0' <= c && c <= '9') {
            assert(!is_digit(digits[i - start]));
            return None;
        }
        let d: usize = c as usize - '0' as usize;
        proof {
            assert(digits.take(i - start + 1).drop_last() =~= digits.take(i - start));
            if all_digits(digits) {
                lemma_digits_grow(digits, i - start + 1);
            }
        }
        match value.checked_mul(10) {
            Some(ten) => match ten.checked_add(d) {
                Some(sum) => {
                    value = sum;
                },
                None => {
                    return None;
                },
            },
            None => {
                return None;
            },
        }
        i = i + 1;
    }
    assert(digits.take(to - start) =~= digits);
    assert(all_digits(digits));
    Some(value)
}

/// Reads a number: digits behind an optional plus sign.
pub fn parse_number(text: &str) -> (n: Option<usize>)
    ensures
        n == parsed(text@),
{
    let chars: Vec<char> = characters(text);
    assert(chars@.subrange(0, chars@.len() as int) =~= text@);
    parse_range(&chars, 0, chars.len())
}

/// Trimming the front stops at the first character that is no white space.
proof fn lemma_trimmed_front(s: Seq<char>, i: int)
    requires
        0 <= i <= s.len(),
        forall|j: int| 0 <= j < i ==> is_space(#[trigger] s[j]),
        i < s.len() ==> !is_space(s[i]),
    ensures
        trimmed_front(s) == s.skip(i),
    decreases i,
{
    if i > 0 {
        assert(is_space(s[0]));
        let t = s.skip(1);
        assert forall|j: int| 0 <= j < i - 1 implies is_space(#[trigger] t[j]) by {
            assert(is_space(s[j + 1]));
        }
        lemma_trimmed_front(t, i - 1);
        assert(t.skip(i - 1) =~= s.skip(i));
    } else {
        assert(s.skip(0) =~= s);
    }
}

/// Trimming the back stops at the last character that is no white space.
proof fn lemma_trimmed_back(s: Seq<char>, i: int)
    requires
        0 <= i <= s.len(),
        forall|j: int| i <= j < s.len() ==> is_space(#[trigger] s[j]),
        i > 0 ==> !is_space(s[i - 1]),
    ensures
        trimmed_back(s) == s.take(i),
    decreases s.len() - i,
{
    if i < s.len() {
        assert(is_space(s.last()));
        let t = s.drop_last();
        assert forall|j: int| i <= j < t.len() implies is_space(#[trigger] t[j]) by {
            assert(is_space(s[j]));
        }
        lemma_trimmed_back(t, i);
        assert(t.take(i) =~= s.take(i));
    } else {
        assert(s.take(i) =~= s);
    }
}

/// Reads the number in the field `chars[from..to]`, without the white space
/// around it.
fn parse_field(chars: &Vec<char>, from: usize, to: usize) -> (n: Option<usize>)
    requires
        from <= to <= chars@.len(),
    ensures
        n == parsed(trimmed_back(trimmed_front(chars@.subrange(from as int, to as int)))),
{
    let ghost field = chars@.subrange(from as int, to as int);
    let mut a: usize = from;
    while a < to && space(chars[a])
        invariant
            from <= a <= to,
            to <= chars@.len(),
            field == chars@.subrange(from as int, to as int),
            forall|j: int| 0 <= j < a - from ==> is_space(#[trigger] field[j]),
        decreases to - a,
    {
        a = a + 1;
    }
    proof {
        assert(a < to ==> field[a - from] == chars@[a as int]);
        lemma_trimmed_front(field, a - from);
    }
    let ghost front = chars@.subrange(a as int, to as int);
    assert(front =~= field.skip(a - from));
    let mut b: usize = to;
    while b > a && space(chars[b - 1])
        invariant
            a <= b <= to,
            to <= chars@.len(),
            front == chars@.subrange(a as int, to as int),
            forall|j: int| b - a <= j < to - a ==> is_space(#[trigger] front[j]),
        decreases b,
    {
        b = b - 1;
    }
    proof {
        assert(b > a ==> front[b - a - 1] == chars@[b - 1]);
        lemma_trimmed_back(front, b - a);
        assert(front.take(b - a) =~= chars@.subrange(a as int, b as int));
    }
    parse_range(chars, a, b)
}

/// Reads the numbers in a list with commas between its fields.
pub fn parse_list(text: &str) -> (numbers: Vec<usize>)
    ensures
        numbers@ == listed_numbers(Seq::empty(), text@),
{
    let chars: Vec<char> = characters(text);
    let mut numbers: Vec<usize> = Vec::new();
    let mut from: usize = 0;
    let mut i: usize = 0;
    let ghost all = listed_numbers(Seq::empty(), text@);
    proof {
        assert(chars@.subrange(0, 0) =~= Seq::empty());
        assert(chars@.skip(0) =~= text@);
    }
    while i < chars.len()
        invariant
            from <= i <= chars@.len(),
            all == numbers@ + listed_numbers(
                chars@.subrange(from as int, i as int),
                chars@.skip(i as int),
            ),
        decreases chars@.len() - i,
    {
        let ghost open = chars@.subrange(from as int, i as int);
        let ghost rest = chars@.skip(i as int);
        let ghost before = numbers@;
        assert(rest[0] == chars@[i as int]);
        assert(rest.skip(1) =~= chars@.skip(i + 1));
        if chars[i] == ',' {
            match parse_field(&chars, from, i) {
                Some(n) => {
                    numbers.push(n);
                },
                None => {},
            }
            from = i + 1;
            proof {
                assert(numbers@ =~= before + field_number(open));
                assert(chars@.subrange(from as int, i + 1) =~= Seq::empty());
                assert(all =~= numbers@ + listed_numbers(Seq::empty(), rest.skip(1)));
            }
        } else {
            assert(chars@.subrange(from as int, i + 1) =~= open.push(rest[0]));
        }
        i = i + 1;
    }
    let ghost before = numbers@;
    match parse_field(&chars, from, i) {
        Some(n) => {
            numbers.push(n);
        },
        None => {},
    }
    assert(numbers@ =~= before + field_number(chars@.subrange(from as int, i as int)));
    numbers
}

/// Decimal notation goes by tens: a number below ten is one digit, and one more
/// digit behind a number stands for ten times the number and the digit.
pub proof fn law_decimal_goes_by_tens(n: int, d: int)
    requires
        0 <= n,
        0 <= d < 10,
    ensures
        decimal(d).len() == 1,
        decimal(d)[0] as int == '0' as int + d,
        n > 0 ==> decimal(10 * n + d) == decimal(n) + decimal(d),
{
    if n > 0 {
        assert((10 * n + d) / 10 == n && (10 * n + d) % 10 == d);
        assert(decimal(10 * n + d) =~= decimal(n) + decimal(d));
    }
}

/// A number written in decimal notation is digits only, has no zero in front but
/// for zero itself, and reads back as the number.
pub proof fn law_decimal_reads_back(n: int)
    requires
        0 <= n,
    ensures
        decimal(n).len() > 0,
        forall|i: int| 0 <= i < decimal(n).len() ==> '0' <= #[trigger] decimal(n)[i] <= '9',
        n > 0 ==> decimal(n)[0] != '0',
        digits_value(decimal(n)) == n,
        n <= usize::MAX ==> parsed(decimal(n)) == Some(n as usize),
    decreases n,
{
    let s = decimal(n);
    if n < 10 {
        assert(s.drop_last() =~= Seq::empty());
        assert(digits_value(s.drop_last()) == 0);
    } else {
        law_decimal_reads_back(n / 10);
        assert(s.drop_last() =~= decimal(n / 10));
        assert forall|i: int| 0 <= i < s.len() implies '0' <= #[trigger] s[i] <= '9' by {
            if i < s.len() - 1 {
                assert(s[i] == decimal(n / 10)[i]);
            }
        }
        assert(s[0] == decimal(n / 10)[0]);
    }
    assert(is_digit(s[0]));
    assert(unsigned_part(s) == s);
    assert forall|i: int| 0 <= i < s.len() implies is_digit(#[trigger] s[i]) by {
        assert('0' <= s[i] <= '9');
    }
}

/// Different numbers are written differently, so no two layers share a name.
pub proof fn law_decimals_differ(a: int, b: int)
    requires
        0 <= a,
        0 <= b,
    ensures
        decimal(a) == decimal(b) <==> a == b,
{
    law_decimal_reads_back(a);
    law_decimal_reads_back(b);
}

/// A number is read from digits only, at least one, with at most one plus sign in
/// front; and it is the number that the digits make up, or none where the machine
/// has no such number.
pub proof fn law_numbers_are_read_from_digits(s: Seq<char>, i: int)
    requires
        0 <= i < s.len(),
    ensures
        !('0' <= s[i] <= '9') && (i > 0 || s[i] != '+') ==> parsed(s) is None,
        s[0] != '+' ==> parsed(seq!['+'] + s) == parsed(s),
        parsed(Seq::<char>::empty()) is None,
        parsed(seq!['+']) is None,
        '0' <= s[0] <= '9' && parsed(s) is Some ==> parsed(s)->0 == digits_value(s),
{
    let digits = unsigned_part(s);
    if !('0' <= s[i] <= '9') && (i > 0 || s[i] != '+') && digits.len() > 0 {
        let at = if s[0] == '+' {
            i - 1
        } else {
            i
        };
        assert(digits[at] == s[i]);
        assert(!is_digit(digits[at]));
    }
    if s[0] != '+' {
        assert((seq!['+'] + s).skip(1) =~= s);
    }
    assert(seq!['+'].skip(1) =~= Seq::empty());
    if '0' <= s[0] <= '9' && parsed(s) is Some {
        lemma_digits_nonnegative(s);
    }
}

/// A digit behind a row of digits makes it ten times as much and the digit.
pub proof fn law_digits_go_by_tens(s: Seq<char>, c: char)
    ensures
        digits_value(s.push(c)) == 10 * digits_value(s) + (c as int - '0' as int),
        digits_value(Seq::<char>::empty()) == 0,
{
    assert(s.push(c).drop_last() =~= s);
}

/// Trimming the front takes away white space alone, and all of it that stands
/// there.
pub proof fn law_front_is_trimmed(s: Seq<char>)
    ensures
        trimmed_front(s).len() <= s.len(),
        trimmed_front(s) == s.skip(s.len() - trimmed_front(s).len()),
        forall|j: int|
            0 <= j < s.len() - trimmed_front(s).len() ==> is_space(#[trigger] s[j]),
        trimmed_front(s).len() > 0 ==> !is_space(trimmed_front(s)[0]),
    decreases s.len(),
{
    if s.len() > 0 && is_space(s[0]) {
        let t = s.skip(1);
        law_front_is_trimmed(t);
        let k = t.len() - trimmed_front(t).len();
        assert(s.skip(k + 1) =~= t.skip(k));
        assert forall|j: int| 0 <= j < k + 1 implies is_space(#[trigger] s[j]) by {
            if j > 0 {
                assert(is_space(t[j - 1]));
            }
        }
    } else {
        assert(s.skip(0) =~= s);
    }
}

/// Trimming the back takes away white space alone, and all of it that stands
/// there.
pub proof fn law_back_is_trimmed(s: Seq<char>)
    ensures
        trimmed_back(s).len() <= s.len(),
        trimmed_back(s) == s.take(trimmed_back(s).len() as int),
        forall|j: int| trimmed_back(s).len() <= j < s.len() ==> is_space(#[trigger] s[j]),
        trimmed_back(s).len() > 0 ==> !is_space(trimmed_back(s).last()),
    decreases s.len(),
{
    if s.len() > 0 && is_space(s.last()) {
        let t = s.drop_last();
        law_back_is_trimmed(t);
        let k = trimmed_back(t).len() as int;
        assert(s.take(k) =~= t.take(k));
        assert forall|j: int| k <= j < s.len() implies is_space(#[trigger] s[j]) by {
            if j < t.len() {
                assert(is_space(t[j]));
            }
        }
    } else {
        assert(s.take(s.len() as int) =~= s);
    }
}

/// Blanks, tabs and line ends are white space; what numbers and lists are written
/// with is not.
pub proof fn law_white_space(c: char)
    ensures
        c == ' ' || c == '\t' || c == '\n' || c == '\r' ==> is_space(c),
        '!' <= c <= '~' ==> !is_space(c),
{
}

/// A list is read field by field, each up to the next comma; a field without a
/// number adds nothing.
pub proof fn law_lists_are_read_by_fields(open: Seq<char>, field: Seq<char>, rest: Seq<char>)
    requires
        forall|i: int| 0 <= i < field.len() ==> #[trigger] field[i] != ',',
    ensures
        listed_numbers(open, field) == field_number(open + field),
        listed_numbers(open, field + seq![','] + rest) == field_number(open + field)
            + listed_numbers(Seq::empty(), rest),
        parsed(trimmed_back(trimmed_front(field))) matches Some(n) ==> field_number(field)
            == seq![n],
        parsed(trimmed_back(trimmed_front(field))) is None ==> field_number(field).len() == 0,
    decreases field.len(),
{
    let all = field + seq![','] + rest;
    if field.len() == 0 {
        assert(open + field =~= open);
        assert(all.skip(1) =~= rest);
    } else {
        let less = field.skip(1);
        assert forall|i: int| 0 <= i < less.len() implies #[trigger] less[i] != ',' by {
            assert(field[i + 1] != ',');
        }
        law_lists_are_read_by_fields(open.push(field[0]), less, rest);
        assert(all.skip(1) =~= less + seq![','] + rest);
        assert(all[0] == field[0] && field[0] != ',');
        assert(open.push(field[0]) + less =~= open + field);
    }
}

} // verus!
