//! Text as sequences of characters: the few operations on `str` and `char` that the
//! rest of the library needs, each with a contract over `Seq<char>`.
use vstd::prelude::*;

verus! {

/// The characters of Unicode's `White_Space` property.
pub open spec fn is_white_space(c: char) -> bool {
    let n = c as u32;
    ||| 0x9 <= n <= 0xD
    ||| n == 0x20
    ||| n == 0x85
    ||| n == 0xA0
    ||| n == 0x1680
    ||| 0x2000 <= n <= 0x200A
    ||| n == 0x2028
    ||| n == 0x2029
    ||| n == 0x202F
    ||| n == 0x205F
    ||| n == 0x3000
}

pub open spec fn is_ascii_alphanumeric(c: char) -> bool {
    let n = c as u32;
    ||| 0x30 <= n <= 0x39
    ||| 0x41 <= n <= 0x5A
    ||| 0x61 <= n <= 0x7A
}

/// The small letter for an ASCII capital, and any other character itself.
pub open spec fn ascii_lowercase(c: char) -> char {
    let n = c as u32;
    if 0x41 <= n <= 0x5A {
        (n + 0x20) as char
    } else {
        c
    }
}

/// Whether a character outside ASCII is alphanumeric in Unicode's tables.
pub uninterp spec fn unicode_alphanumeric(c: char) -> bool;

/// The lowercase mapping of a character outside ASCII in Unicode's tables.
pub uninterp spec fn unicode_lowercase(c: char) -> Seq<char>;

pub open spec fn is_alphanumeric(c: char) -> bool {
    if (c as u32) < 128 {
        is_ascii_alphanumeric(c)
    } else {
        unicode_alphanumeric(c)
    }
}

pub open spec fn lowercase(c: char) -> Seq<char> {
    if (c as u32) < 128 {
        seq![ascii_lowercase(c)]
    } else {
        unicode_lowercase(c)
    }
}

/// `char::is_alphanumeric`: on ASCII the letters and the digits; elsewhere what
/// Unicode's tables say.
#[verifier::external_body]
pub(crate) fn char_is_alphanumeric(c: char) -> (result: bool)
    ensures
        result == (if (c as u32) < 128 {
            is_ascii_alphanumeric(c)
        } else {
            unicode_alphanumeric(c)
        }),
{
    c.is_alphanumeric()
}

/// `char::to_lowercase`: on ASCII one character, the small letter for a capital;
/// elsewhere the mapping in Unicode's tables, which may be several characters.
#[verifier::external_body]
pub(crate) fn char_to_lowercase(c: char) -> (result: Vec<char>)
    ensures
        result@ == (if (c as u32) < 128 {
            seq![ascii_lowercase(c)]
        } else {
            unicode_lowercase(c)
        }),
{
    c.to_lowercase().collect()
}

/// `String::push`: the character goes to the end.
pub assume_specification[ String::push ](text: &mut String, c: char)
    ensures
        final(text)@ == old(text)@.push(c),
;

/// `==` on `str`: the same characters in the same order.
#[verifier::external_body]
pub(crate) fn same_text(left: &str, right: &str) -> (result: bool)
    ensures
        result == (left@ == right@),
{
    left == right
}

/// `str::starts_with` on a `str` pattern.
#[verifier::external_body]
pub(crate) fn starts_with(text: &str, prefix: &str) -> (result: bool)
    ensures
        result == prefix@.is_prefix_of(text@),
{
    text.starts_with(prefix)
}

/// `text` without the white space it starts with.
pub open spec fn trim_start(text: Seq<char>) -> Seq<char>
    decreases text.len(),
{
    if text.len() > 0 && is_white_space(text[0]) {
        trim_start(text.drop_first())
    } else {
        text
    }
}

/// `text` without the white space it ends with.
pub open spec fn trim_end(text: Seq<char>) -> Seq<char>
    decreases text.len(),
{
    if text.len() > 0 && is_white_space(text.last()) {
        trim_end(text.drop_last())
    } else {
        text
    }
}

pub open spec fn trimmed(text: Seq<char>) -> Seq<char> {
    trim_end(trim_start(text))
}

/// `str::trim`: the text without the white space at either end, where white space is
/// Unicode's `White_Space`.
#[verifier::external_body]
pub(crate) fn trim(text: &str) -> (result: &str)
    ensures
        result@ == trimmed(text@),
{
    text.trim()
}

/// The characters of a text, as a vector.
pub(crate) fn chars_of(text: &str) -> (chars: Vec<char>)
    ensures
        chars@ == text@,
{
    let mut chars: Vec<char> = Vec::new();
    for c in it: text.chars()
        invariant
            it.seq() == text@,
            chars@ == it.seq().take(it.index()),
    {
        chars.push(c);
    }
    chars
}

/// The text made of `chars[from..to]`.
pub(crate) fn text_of(chars: &Vec<char>, from: usize, to: usize) -> (text: String)
    requires
        from <= to <= chars@.len(),
    ensures
        text@ == chars@.subrange(from as int, to as int),
{
    let mut text = String::new();
    let mut i: usize = from;
    while i < to
        invariant
            from <= i <= to <= chars@.len(),
            text@ == chars@.subrange(from as int, i as int),
        decreases to - i,
    {
        text.push(chars[i]);
        i = i + 1;
    }
    text
}

fn white_space(c: char) -> (result: bool)
    ensures
        result == is_white_space(c),
{
    let n: u32 = c as u32;
    (n >= 0x9 && n <= 0xD) || n == 0x20 || n == 0x85 || n == 0xA0 || n == 0x1680 || (n >= 0x2000
        && n <= 0x200A) || n == 0x2028 || n == 0x2029 || n == 0x202F || n == 0x205F || n == 0x3000
}

/// Where the text behind the white space at `from` begins.
pub(crate) fn skip_white_space(chars: &Vec<char>, from: usize) -> (start: usize)
    requires
        from <= chars@.len(),
    ensures
        from <= start <= chars@.len(),
        chars@.skip(start as int) == trim_start(chars@.skip(from as int)),
{
    let mut start: usize = from;
    while start < chars.len() && white_space(chars[start])
        invariant
            from <= start <= chars@.len(),
            trim_start(chars@.skip(start as int)) == trim_start(chars@.skip(from as int)),
        decreases chars@.len() - start,
    {
        assert(chars@.skip(start as int).drop_first() =~= chars@.skip(start + 1));
        start = start + 1;
    }
    start
}

/// Whether `pattern` stands in `text` at a position.
pub open spec fn stands_at(text: Seq<char>, pattern: Seq<char>, at: int) -> bool {
    0 <= at && at + pattern.len() <= text.len() && text.subrange(at, at + pattern.len()) == pattern
}

/// The first place at which `pattern` stands in `text`.
pub(crate) fn find(text: &Vec<char>, pattern: &Vec<char>) -> (found: Option<usize>)
    ensures
        match found {
            Some(at) => stands_at(text@, pattern@, at as int) && forall|k: int|
                0 <= k < at ==> !stands_at(text@, pattern@, k),
            None => forall|k: int| !stands_at(text@, pattern@, k),
        },
{
    if text.len() < pattern.len() {
        return None;
    }
    let length: usize = text.len();
    let last: usize = length - pattern.len();
    let mut at: usize = 0;
    while at <= last
        invariant
            last + pattern@.len() == text@.len(),
            length == text@.len(),
            at <= last + 1,
            forall|k: int| 0 <= k < at ==> !stands_at(text@, pattern@, k),
        decreases last + 1 - at,
    {
        let mut i: usize = 0;
        while i < pattern.len() && text[at + i] == pattern[i]
            invariant
                last + pattern@.len() == text@.len(),
                length == text@.len(),
                at <= last,
                i <= pattern@.len(),
                forall|k: int| 0 <= k < i ==> text@[at + k] == #[trigger] pattern@[k],
            decreases pattern@.len() - i,
        {
            i = i + 1;
        }
        if i == pattern.len() {
            assert(text@.subrange(at as int, at + pattern@.len()) =~= pattern@);
            return Some(at);
        }
        assert(!stands_at(text@, pattern@, at as int)) by {
            if stands_at(text@, pattern@, at as int) {
                assert(text@.subrange(at as int, at + pattern@.len())[i as int] == pattern@[i as int]);
            }
        }
        if at == last {
            return None;
        }
        at = at + 1;
    }
    None
}

pub open spec fn is_digit(c: char) -> bool {
    '0' <= c <= '9'
}

/// A run of one or more ASCII digits.
pub open spec fn is_decimal(text: Seq<char>) -> bool {
    &&& text.len() > 0
    &&& forall|i: int| 0 <= i < text.len() ==> is_digit(#[trigger] text[i])
}

/// The number that a run of digits stands for.
pub open spec fn decimal_value(text: Seq<char>) -> nat
    decreases text.len(),
{
    if text.len() == 0 {
        0
    } else {
        (10 * decimal_value(text.drop_last()) + (text.last() as int - '0' as int)) as nat
    }
}

proof fn lemma_decimal_value_grows(text: Seq<char>, cut: int)
    requires
        0 <= cut <= text.len(),
        forall|i: int| 0 <= i < text.len() ==> is_digit(#[trigger] text[i]),
    ensures
        decimal_value(text.take(cut)) <= decimal_value(text),
    decreases text.len(),
{
    if cut == text.len() {
        assert(text.take(cut) =~= text);
    } else {
        assert(text.drop_last().take(cut) =~= text.take(cut));
        assert(is_digit(text[text.len() - 1]));
        lemma_decimal_value_grows(text.drop_last(), cut);
    }
}

/// Reads `chars[from..to]` as a decimal number that fits in 64 bits.
pub(crate) fn parse_decimal(chars: &Vec<char>, from: usize, to: usize) -> (result: Option<u64>)
    requires
        from <= to <= chars@.len(),
    ensures
        ({
            let text = chars@.subrange(from as int, to as int);
            match result {
                Some(value) => is_decimal(text) && value == decimal_value(text),
                None => is_decimal(text) ==> decimal_value(text) > u64::MAX,
            }
        }),
{
    let ghost text = chars@.subrange(from as int, to as int);
    if from == to {
        return None;
    }
    let mut value: u64 = 0;
    let mut i: usize = from;
    while i < to
        invariant
            from <= i <= to <= chars@.len(),
            from < to,
            text == chars@.subrange(from as int, to as int),
            forall|k: int| 0 <= k < i - from ==> is_digit(#[trigger] text[k]),
            value == decimal_value(text.take(i - from)),
        decreases to - i,
    {
        let c = chars[i];
        assert(c == text[i - from]);
        if c < '0' || c > '9' {
            assert(!is_digit(text[i - from]));
            return None;
        }
        let digit: u64 = (c as u64) - 48;
        proof {
            assert(text.take(i + 1 - from).drop_last() =~= text.take(i - from));
            assert(text.take(i + 1 - from).last() == c);
            assert(decimal_value(text.take(i + 1 - from)) == 10 * value + digit);
            if is_decimal(text) {
                lemma_decimal_value_grows(text, i + 1 - from);
            }
        }
        if value > (u64::MAX - digit) / 10 {
            return None;
        }
        value = value * 10 + digit;
        i = i + 1;
    }
    assert(text.take(to - from) =~= text);
    Some(value)
}

/// The `i64` that a text is written as: digits, with an optional sign before them.
pub open spec fn signed_text(text: Seq<char>) -> Option<i64> {
    let negative = text.len() > 0 && text[0] == '-';
    let digits = if text.len() > 0 && (text[0] == '-' || text[0] == '+') {
        text.skip(1)
    } else {
        text
    };
    let value = if negative {
        -decimal_value(digits)
    } else {
        decimal_value(digits) as int
    };
    if is_decimal(digits) && i64::MIN <= value <= i64::MAX {
        Some(value as i64)
    } else {
        None
    }
}

/// Reads a text as an `i64`.
pub(crate) fn parse_signed(text: &str) -> (result: Option<i64>)
    ensures
        result == signed_text(text@),
{
    let chars = chars_of(text);
    let negative = chars.len() > 0 && chars[0] == '-';
    let from: usize = if chars.len() > 0 && (chars[0] == '-' || chars[0] == '+') {
        1
    } else {
        0
    };
    let ghost digits = chars@.subrange(from as int, chars@.len() as int);
    assert(from == 1 ==> digits =~= text@.skip(1));
    assert(from == 0 ==> digits =~= text@);
    match parse_decimal(&chars, from, chars.len()) {
        Some(value) => {
            if negative {
                if value < 0x8000_0000_0000_0000 {
                    Some(-(value as i64))
                } else if value == 0x8000_0000_0000_0000 {
                    Some(i64::MIN)
                } else {
                    None
                }
            } else if value < 0x8000_0000_0000_0000 {
                Some(value as i64)
            } else {
                None
            }
        },
        None => None,
    }
}

pub open spec fn text_option(text: Option<String>) -> Option<Seq<char>> {
    match text {
        Some(text) => Some(text@),
        None => None,
    }
}

pub(crate) fn same_option(left: &Option<String>, right: &Option<String>) -> (result: bool)
    ensures
        result == (text_option(*left) == text_option(*right)),
{
    match (left, right) {
        (Some(left), Some(right)) => same_text(left.as_str(), right.as_str()),
        (None, None) => true,
        _ => false,
    }
}

pub(crate) fn copy_option(text: &Option<String>) -> (copy: Option<String>)
    ensures
        text_option(copy) == text_option(*text),
{
    match text {
        Some(text) => Some(text.clone()),
        None => None,
    }
}

/// The order of texts by their characters: that of the first one in which they differ; a
/// text stands before every other that it begins.
pub open spec fn text_before(left: Seq<char>, right: Seq<char>) -> bool
    decreases left.len(),
{
    if right.len() == 0 {
        false
    } else if left.len() == 0 {
        true
    } else if left[0] != right[0] {
        left[0] < right[0]
    } else {
        text_before(left.drop_first(), right.drop_first())
    }
}

pub proof fn lemma_text_before_is_total(left: Seq<char>, right: Seq<char>)
    ensures
        left != right ==> text_before(left, right) || text_before(right, left),
        !(text_before(left, right) && text_before(right, left)),
        !text_before(left, left),
    decreases left.len(),
{
    if left.len() == 0 {
        if right.len() == 0 {
            assert(left =~= right);
        }
    } else {
        lemma_text_before_is_total(left.drop_first(), left.drop_first());
        if right.len() > 0 && left[0] == right[0] {
            lemma_text_before_is_total(left.drop_first(), right.drop_first());
            if left.drop_first() == right.drop_first() {
                assert(left =~= seq![left[0]] + left.drop_first());
                assert(right =~= seq![right[0]] + right.drop_first());
            }
        }
    }
}

pub proof fn lemma_text_before_is_transitive(a: Seq<char>, b: Seq<char>, c: Seq<char>)
    requires
        text_before(a, b),
        text_before(b, c),
    ensures
        text_before(a, c),
    decreases a.len(),
{
    if a.len() > 0 && a[0] == b[0] && b[0] == c[0] {
        lemma_text_before_is_transitive(a.drop_first(), b.drop_first(), c.drop_first());
    }
}

/// Whether one text stands before another in the order of their characters.
pub(crate) fn precedes(left: &str, right: &str) -> (result: bool)
    ensures
        result == text_before(left@, right@),
{
    let left_chars = chars_of(left);
    let right_chars = chars_of(right);
    let mut i: usize = 0;
    assert(left_chars@.skip(0) =~= left@);
    assert(right_chars@.skip(0) =~= right@);
    while i < left_chars.len() && i < right_chars.len()
        invariant
            i <= left_chars@.len(),
            i <= right_chars@.len(),
            text_before(left@, right@) == text_before(
                left_chars@.skip(i as int),
                right_chars@.skip(i as int),
            ),
        decreases left_chars@.len() - i,
    {
        if left_chars[i] != right_chars[i] {
            return left_chars[i] < right_chars[i];
        }
        assert(left_chars@.skip(i as int).drop_first() =~= left_chars@.skip(i + 1));
        assert(right_chars@.skip(i as int).drop_first() =~= right_chars@.skip(i + 1));
        i = i + 1;
    }
    i < right_chars.len()
}

/// One text behind the other.
pub(crate) fn joined(first: &str, second: &str) -> (text: String)
    ensures
        text@ == first@ + second@,
{
    let mut text = first.to_owned();
    text.append(second);
    text
}

/// The decimal digits of a number, without leading zeros.
pub open spec fn decimal_digits(n: nat) -> Seq<char>
    decreases n,
{
    let digit = (n % 10 + 48) as char;
    if n < 10 {
        seq![digit]
    } else {
        decimal_digits(n / 10).push(digit)
    }
}

fn digit_char(digit: u32) -> (c: char)
    requires
        digit < 10,
    ensures
        c == (digit + 48) as char,
{
    if digit == 0 {
        '0'
    } else if digit == 1 {
        '1'
    } else if digit == 2 {
        '2'
    } else if digit == 3 {
        '3'
    } else if digit == 4 {
        '4'
    } else if digit == 5 {
        '5'
    } else if digit == 6 {
        '6'
    } else if digit == 7 {
        '7'
    } else if digit == 8 {
        '8'
    } else {
        '9'
    }
}

/// A number in decimal digits.
pub(crate) fn decimal_text(n: u32) -> (text: String)
    ensures
        text@ == decimal_digits(n as nat),
    decreases n,
{
    let mut text = if n < 10 {
        String::new()
    } else {
        decimal_text(n / 10)
    };
    text.push(digit_char(n % 10));
    assert(n < 10 ==> text@ =~= decimal_digits(n as nat));
    text
}

} // verus!
