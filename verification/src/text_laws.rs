//! What holds of texts, of paths, of numbers and of settings.
use crate::double::Double;
use crate::paths::{components, is_within, named, pieces};
use crate::settings::{glyph_or, ClaudeSessionsSettings, DockSide, SettingsContent};
use crate::text::{
    ascii_lowercase, decimal_digits, decimal_value, is_white_space, stands_at, text_before, trim_end, trim_start,
    trimmed,
};
use vstd::prelude::*;

verus! {

/// The tabulators, the ends of lines and the spaces are white space, with those of other scripts;
/// no letter, digit or mark of ASCII is.
pub proof fn lemma_what_white_space_is(c: char)
    ensures
        c == ' ' || c == '\t' || c == '\n' || c == '\r' ==> is_white_space(c),
        0x9 <= (c as u32) <= 0xD ==> is_white_space(c),
        (c as u32) == 0x85 || (c as u32) == 0xA0 || (c as u32) == 0x3000 || (c as u32) == 0x1680
            || (c as u32) == 0x202F || (c as u32) == 0x205F ==> is_white_space(c),
        0x2000 <= (c as u32) <= 0x200A || 0x2028 <= (c as u32) <= 0x2029 ==> is_white_space(c),
        0x21 <= (c as u32) <= 0x84 ==> !is_white_space(c),
        (c as u32) < 0x9 || 0xE <= (c as u32) < 0x20 ==> !is_white_space(c),
        (c as u32) > 0x3000 ==> !is_white_space(c),
        0xA1 <= (c as u32) < 0x1680 ==> !is_white_space(c),
        0x200B <= (c as u32) < 0x2028 ==> !is_white_space(c),
{
}

proof fn lemma_start(text: Seq<char>, from: int)
    requires
        0 <= from <= text.len(),
        forall|k: int| 0 <= k < from ==> is_white_space(#[trigger] text[k]),
        from < text.len() ==> !is_white_space(text[from]),
    ensures
        trim_start(text) == text.skip(from),
    decreases text.len(),
{
    if from > 0 {
        assert(is_white_space(text[0]));
        let rest = text.drop_first();
        assert forall|k: int| 0 <= k < from - 1 implies is_white_space(#[trigger] rest[k]) by {
            assert(rest[k] == text[k + 1]);
        }
        lemma_start(rest, from - 1);
        assert(rest.skip(from - 1) =~= text.skip(from));
    } else {
        assert(text.skip(0) =~= text);
    }
}

proof fn lemma_end(text: Seq<char>, to: int)
    requires
        0 <= to <= text.len(),
        to > 0 ==> !is_white_space(text[to - 1]),
        forall|k: int| to <= k < text.len() ==> is_white_space(#[trigger] text[k]),
    ensures
        trim_end(text) == text.take(to),
    decreases text.len(),
{
    if to < text.len() {
        assert(is_white_space(text[text.len() - 1]));
        let front = text.drop_last();
        assert forall|k: int| to <= k < front.len() implies is_white_space(#[trigger] front[k]) by {
            assert(front[k] == text[k]);
        }
        lemma_end(front, to);
        assert(front.take(to) =~= text.take(to));
    } else {
        assert(text.take(to) =~= text);
    }
}

/// A trimmed text goes from the first character that is not white space to the last; of white
/// space alone nothing is left.
pub proof fn lemma_trimmed_is_between_the_white_space(text: Seq<char>, from: int, to: int)
    ensures
        0 <= from < to <= text.len() && !is_white_space(text[from]) && !is_white_space(text[to - 1])
            && (forall|k: int| 0 <= k < from ==> is_white_space(#[trigger] text[k])) && (forall|
            k: int,
        | to <= k < text.len() ==> is_white_space(#[trigger] text[k])) ==> trimmed(text)
            == text.subrange(from, to),
        (forall|k: int| 0 <= k < text.len() ==> is_white_space(#[trigger] text[k])) ==> trimmed(
            text,
        ).len() == 0,
{
    if 0 <= from < to <= text.len() && !is_white_space(text[from]) && !is_white_space(text[to - 1])
        && (forall|k: int| 0 <= k < from ==> is_white_space(#[trigger] text[k])) && (forall|k: int|
        to <= k < text.len() ==> is_white_space(#[trigger] text[k])) {
        lemma_start(text, from);
        let rest = text.skip(from);
        assert forall|k: int| to - from <= k < rest.len() implies is_white_space(
            #[trigger] rest[k],
        ) by {
            assert(rest[k] == text[k + from]);
        }
        assert(rest[to - from - 1] == text[to - 1]);
        lemma_end(rest, to - from);
        assert(rest.take(to - from) =~= text.subrange(from, to));
    }
    if forall|k: int| 0 <= k < text.len() ==> is_white_space(#[trigger] text[k]) {
        lemma_start(text, text.len() as int);
    }
}

/// A text stands in another at a place where each of its characters does.
pub proof fn lemma_where_a_text_stands(text: Seq<char>, pattern: Seq<char>, at: int)
    ensures
        stands_at(text, pattern, at) <==> 0 <= at && at + pattern.len() <= text.len() && forall|
            k: int,
        | 0 <= k < pattern.len() ==> #[trigger] pattern[k] == text[at + k],
{
    if 0 <= at && at + pattern.len() <= text.len() {
        let part = text.subrange(at, at + pattern.len());
        if forall|k: int| 0 <= k < pattern.len() ==> #[trigger] pattern[k] == text[at + k] {
            assert(part =~= pattern);
        }
        if stands_at(text, pattern, at) {
            assert forall|k: int| 0 <= k < pattern.len() implies #[trigger] pattern[k] == text[at
                + k] by {
                assert(part[k] == text[at + k]);
            }
        }
    }
}

/// The capitals of ASCII have the small letter thirty-two behind them; no other changes.
pub proof fn lemma_small_letters(c: char)
    ensures
        'A' <= c <= 'Z' ==> ascii_lowercase(c) as int == c as int + 32,
        !('A' <= c <= 'Z') ==> ascii_lowercase(c) == c,
{
}

/// The digits of a number have its value, and no zero stands before others.
pub proof fn lemma_digits_of_a_number(n: nat)
    ensures
        decimal_value(decimal_digits(n)) == n,
        decimal_digits(n).len() > 0,
        decimal_digits(n).len() > 1 ==> decimal_digits(n)[0] != '0',
        forall|k: int|
            0 <= k < decimal_digits(n).len() ==> '0' <= #[trigger] decimal_digits(n)[k] <= '9',
        n > 0 ==> decimal_digits(n)[0] != '0',
    decreases n,
{
    let digit = (n % 10 + 48) as char;
    if n >= 10 {
        lemma_digits_of_a_number(n / 10);
        let front = decimal_digits(n / 10);
        assert(decimal_digits(n).drop_last() =~= front);
        assert(decimal_digits(n).last() == digit);
        assert(decimal_digits(n)[0] == front[0]);
        assert forall|k: int| 0 <= k < decimal_digits(n).len() implies '0'
            <= #[trigger] decimal_digits(n)[k] <= '9' by {
            if k < front.len() {
                assert(decimal_digits(n)[k] == front[k]);
            }
        }
    } else {
        assert(decimal_digits(n).drop_last() =~= Seq::empty());
        assert(decimal_digits(n).last() == digit);
        assert(decimal_value(Seq::<char>::empty()) == 0);
    }
}

/// Two texts are ordered by the first character in which they differ; one that begins another
/// stands before it.
pub proof fn lemma_texts_are_ordered_by_their_characters(
    common: Seq<char>,
    left: Seq<char>,
    right: Seq<char>,
)
    requires
        left.len() == 0 || right.len() == 0 || left[0] != right[0],
    ensures
        text_before(common + left, common + right) <==> right.len() > 0 && (left.len() == 0
            || left[0] < right[0]),
    decreases common.len(),
{
    if common.len() > 0 {
        lemma_texts_are_ordered_by_their_characters(common.drop_first(), left, right);
        assert((common + left).drop_first() =~= common.drop_first() + left);
        assert((common + right).drop_first() =~= common.drop_first() + right);
        assert((common + left)[0] == common[0] && (common + right)[0] == common[0]);
    } else {
        assert(common + left =~= left);
        assert(common + right =~= right);
    }
}

/// A path that has no slash is one piece, and a slash parts the pieces before it from those
/// behind it.
pub proof fn lemma_slashes_part_a_path(first: Seq<char>, second: Seq<char>)
    ensures
        pieces(first + seq!['/'] + second) == pieces(first) + pieces(second),
        !first.contains('/') ==> pieces(first) == seq![first],
        pieces(first).len() > 0,
    decreases first.len() + second.len(),
{
    if second.len() > 0 {
        lemma_slashes_part_a_path(first, second.drop_last());
        let whole = first + seq!['/'] + second;
        assert(whole.drop_last() =~= first + seq!['/'] + second.drop_last());
        assert(whole.last() == second.last());
        lemma_some_piece(second.drop_last());
        assert(pieces(whole) =~= pieces(first) + pieces(second));
    } else {
        let whole = first + seq!['/'] + second;
        assert(whole.drop_last() =~= first);
        assert(whole.last() == '/');
        assert(pieces(whole) =~= pieces(first) + pieces(second));
    }
    lemma_some_piece(first);
    if !first.contains('/') {
        lemma_one_piece(first);
    }
}

proof fn lemma_some_piece(path: Seq<char>)
    ensures
        pieces(path).len() > 0,
    decreases path.len(),
{
    if path.len() > 0 {
        lemma_some_piece(path.drop_last());
    }
}

proof fn lemma_one_piece(path: Seq<char>)
    requires
        !path.contains('/'),
    ensures
        pieces(path) == seq![path],
    decreases path.len(),
{
    if path.len() > 0 {
        let front = path.drop_last();
        assert forall|k: int| 0 <= k < front.len() implies front[k] != '/' by {
            assert(front[k] == path[k]);
            assert(path.contains(path[k]));
        }
        lemma_one_piece(front);
        assert(path.contains(path.last())) by {
            assert(path[path.len() - 1] == path.last());
        }
        assert(front.push(path.last()) =~= path);
        assert(pieces(path) =~= seq![path]);
    } else {
        assert(path =~= Seq::empty());
        assert(pieces(path) =~= seq![path]);
    }
}

proof fn lemma_named_go_on(first: Seq<Seq<char>>, second: Seq<Seq<char>>)
    ensures
        named(first).is_prefix_of(named(first + second)),
        named(first + second).len() >= named(first).len(),
    decreases second.len(),
{
    if second.len() > 0 {
        lemma_named_go_on(first, second.drop_last());
        assert((first + second).drop_last() =~= first + second.drop_last());
        let front = named(first + second.drop_last());
        let whole = named(first + second);
        assert(whole.subrange(0, named(first).len() as int) =~= front.subrange(
            0,
            named(first).len() as int,
        ));
        assert(front.subrange(0, named(first).len() as int) == named(first));
    } else {
        assert(first + second =~= first);
        assert(named(first).subrange(0, named(first).len() as int) =~= named(first));
    }
}

/// What stands below a directory is within it, and so is the directory itself.
pub proof fn lemma_what_is_below_is_within(base: Seq<char>, rest: Seq<char>)
    requires
        base.len() > 0,
    ensures
        is_within(base + seq!['/'] + rest, base),
        is_within(base, base),
{
    let path = base + seq!['/'] + rest;
    lemma_slashes_part_a_path(base, rest);
    lemma_named_go_on(pieces(base), pieces(rest));
    assert(path[0] == base[0]);
    let root = if base[0] == '/' {
        seq!["/"@]
    } else {
        Seq::empty()
    };
    let own = named(pieces(base));
    let all = named(pieces(path));
    assert(all.subrange(0, own.len() as int) == own);
    assert((root + all).subrange(0, (root + own).len() as int) =~= root + own);
    assert(components(base) == root + own && components(path) == root + all);
    assert((root + own).subrange(0, (root + own).len() as int) =~= root + own);
}

/// A path within a directory goes through each of its components; so nothing is within a
/// directory that parts from it at one of them, or that is shorter.
pub proof fn lemma_what_parts_is_not_within(path: Seq<char>, base: Seq<char>, k: int)
    ensures
        0 <= k < components(base).len() && (k >= components(path).len() || components(path)[k]
            != components(base)[k]) ==> !is_within(path, base),
        path.len() > 0 && path[0] == '/' && components(base).len() > 0 && components(base)[0]
            != "/"@ ==> !is_within(path, base),
{
    if is_within(path, base) && 0 <= k < components(base).len() {
        assert(components(path).subrange(0, components(base).len() as int)[k]
            == components(base)[k]);
    }
    if is_within(path, base) && path.len() > 0 && path[0] == '/' && components(base).len() > 0 {
        assert(components(path)[0] == "/"@);
        assert(components(path).subrange(0, components(base).len() as int)[0]
            == components(base)[0]);
    }
}

/// Of the pieces of a path the empty ones and the dots are no components, except a dot at its
/// beginning; all others are, in their order.
pub proof fn lemma_which_pieces_are_components(before: Seq<Seq<char>>, piece: Seq<char>)
    ensures
        piece.len() == 0 ==> named(before.push(piece)) == named(before),
        piece == "."@ && before.len() > 0 ==> named(before.push(piece)) == named(before),
        piece.len() > 0 && (piece != "."@ || before.len() == 0) ==> named(before.push(piece))
            == named(before).push(piece),
        named(Seq::empty()).len() == 0,
{
    assert(before.push(piece).drop_last() =~= before);
}

/// A number that is not one equals nothing, not even itself; the two zeros are equal, and any
/// other only to itself.
pub proof fn lemma_when_numbers_are_equal(a: Double, b: Double)
    ensures
        a.equals(b) == b.equals(a),
        a.is_nan() ==> !a.equals(b),
        !a.is_nan() ==> a.equals(a),
        a.is_zero() && b.is_zero() ==> a.equals(b),
        a.equals(b) && !a.is_zero() ==> a.bits == b.bits,
{
}

/// A number is cut off toward zero and keeps to the bounds of what it is cut off to; one that is
/// not a number is cut off to zero, and one below one is too.
pub proof fn lemma_how_numbers_are_cut_off(a: Double)
    ensures
        i64::MIN <= a.truncated() <= i64::MAX ==> a.signed() == a.truncated(),
        a.truncated() > i64::MAX ==> a.signed() == i64::MAX,
        a.truncated() < i64::MIN ==> a.signed() == i64::MIN,
        0 <= a.truncated() <= u64::MAX ==> a.unsigned() == a.truncated(),
        a.truncated() > u64::MAX ==> a.unsigned() == u64::MAX,
        a.truncated() < 0 ==> a.unsigned() == 0,
        a.is_nan() ==> a.truncated() == 0,
        a.exponent() < 1023 ==> a.truncated() == 0,
        a.exponent() == 1075 && !a.is_negative() ==> a.truncated() == 0x10_0000_0000_0000
            + a.fraction(),
        a.exponent() == 1075 && a.is_negative() ==> a.truncated() == -(0x10_0000_0000_0000
            + a.fraction()),
        a.at_least_zero() <==> !a.is_nan() && (a.bits < 0x8000_0000_0000_0000 || a.is_zero()),
        a.is_finite() <==> a.exponent() < 2047,
        a.is_nan() ==> !a.is_finite(),
{
    vstd::arithmetic::power2::lemma2_to64();
    let significand: int = 0x10_0000_0000_0000 + a.fraction();
    assert(significand / 1 == significand);
    if a.exponent() == 1075 {
        assert(vstd::arithmetic::power2::pow2((1075 - a.exponent()) as nat) == 1);
        assert(a.magnitude() == significand / 1);
    }
}

/// A glyph is what is set, where that is one character; else it is the default. Without
/// settings the panel is on the left, and the glyphs are the usual ones.
pub proof fn lemma_what_is_set_counts(content: SettingsContent, value: Seq<char>, default: char)
    ensures
        value.len() == 1 ==> glyph_or(Some(value), default) == value[0],
        value.len() != 1 ==> glyph_or(Some(value), default) == default,
        glyph_or(None, default) == default,
        ({
            let settings = ClaudeSessionsSettings::of(content);
            match content.claude_sessions {
                None => settings.dock == DockSide::Left && settings.user_prompt_glyph == '>'
                    && settings.assistant_glyph == '⏺',
                Some(set) => {
                    &&& set.dock is Some ==> settings.dock == set.dock->0
                    &&& set.dock is None ==> settings.dock == DockSide::Left
                    &&& set.user_prompt_glyph is None ==> settings.user_prompt_glyph == '>'
                    &&& set.user_prompt_glyph is Some ==> settings.user_prompt_glyph == glyph_or(
                        Some(set.user_prompt_glyph->0@),
                        '>',
                    )
                    &&& set.assistant_glyph is None ==> settings.assistant_glyph == '⏺'
                    &&& set.assistant_glyph is Some ==> settings.assistant_glyph == glyph_or(
                        Some(set.assistant_glyph->0@),
                        '⏺',
                    )
                },
            }
        }),
{
}

} // verus!
