//! What holds of texts.

use crate::text;
use vstd::prelude::*;

verus! {

// ---------------------------------------------------------------------------
// White space
// ---------------------------------------------------------------------------

/// Blanks, tabs and line ends are white space; letters, digits and signs of ASCII are not.
pub proof fn white_space_shows_nothing(c: char)
    ensures
        c == ' ' || c == '\t' || c == '\n' || c == '\r' ==> text::white_space(c),
        '!' <= c <= '~' ==> !text::white_space(c),
{
}

/// A text is blank exactly when all of its characters are white space.
pub proof fn blank_texts_show_nothing(t: Seq<char>)
    ensures
        t.len() == 0 ==> text::blank(t),
        text::blank(t) <==> !exists|i: int|
            0 <= i < t.len() && !text::white_space(#[trigger] t[i]),
{
}

/// Trimming takes white space off both ends and leaves what stands between: a part of the text
/// that neither starts nor ends with white space.
pub proof fn trimming_takes_white_space_off(t: Seq<char>) -> (r: (int, int))
    ensures
        0 <= r.0 <= r.1 <= t.len(),
        text::trimmed(t) == t.subrange(r.0, r.1),
        forall|i: int| 0 <= i < r.0 ==> text::white_space(#[trigger] t[i]),
        forall|i: int| r.1 <= i < t.len() ==> text::white_space(#[trigger] t[i]),
        r.0 < r.1 ==> !text::white_space(t[r.0]) && !text::white_space(t[r.1 - 1]),
{
    let from = start_is_trimmed(t);
    let rest = t.skip(from);
    let len = end_is_trimmed(rest);
    assert(rest.take(len) =~= t.subrange(from, from + len));
    assert forall|i: int| from + len <= i < t.len() implies text::white_space(#[trigger] t[i]) by {
        assert(rest[i - from] == t[i]);
    }
    if len > 0 {
        assert(rest[0] == t[from]);
        assert(rest[len - 1] == t[from + len - 1]);
    }
    (from, from + len)
}

proof fn start_is_trimmed(t: Seq<char>) -> (from: int)
    ensures
        0 <= from <= t.len(),
        text::trim_start(t) == t.skip(from),
        forall|i: int| 0 <= i < from ==> text::white_space(#[trigger] t[i]),
        from < t.len() ==> !text::white_space(t[from]),
    decreases t.len(),
{
    if t.len() > 0 && text::white_space(t[0]) {
        let rest = t.skip(1);
        let n = start_is_trimmed(rest);
        assert(rest.skip(n) =~= t.skip(n + 1));
        assert forall|i: int| 0 <= i < n + 1 implies text::white_space(#[trigger] t[i]) by {
            if i > 0 {
                assert(rest[i - 1] == t[i]);
            }
        }
        if n < rest.len() {
            assert(rest[n] == t[n + 1]);
        }
        n + 1
    } else {
        assert(t.skip(0) =~= t);
        0
    }
}

proof fn end_is_trimmed(t: Seq<char>) -> (len: int)
    ensures
        0 <= len <= t.len(),
        text::trim_end(t) == t.take(len),
        forall|i: int| len <= i < t.len() ==> text::white_space(#[trigger] t[i]),
        len > 0 ==> !text::white_space(t[len - 1]),
    decreases t.len(),
{
    if t.len() > 0 && text::white_space(t.last()) {
        let front = t.drop_last();
        let n = end_is_trimmed(front);
        assert(front.take(n) =~= t.take(n));
        assert forall|i: int| n <= i < t.len() implies text::white_space(#[trigger] t[i]) by {
            if i < front.len() {
                assert(front[i] == t[i]);
            }
        }
        if n > 0 {
            assert(front[n - 1] == t[n - 1]);
        }
        n
    } else {
        assert(t.take(t.len() as int) =~= t);
        t.len() as int
    }
}

/// A text without white space is left whole.
pub proof fn trimming_leaves_words_alone(t: Seq<char>)
    requires
        forall|i: int| 0 <= i < t.len() ==> !text::white_space(#[trigger] t[i]),
    ensures
        text::trimmed(t) == t,
{
    let (from, to) = trimming_takes_white_space_off(t);
    if t.len() > 0 {
        if from > 0 {
            assert(text::white_space(t[0]));
        }
        if to < t.len() {
            assert(text::white_space(t[t.len() - 1]));
        }
    }
    assert(t.subrange(0, t.len() as int) =~= t);
}

// ---------------------------------------------------------------------------
// Parts of texts
// ---------------------------------------------------------------------------

/// Texts put together with a separator between each two.
pub open spec fn joined(parts: Seq<Seq<char>>, sep: char) -> Seq<char>
    decreases parts.len(),
{
    if parts.len() == 0 {
        Seq::empty()
    } else if parts.len() == 1 {
        parts[0]
    } else {
        joined(parts.drop_last(), sep) + seq![sep] + parts.last()
    }
}

/// Splitting loses nothing and adds nothing: there is at least one part, no part holds the
/// separator, and put together again with it the parts are the text.
pub proof fn splitting_is_undone_by_joining(t: Seq<char>, sep: char)
    ensures
        text::split(t, sep).len() > 0,
        joined(text::split(t, sep), sep) == t,
        forall|i: int|
            0 <= i < text::split(t, sep).len() ==> !(#[trigger] text::split(t, sep)[i]).contains(
                sep,
            ),
    decreases t.len(),
{
    let parts = text::split(t, sep);
    if t.len() == 0 {
        assert(joined(parts, sep) =~= t);
    } else {
        let front = t.drop_last();
        splitting_is_undone_by_joining(front, sep);
        let before = text::split(front, sep);
        assert(t =~= front.push(t.last()));
        if t.last() == sep {
            assert(parts.drop_last() =~= before);
            assert(joined(parts, sep) =~= joined(before, sep) + seq![sep] + Seq::<char>::empty());
            assert(joined(parts, sep) =~= t);
            assert forall|i: int| 0 <= i < parts.len() implies !(#[trigger] parts[i]).contains(
                sep,
            ) by {
                if i < before.len() {
                    assert(parts[i] == before[i]);
                }
            }
        } else {
            let last = before.last().push(t.last());
            assert(!before[before.len() - 1].contains(sep));
            assert(!last.contains(sep)) by {
                if last.contains(sep) {
                    let k = choose|k: int| 0 <= k < last.len() && last[k] == sep;
                    assert(before.last()[k] == sep);
                }
            }
            if before.len() > 1 {
                assert(parts.drop_last() =~= before.drop_last());
                assert(joined(parts, sep) =~= joined(before, sep).push(t.last()));
            }
            assert(joined(parts, sep) =~= t);
            assert forall|i: int| 0 <= i < parts.len() implies !(#[trigger] parts[i]).contains(
                sep,
            ) by {
                if i < before.len() - 1 {
                    assert(parts[i] == before[i]);
                }
            }
        }
    }
}

/// A text without the separator is its only part.
pub proof fn whole_texts_are_one_part(t: Seq<char>, sep: char)
    requires
        !t.contains(sep),
    ensures
        text::split(t, sep) == seq![t],
    decreases t.len(),
{
    if t.len() > 0 {
        let front = t.drop_last();
        assert(t[t.len() - 1] != sep);
        assert(!front.contains(sep)) by {
            if front.contains(sep) {
                let k = choose|k: int| 0 <= k < front.len() && front[k] == sep;
                assert(t[k] == sep);
            }
        }
        whole_texts_are_one_part(front, sep);
        assert(front.push(t.last()) =~= t);
        assert(text::split(t, sep) =~= seq![t]);
    } else {
        assert(t =~= Seq::<char>::empty());
        assert(text::split(t, sep) =~= seq![t]);
    }
}

/// The parts on both sides of a separator are the parts of the whole.
pub proof fn parts_stand_side_by_side(a: Seq<char>, b: Seq<char>, sep: char)
    ensures
        text::split(a + seq![sep] + b, sep) == text::split(a, sep) + text::split(b, sep),
    decreases b.len(),
{
    let whole = a + seq![sep] + b;
    splitting_is_undone_by_joining(a, sep);
    splitting_is_undone_by_joining(b, sep);
    if b.len() == 0 {
        assert(whole.drop_last() =~= a);
        assert(whole.last() == sep);
        assert(text::split(whole, sep) =~= text::split(a, sep) + text::split(b, sep));
    } else {
        let front = b.drop_last();
        parts_stand_side_by_side(a, front, sep);
        splitting_is_undone_by_joining(front, sep);
        assert(whole.drop_last() =~= a + seq![sep] + front);
        assert(whole.last() == b.last());
        let left = text::split(a, sep);
        let before = text::split(front, sep);
        assert((left + before).last() == before.last());
        assert((left + before).drop_last() =~= left + before.drop_last());
        assert(text::split(whole, sep) =~= left + text::split(b, sep));
    }
}

/// A part that is found stands in the text, and a text that starts with a prefix goes on with what
/// comes after it.
pub proof fn found_parts_stand_in_the_text(
    whole: Seq<char>,
    front: Seq<char>,
    part: Seq<char>,
    back: Seq<char>,
)
    ensures
        text::occurs_in(front + part + back, part),
        text::occurs_in(whole, part) <==> exists|at: int|
            0 <= at <= whole.len() - part.len() && #[trigger] whole.subrange(at, at + part.len())
                == part,
        text::after_prefix(part + back, part) == Some(back),
        text::after_prefix(whole, part) matches Some(rest) ==> whole == part + rest,
{
    let t = front + part + back;
    let n = front.len() as int;
    assert(t.subrange(n, n + part.len()) =~= part);
    assert(text::stands_at(t, part, n));
    assert((part + back).subrange(0, part.len() as int) =~= part);
    assert((part + back).skip(part.len() as int) =~= back);
    if exists|at: int|
        0 <= at <= whole.len() - part.len() && #[trigger] whole.subrange(at, at + part.len())
            == part {
        let at = choose|at: int|
            0 <= at <= whole.len() - part.len() && #[trigger] whole.subrange(at, at + part.len())
                == part;
        assert(text::stands_at(whole, part, at));
    }
    if text::occurs_in(whole, part) {
        let at = choose|at: int| text::stands_at(whole, part, at);
        assert(whole.subrange(at, at + part.len()) == part);
    }
    if text::after_prefix(whole, part) is Some {
        assert(whole =~= whole.subrange(0, part.len() as int) + whole.skip(part.len() as int));
    }
}

/// A line ends at its line feed, and a carriage return before that belongs to the end; then the
/// next line starts. What stands behind the last line feed is a line unless it is empty.
pub proof fn lines_end_at_line_feeds(line: Seq<char>, rest: Seq<char>)
    requires
        !line.contains('\n'),
    ensures
        text::lines(line + seq!['\n'] + rest) == seq![
            if line.len() > 0 && line[line.len() - 1] == '\r' {
                line.take(line.len() - 1)
            } else {
                line
            },
        ] + text::lines(rest),
        text::lines(line) == (if line.len() == 0 {
            Seq::empty()
        } else {
            seq![line]
        }),
{
    let strip = |l: Seq<char>| text::without_return(l);
    parts_stand_side_by_side(line, rest, '\n');
    whole_texts_are_one_part(line, '\n');
    splitting_is_undone_by_joining(rest, '\n');
    let parts = text::split(rest, '\n');
    let all = text::split(line + seq!['\n'] + rest, '\n');
    assert(all =~= seq![line] + parts);
    assert(all.last() == parts.last());
    assert(all.drop_last() =~= seq![line] + parts.drop_last());
    let first = if line.len() > 0 && line[line.len() - 1] == '\r' {
        line.take(line.len() - 1)
    } else {
        line
    };
    assert(text::without_return(line) =~= first);
    assert(all.drop_last().map_values(strip) =~= seq![first] + parts.drop_last().map_values(strip));
    assert(text::lines(line + seq!['\n'] + rest) =~= seq![first] + text::lines(rest));
    assert(seq![line].drop_last().map_values(strip) =~= Seq::<Seq<char>>::empty());
    assert(text::lines(line) =~= (if line.len() == 0 {
        Seq::empty()
    } else {
        seq![line]
    }));
}

// ---------------------------------------------------------------------------
// Letters and columns
// ---------------------------------------------------------------------------

/// Lower case changes the capital letters of ASCII to their small ones, and nothing else.
pub proof fn lower_case_changes_capitals(t: Seq<char>, i: int)
    requires
        0 <= i < t.len(),
    ensures
        text::ascii_lowercase(t).len() == t.len(),
        'A' <= t[i] <= 'Z' ==> text::ascii_lowercase(t)[i] as int - 'a' as int == t[i] as int
            - 'A' as int,
        !('A' <= t[i] <= 'Z') ==> text::ascii_lowercase(t)[i] == t[i],
        !('A' <= text::ascii_lowercase(t)[i] <= 'Z'),
{
}

/// A padded text starts with the text, and what follows up to the width are spaces. One that is
/// wider stays as it is.
pub proof fn padding_fills_with_spaces(t: Seq<char>, width: nat)
    ensures
        t.len() <= width ==> text::padded(t, width).len() == width,
        t.len() >= width ==> text::padded(t, width) == t,
        text::padded(t, width).take(t.len() as int) == t,
        forall|i: int| t.len() <= i < width ==> #[trigger] text::padded(t, width)[i] == ' ',
        text::repeated(' ', width).len() == width,
{
    assert(text::padded(t, width).take(t.len() as int) =~= t);
}

/// The bytes of the first characters of a text end where a character ends.
proof fn characters_end_at_boundaries(t: Seq<char>, n: int)
    requires
        0 <= n <= t.len(),
    ensures
        vstd::utf8::is_char_boundary(
            vstd::utf8::encode_utf8(t),
            vstd::utf8::encode_utf8(t.take(n)).len() as int,
        ),
        vstd::utf8::encode_utf8(t.take(n)).len() <= vstd::utf8::encode_utf8(t).len(),
        n < t.len() ==> vstd::utf8::encode_utf8(t.take(n)).len() < vstd::utf8::encode_utf8(
            t.take(n + 1),
        ).len(),
    decreases t.len(),
{
    let bytes = vstd::utf8::encode_utf8(t);
    vstd::utf8::encode_utf8_valid_utf8(t);
    if n == 0 {
        assert(t.take(0) =~= Seq::<char>::empty());
        if t.len() > 0 {
            vstd::utf8::encode_utf8_first_scalar(t.take(1));
        }
    } else {
        let rest = t.drop_first();
        characters_end_at_boundaries(rest, n - 1);
        vstd::utf8::encode_utf8_first_scalar(t);
        assert(t.take(n).drop_first() =~= rest.take(n - 1));
        if n < t.len() {
            assert(t.take(n + 1).drop_first() =~= rest.take(n));
        }
        assert(vstd::utf8::pop_first_scalar(bytes) =~= vstd::utf8::encode_utf8(rest));
    }
}

/// No end of a character lies between the last one found and the index.
proof fn last_boundary_is_the_last(bytes: Seq<u8>, index: nat, b: nat)
    requires
        vstd::utf8::is_char_boundary(bytes, b as int),
        b <= index,
    ensures
        b <= text::last_boundary(bytes, index),
    decreases index,
{
    if index > 0 && !vstd::utf8::is_char_boundary(bytes, index as int) {
        last_boundary_is_the_last(bytes, (index - 1) as nat, b);
    }
}

/// A short text is shown whole; of a long one the beginning, marked with three dots. As much is
/// shown as fits: with one more character it would be longer than allowed.
pub proof fn texts_are_cut_only_when_long(t: Seq<char>, max: nat, keep: nat)
    ensures
        vstd::utf8::encode_utf8(t).len() <= max ==> text::shortened(t, max, keep) == t,
        vstd::utf8::encode_utf8(t).len() > max ==> exists|n: int|
            {
                &&& 0 <= n <= t.len()
                &&& vstd::utf8::encode_utf8(#[trigger] t.take(n)).len() <= keep
                &&& n < t.len() ==> vstd::utf8::encode_utf8(t.take(n + 1)).len() > keep
                &&& text::shortened(t, max, keep) == t.take(n) + "..."@
            },
{
    if vstd::utf8::encode_utf8(t).len() > max {
        let n = text::shortened_starts_the_same(t, max, keep) as int;
        if n < t.len() {
            let next = vstd::utf8::encode_utf8(t.take(n + 1)).len();
            characters_end_at_boundaries(t, n);
            characters_end_at_boundaries(t, n + 1);
            if next <= keep {
                last_boundary_is_the_last(vstd::utf8::encode_utf8(t), keep, next);
            }
        }
        assert(vstd::utf8::encode_utf8(t.take(n)).len() <= keep);
    }
}

// ---------------------------------------------------------------------------
// Numbers
// ---------------------------------------------------------------------------

/// A text is read as a number exactly when it is made of digits, after a plus sign at most, and
/// the number is not too large.
pub proof fn only_digits_are_numbers(t: Seq<char>, max: nat)
    ensures
        text::parsed_number(t, max) is Some ==> {
            let digits = if t[0] == '+' {
                t.skip(1)
            } else {
                t
            };
            &&& t.len() > 0
            &&& digits.len() > 0
            &&& forall|i: int| 0 <= i < digits.len() ==> '0' <= #[trigger] digits[i] <= '9'
            &&& text::parsed_number(t, max)->0 <= max
        },
        t.len() == 0 ==> text::parsed_number(t, max) is None,
{
}

/// Another digit behind a number makes it ten times as large and adds the digit.
pub proof fn digits_count_by_ten(t: Seq<char>, d: nat)
    requires
        d < 10,
    ensures
        text::digits_value(t.push(text::digit(d))) == text::digits_value(t) * 10 + d,
        text::digits_value(Seq::empty()) == 0,
        text::digit(d) as int == '0' as int + d,
{
    assert(t.push(text::digit(d)).drop_last() =~= t);
}

/// Negative numbers are written with a minus sign before their digits.
pub proof fn negative_numbers_have_a_sign(n: int)
    ensures
        n < 0 ==> text::signed_decimal(n) == seq!['-'] + text::decimal((-n) as nat),
        n >= 0 ==> text::signed_decimal(n) == text::decimal(n as nat),
{
}

} // verus!
