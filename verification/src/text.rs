use vstd::prelude::*;
use vstd::string::*;

verus! {

/// What an optional text says.
pub open spec fn opt_text(text: Option<String>) -> Option<Seq<char>> {
    match text {
        Some(t) => Some(t@),
        None => None,
    }
}

/// The decimal digit for `d`.
pub open spec fn digit(d: nat) -> char {
    ('0' as int + d) as char
}

/// The decimal notation of a number.
pub open spec fn decimal(n: nat) -> Seq<char>
    decreases n,
{
    if n < 10 {
        seq![digit(n)]
    } else {
        decimal(n / 10).push(digit(n % 10))
    }
}

/// The decimal notation of a number with a sign where it is negative.
pub open spec fn signed_decimal(n: int) -> Seq<char> {
    if n < 0 {
        seq!['-'] + decimal((-n) as nat)
    } else {
        decimal(n as nat)
    }
}

/// The decimal digit for `d`.
fn digit_text(d: u64) -> (r: &'static str)
    requires
        d < 10,
    ensures
        r@ == seq![digit(d as nat)],
{
    proof {
        reveal_strlit("0");
        reveal_strlit("1");
        reveal_strlit("2");
        reveal_strlit("3");
        reveal_strlit("4");
        reveal_strlit("5");
        reveal_strlit("6");
        reveal_strlit("7");
        reveal_strlit("8");
        reveal_strlit("9");
    }
    let r = match d {
        0 => "0",
        1 => "1",
        2 => "2",
        3 => "3",
        4 => "4",
        5 => "5",
        6 => "6",
        7 => "7",
        8 => "8",
        _ => "9",
    };
    assert(r@ =~= seq![digit(d as nat)]);
    r
}

/// The decimal notation of a number.
pub fn decimal_text(n: u64) -> (r: String)
    ensures
        r@ == decimal(n as nat),
    decreases n,
{
    if n < 10 {
        digit_text(n).to_owned()
    } else {
        let mut text = decimal_text(n / 10);
        text.append(digit_text(n % 10));
        text
    }
}

/// The decimal notation of a number with a sign where it is negative.
pub fn signed_decimal_text(n: i32) -> (r: String)
    ensures
        r@ == signed_decimal(n as int),
{
    if n < 0 {
        proof {
            reveal_strlit("-");
            assert("-"@ =~= seq!['-']);
        }
        let magnitude: i64 = -(n as i64);
        "-".to_owned().concat(decimal_text(magnitude as u64).as_str())
    } else {
        decimal_text(n as u64)
    }
}

/// How the debug format writes an optional number.
pub open spec fn debug_opt(number: Option<Seq<char>>) -> Seq<char> {
    match number {
        Some(text) => "Some("@ + text + ")"@,
        None => "None"@,
    }
}

/// The debug format of an optional number.
pub fn debug_opt_u64(number: &Option<u64>) -> (r: String)
    ensures
        r@ == debug_opt(
            match *number {
                Some(n) => Some(decimal(n as nat)),
                None => None,
            },
        ),
{
    match number {
        Some(n) => "Some(".to_owned().concat(decimal_text(*n).as_str()).concat(")"),
        None => "None".to_owned(),
    }
}

/// The debug format of an optional number.
pub fn debug_opt_i32(number: &Option<i32>) -> (r: String)
    ensures
        r@ == debug_opt(
            match *number {
                Some(n) => Some(signed_decimal(n as int)),
                None => None,
            },
        ),
{
    match number {
        Some(n) => "Some(".to_owned().concat(signed_decimal_text(*n).as_str()).concat(")"),
        None => "None".to_owned(),
    }
}

/// The text is made of decimal digits.
pub open spec fn all_digits(text: Seq<char>) -> bool {
    forall|i: int| 0 <= i < text.len() ==> '0' <= #[trigger] text[i] <= '9'
}

/// The number that decimal digits stand for.
pub open spec fn digits_value(text: Seq<char>) -> nat
    decreases text.len(),
{
    if text.len() == 0 {
        0
    } else {
        digits_value(text.drop_last()) * 10 + (text.last() as nat - '0' as nat) as nat
    }
}

/// The text without a leading plus sign.
pub open spec fn without_plus(text: Seq<char>) -> Seq<char> {
    if text.len() > 0 && text[0] == '+' {
        text.skip(1)
    } else {
        text
    }
}

/// The number up to `max` that a text stands for: decimal digits, at least one, after an optional
/// plus sign.
pub open spec fn parsed_number(text: Seq<char>, max: nat) -> Option<nat> {
    let digits = without_plus(text);
    if digits.len() > 0 && all_digits(digits) && digits_value(digits) <= max {
        Some(digits_value(digits))
    } else {
        None
    }
}

/// A longer run of digits stands for no smaller a number.
proof fn digits_value_grows(text: Seq<char>, i: int)
    requires
        all_digits(text),
        0 <= i <= text.len(),
    ensures
        digits_value(text.take(i)) <= digits_value(text),
    decreases text.len() - i,
{
    if i < text.len() {
        digits_value_grows(text, i + 1);
        assert(text.take(i + 1).drop_last() =~= text.take(i));
    } else {
        assert(text.take(i) =~= text);
    }
}

/// The decimal notation of a number is made of digits that stand for the number.
proof fn decimal_value(n: nat)
    ensures
        decimal(n).len() > 0,
        all_digits(decimal(n)),
        digits_value(decimal(n)) == n,
    decreases n,
{
    if n < 10 {
        assert(decimal(n).drop_last() =~= Seq::<char>::empty());
        assert(digits_value(decimal(n).drop_last()) == 0);
    } else {
        decimal_value(n / 10);
        assert(decimal(n).drop_last() =~= decimal(n / 10));
    }
}

/// A number is read back from its decimal notation, which is made of digits.
pub proof fn decimal_is_read_back(n: nat, max: nat)
    requires
        n <= max,
    ensures
        parsed_number(decimal(n), max) == Some(n),
        decimal(n).len() > 0,
        all_digits(decimal(n)),
{
    decimal_value(n);
    assert('0' <= decimal(n)[0]);
    assert(without_plus(decimal(n)) == decimal(n));
}

/// Reads a number up to `max`.
pub fn parse_number(text: &str, max: u64) -> (r: Option<u64>)
    ensures
        r is Some <==> parsed_number(text@, max as nat) is Some,
        r matches Some(n) ==> parsed_number(text@, max as nat) == Some(n as nat),
{
    let len: usize = text.unicode_len();
    let start: usize = if len > 0 && text.get_char(0) == '+' {
        1
    } else {
        0
    };
    let ghost digits = without_plus(text@);
    assert(digits =~= text@.skip(start as int));
    if start == len {
        return None;
    }
    let mut value: u64 = 0;
    for i in start..len
        invariant
            len == text@.len(),
            start <= i <= len,
            digits == text@.skip(start as int),
            all_digits(digits.take(i - start)),
            value == digits_value(digits.take(i - start)),
            value <= max,
            digits.len() > 0,
            digits == without_plus(text@),
    {
        let c = text.get_char(i);
        let ghost k = i - start;
        assert(digits[k] == c);
        assert(digits.take(k + 1).drop_last() =~= digits.take(k));
        if c < '0' || c > '9' {
            assert(!all_digits(digits));
            return None;
        }
        let d: u64 = (c as u32 - '0' as u32) as u64;
        let next: u128 = value as u128 * 10 + d as u128;
        assert(next == digits_value(digits.take(k + 1)));
        if next > max as u128 {
            proof {
                if all_digits(digits) {
                    digits_value_grows(digits, k + 1);
                }
            }
            return None;
        }
        value = next as u64;
        assert(all_digits(digits.take(k + 1))) by {
            assert forall|j: int| 0 <= j < k + 1 implies '0' <= #[trigger] digits.take(k + 1)[j]
                <= '9' by {
                if j < k {
                    assert(digits.take(k)[j] == digits.take(k + 1)[j]);
                }
            }
        }
    }
    assert(digits.take(len - start) =~= digits);
    Some(value)
}

/// The characters of a text.
pub fn chars_of(text: &str) -> (r: Vec<char>)
    ensures
        r@ == text@,
{
    let mut chars: Vec<char> = Vec::new();
    for c in it: text.chars()
        invariant
            it.seq() == text@,
            chars@ == text@.take(it.index()),
    {
        chars.push(c);
    }
    assert(text@.take(text@.len() as int) =~= text@);
    chars
}

/// The character is white space: the characters with the Unicode property `White_Space`.
pub open spec fn white_space(c: char) -> bool {
    ||| '\u{9}' <= c <= '\u{d}'
    ||| c == ' '
    ||| c == '\u{85}'
    ||| c == '\u{a0}'
    ||| c == '\u{1680}'
    ||| '\u{2000}' <= c <= '\u{200a}'
    ||| c == '\u{2028}'
    ||| c == '\u{2029}'
    ||| c == '\u{202f}'
    ||| c == '\u{205f}'
    ||| c == '\u{3000}'
}

/// The text holds nothing but white space.
pub open spec fn blank(text: Seq<char>) -> bool {
    forall|i: int| 0 <= i < text.len() ==> white_space(#[trigger] text[i])
}

/// Tells whether the character is white space.
pub fn is_white_space(c: char) -> (r: bool)
    ensures
        r == white_space(c),
{
    ('\u{9}' <= c && c <= '\u{d}') || c == ' ' || c == '\u{85}' || c == '\u{a0}' || c == '\u{1680}'
        || ('\u{2000}' <= c && c <= '\u{200a}') || c == '\u{2028}' || c == '\u{2029}' || c
        == '\u{202f}' || c == '\u{205f}' || c == '\u{3000}'
}

/// Tells whether the text holds nothing but white space.
pub fn is_blank(text: &str) -> (r: bool)
    ensures
        r == blank(text@),
{
    let chars = chars_of(text);
    for i in 0..chars.len()
        invariant
            chars@ == text@,
            forall|j: int| 0 <= j < i ==> white_space(#[trigger] text@[j]),
    {
        if !is_white_space(chars[i]) {
            assert(!white_space(text@[i as int]));
            return false;
        }
    }
    true
}

/// `part` stands in `whole` from position `at` on.
pub open spec fn stands_at(whole: Seq<char>, part: Seq<char>, at: int) -> bool {
    0 <= at && at + part.len() <= whole.len() && whole.subrange(at, at + part.len()) == part
}

/// `part` stands somewhere in `whole`.
pub open spec fn occurs_in(whole: Seq<char>, part: Seq<char>) -> bool {
    exists|at: int| stands_at(whole, part, at)
}

/// Tells whether `part` stands in `whole` from position `at` on.
fn is_at(whole: &Vec<char>, part: &Vec<char>, at: usize) -> (r: bool)
    requires
        at + part@.len() <= whole@.len(),
    ensures
        r == stands_at(whole@, part@, at as int),
{
    let ghost here = whole@.subrange(at as int, at + part@.len());
    let total: usize = whole.len();
    for j in 0..part.len()
        invariant
            total == whole@.len(),
            at + part@.len() <= total,
            here == whole@.subrange(at as int, at + part@.len()),
            forall|k: int| 0 <= k < j ==> #[trigger] here[k] == part@[k],
    {
        if whole[at + j] != part[j] {
            assert(here[j as int] != part@[j as int]);
            return false;
        }
    }
    assert(here =~= part@);
    true
}

/// Tells whether `part` stands somewhere in `whole`.
pub fn contains_text(whole: &str, part: &str) -> (r: bool)
    ensures
        r == occurs_in(whole@, part@),
{
    let whole_chars = chars_of(whole);
    let part_chars = chars_of(part);
    if part_chars.len() > whole_chars.len() {
        return false;
    }
    let last: usize = whole_chars.len() - part_chars.len();
    let mut at: usize = 0;
    while at <= last
        invariant
            whole_chars@ == whole@,
            part_chars@ == part@,
            last + part@.len() == whole@.len(),
            at <= last + 1,
            forall|k: int| 0 <= k < at ==> !stands_at(whole@, part@, k),
        decreases last + 1 - at,
    {
        if is_at(&whole_chars, &part_chars, at) {
            assert(stands_at(whole@, part@, at as int));
            return true;
        }
        if at == last {
            return false;
        }
        at = at + 1;
    }
    false
}

/// The text after `prefix`, where it starts with it.
pub open spec fn after_prefix(text: Seq<char>, prefix: Seq<char>) -> Option<Seq<char>> {
    if stands_at(text, prefix, 0) {
        Some(text.skip(prefix.len() as int))
    } else {
        None
    }
}

/// The text after `prefix`, where it starts with it.
pub fn strip_prefix<'a>(text: &'a str, prefix: &str) -> (r: Option<&'a str>)
    ensures
        r is Some <==> after_prefix(text@, prefix@) is Some,
        r matches Some(rest) ==> after_prefix(text@, prefix@) == Some(rest@),
{
    let text_chars = chars_of(text);
    let prefix_chars = chars_of(prefix);
    if prefix_chars.len() > text_chars.len() || !is_at(&text_chars, &prefix_chars, 0) {
        return None;
    }
    let rest = text.substring_char(prefix_chars.len(), text_chars.len());
    assert(rest@ =~= text@.skip(prefix@.len() as int));
    Some(rest)
}

/// The ASCII letter in lower case; any other character stays.
pub open spec fn ascii_lower(c: char) -> char {
    if 'A' <= c <= 'Z' {
        (c as int + 32) as char
    } else {
        c
    }
}

/// The text with its ASCII letters in lower case.
pub open spec fn ascii_lowercase(text: Seq<char>) -> Seq<char> {
    text.map_values(|c: char| ascii_lower(c))
}

/// The lower-case letter for an upper-case one.
fn lower_letter(c: char) -> (r: &'static str)
    requires
        'A' <= c <= 'Z',
    ensures
        r@ == seq![ascii_lower(c)],
{
    let alphabet: &'static str = "abcdefghijklmnopqrstuvwxyz";
    let at: usize = c as usize - 65;
    proof {
        reveal_strlit("abcdefghijklmnopqrstuvwxyz");
        assert(alphabet@[at as int] == (at + 97) as char);
    }
    let letter = alphabet.substring_char(at, at + 1);
    assert(letter@ =~= seq![ascii_lower(c)]);
    letter
}

/// The text with its ASCII letters in lower case.
pub fn to_ascii_lowercase(text: &str) -> (r: String)
    ensures
        r@ == ascii_lowercase(text@),
{
    let chars = chars_of(text);
    let mut lower = String::new();
    assert(lower@ =~= ascii_lowercase(text@.take(0)));
    for i in 0..chars.len()
        invariant
            chars@ == text@,
            lower@ == ascii_lowercase(text@.take(i as int)),
    {
        let c = chars[i];
        if 'A' <= c && c <= 'Z' {
            lower.append(lower_letter(c));
        } else {
            lower.append(text.substring_char(i, i + 1));
        }
        assert(lower@ =~= ascii_lowercase(text@.take(i + 1)));
    }
    assert(text@.take(text@.len() as int) =~= text@);
    lower
}

/// What `str::to_lowercase` makes of a text.
pub uninterp spec fn lowercase(text: Seq<char>) -> Seq<char>;

/// Calls `str::to_lowercase`. The result, by the case mapping of Unicode, is named.
#[verifier::external_body]
pub(crate) fn to_lowercase(text: &str) -> (r: String)
    ensures
        r@ == lowercase(text@),
{
    text.to_lowercase()
}

/// The last end of a character at or before `index` bytes.
pub open spec fn last_boundary(bytes: Seq<u8>, index: nat) -> nat
    decreases index,
{
    if index == 0 || vstd::utf8::is_char_boundary(bytes, index as int) {
        index
    } else {
        last_boundary(bytes, (index - 1) as nat)
    }
}

/// The text; where it is longer than `max` bytes, the characters that end within its first `keep`
/// bytes, marked with three dots.
pub open spec fn shortened(text: Seq<char>, max: nat, keep: nat) -> Seq<char> {
    let bytes = vstd::utf8::encode_utf8(text);
    if bytes.len() > max {
        vstd::utf8::decode_utf8(bytes.subrange(0, last_boundary(bytes, keep) as int)) + "..."@
    } else {
        text
    }
}

/// The last end of a character is one, at or before the index.
proof fn last_boundary_is_one(bytes: Seq<u8>, index: nat)
    requires
        vstd::utf8::valid_utf8(bytes),
    ensures
        vstd::utf8::is_char_boundary(bytes, last_boundary(bytes, index) as int),
        last_boundary(bytes, index) <= index,
        last_boundary(bytes, index) <= bytes.len(),
    decreases index,
{
    if index == 0 {
    } else if !vstd::utf8::is_char_boundary(bytes, index as int) {
        last_boundary_is_one(bytes, (index - 1) as nat);
    }
}

/// A shortened text starts as the text does: what is left of it is a prefix that fits.
pub proof fn shortened_starts_the_same(text: Seq<char>, max: nat, keep: nat) -> (n: nat)
    requires
        vstd::utf8::encode_utf8(text).len() > max,
    ensures
        n <= text.len(),
        shortened(text, max, keep) == text.take(n as int) + "..."@,
        vstd::utf8::encode_utf8(text.take(n as int)).len() <= keep,
        vstd::utf8::encode_utf8(text.take(n as int)).len() == last_boundary(
            vstd::utf8::encode_utf8(text),
            keep,
        ),
{
    let bytes = vstd::utf8::encode_utf8(text);
    vstd::utf8::encode_utf8_valid_utf8(text);
    vstd::utf8::encode_utf8_decode_utf8(text);
    last_boundary_is_one(bytes, keep);
    let at = last_boundary(bytes, keep) as int;
    vstd::utf8::valid_utf8_split(bytes, at);
    vstd::utf8::decode_utf8_split(bytes, at);
    let front = vstd::utf8::decode_utf8(bytes.subrange(0, at));
    vstd::utf8::decode_utf8_encode_utf8(bytes.subrange(0, at));
    assert(text.take(front.len() as int) =~= front);
    front.len()
}

/// Cuts a text that is longer than `max` bytes at the last end of a character within its first
/// `keep` bytes, and marks it with three dots.
pub fn shorten(text: &str, max: usize, keep: usize) -> (r: String)
    ensures
        r@ == shortened(text@, max as nat, keep as nat),
{
    if byte_len(text) > max {
        let ghost bytes = vstd::utf8::encode_utf8(text@);
        proof {
            vstd::utf8::encode_utf8_valid_utf8(text@);
        }
        let mut at: usize = keep;
        while !text.is_char_boundary(at)
            invariant
                bytes == vstd::utf8::encode_utf8(text@),
                vstd::utf8::valid_utf8(bytes),
                last_boundary(bytes, at as nat) == last_boundary(bytes, keep as nat),
            decreases at,
        {
            at = at - 1;
        }
        let (front, _) = text.split_at(at);
        proof {
            vstd::utf8::encode_utf8_decode_utf8(front@);
        }
        front.to_owned().concat("...")
    } else {
        text.to_owned()
    }
}

/// The length of a text in bytes.
pub fn byte_len(text: &str) -> (r: usize)
    ensures
        r == vstd::utf8::encode_utf8(text@).len(),
{
    text.as_bytes().len()
}

/// The parts of a text between the occurrences of `sep`.
pub open spec fn split(text: Seq<char>, sep: char) -> Seq<Seq<char>>
    decreases text.len(),
{
    if text.len() == 0 {
        seq![Seq::empty()]
    } else {
        let parts = split(text.drop_last(), sep);
        if text.last() == sep {
            parts.push(Seq::empty())
        } else {
            parts.drop_last().push(parts.last().push(text.last()))
        }
    }
}

/// There is at least one part.
proof fn split_not_empty(text: Seq<char>, sep: char)
    ensures
        split(text, sep).len() > 0,
    decreases text.len(),
{
    if text.len() > 0 {
        split_not_empty(text.drop_last(), sep);
    }
}

/// What texts say.
pub open spec fn texts(strings: Seq<String>) -> Seq<Seq<char>> {
    strings.map_values(|s: String| s@)
}

/// What the texts of a list say.
pub open spec fn str_texts(strings: Seq<&str>) -> Seq<Seq<char>> {
    strings.map_values(|s: &str| s@)
}

/// The parts of a text between the occurrences of `sep`.
pub fn split_text<'a>(text: &'a str, sep: char) -> (r: Vec<&'a str>)
    ensures
        str_texts(r@) == split(text@, sep),
{
    let chars = chars_of(text);
    let mut parts: Vec<&str> = Vec::new();
    let mut start: usize = 0;
    assert(text@.take(0) =~= Seq::<char>::empty());
    assert(text@.subrange(0, 0) =~= Seq::<char>::empty());
    assert(str_texts(parts@) =~= Seq::<Seq<char>>::empty());
    for i in 0..chars.len()
        invariant
            chars@ == text@,
            start <= i,
            str_texts(parts@).push(text@.subrange(start as int, i as int)) =~= split(
                text@.take(i as int),
                sep,
            ),
    {
        let ghost before = parts@;
        assert(text@.take(i + 1).drop_last() =~= text@.take(i as int));
        proof {
            split_not_empty(text@.take(i as int), sep);
        }
        if chars[i] == sep {
            let part = text.substring_char(start, i);
            parts.push(part);
            assert(str_texts(parts@) =~= str_texts(before).push(part@));
            start = i + 1;
            assert(text@.subrange(i + 1, i + 1) =~= Seq::<char>::empty());
        } else {
            assert(text@.subrange(start as int, i + 1) =~= text@.subrange(
                start as int,
                i as int,
            ).push(text@[i as int]));
        }
    }
    let ghost before = parts@;
    let part = text.substring_char(start, chars.len());
    parts.push(part);
    assert(str_texts(parts@) =~= str_texts(before).push(part@));
    assert(text@.take(text@.len() as int) =~= text@);
    parts
}

/// The text without white space at its start.
pub open spec fn trim_start(text: Seq<char>) -> Seq<char>
    decreases text.len(),
{
    if text.len() > 0 && white_space(text[0]) {
        trim_start(text.skip(1))
    } else {
        text
    }
}

/// The text without white space at its end.
pub open spec fn trim_end(text: Seq<char>) -> Seq<char>
    decreases text.len(),
{
    if text.len() > 0 && white_space(text.last()) {
        trim_end(text.drop_last())
    } else {
        text
    }
}

/// The text without white space at its start and end.
pub open spec fn trimmed(text: Seq<char>) -> Seq<char> {
    trim_end(trim_start(text))
}

/// The text without white space at its start and end.
pub fn trim<'a>(text: &'a str) -> (r: &'a str)
    ensures
        r@ == trimmed(text@),
{
    let chars = chars_of(text);
    let mut from: usize = 0;
    assert(text@.skip(0) =~= text@);
    while from < chars.len() && is_white_space(chars[from])
        invariant
            chars@ == text@,
            from <= chars@.len(),
            trim_start(text@) == trim_start(text@.skip(from as int)),
        decreases chars@.len() - from,
    {
        assert(text@.skip(from as int).skip(1) =~= text@.skip(from + 1));
        from = from + 1;
    }
    let mut to: usize = chars.len();
    let ghost started = text@.skip(from as int);
    assert(trim_start(text@) == started);
    assert(text@.subrange(from as int, to as int) =~= started);
    while to > from && is_white_space(chars[to - 1])
        invariant
            chars@ == text@,
            from <= to <= chars@.len(),
            trim_end(started) == trim_end(text@.subrange(from as int, to as int)),
        decreases to - from,
    {
        assert(text@.subrange(from as int, to as int).drop_last() =~= text@.subrange(
            from as int,
            to - 1,
        ));
        to = to - 1;
    }
    text.substring_char(from, to)
}

/// `count` times the character.
pub open spec fn repeated(c: char, count: nat) -> Seq<char> {
    Seq::new(count, |i: int| c)
}

/// `count` times the character that `unit` consists of.
pub fn repeat(unit: &str, count: usize) -> (r: String)
    requires
        unit@.len() == 1,
    ensures
        r@ == repeated(unit@[0], count as nat),
{
    let mut line = String::new();
    for i in 0..count
        invariant
            unit@.len() == 1,
            line@ =~= repeated(unit@[0], i as nat),
    {
        line.append(unit);
        assert(unit@ =~= seq![unit@[0]]);
    }
    line
}

/// The text, followed by spaces up to a width.
pub open spec fn padded(text: Seq<char>, width: nat) -> Seq<char> {
    if text.len() < width {
        text + repeated(' ', (width - text.len()) as nat)
    } else {
        text
    }
}

/// The text, followed by spaces up to a width.
pub fn pad(text: &str, width: usize) -> (r: String)
    ensures
        r@ == padded(text@, width as nat),
{
    let len: usize = text.unicode_len();
    if len < width {
        proof {
            reveal_strlit(" ");
        }
        text.to_owned().concat(repeat(" ", width - len).as_str())
    } else {
        text.to_owned()
    }
}

/// The line without a carriage return at its end.
pub open spec fn without_return(line: Seq<char>) -> Seq<char> {
    if line.len() > 0 && line.last() == '\r' {
        line.drop_last()
    } else {
        line
    }
}

/// The lines of a text: its parts between line feeds, without carriage returns at their ends. A
/// line feed at the very end starts no further line.
pub open spec fn lines(text: Seq<char>) -> Seq<Seq<char>> {
    let parts = split(text, '\n');
    if parts.last().len() == 0 {
        parts.drop_last().map_values(|line: Seq<char>| without_return(line))
    } else {
        parts.drop_last().map_values(|line: Seq<char>| without_return(line)).push(parts.last())
    }
}

/// The line without a carriage return at its end.
fn strip_return<'a>(line: &'a str) -> (r: &'a str)
    ensures
        r@ == without_return(line@),
{
    let len: usize = line.unicode_len();
    if len > 0 && line.get_char(len - 1) == '\r' {
        let shorter = line.substring_char(0, len - 1);
        assert(shorter@ =~= line@.drop_last());
        shorter
    } else {
        line
    }
}

/// The lines of a text.
pub fn lines_of<'a>(text: &'a str) -> (r: Vec<&'a str>)
    ensures
        str_texts(r@) == lines(text@),
{
    let parts = split_text(text, '\n');
    let ghost all = split(text@, '\n');
    proof {
        split_not_empty(text@, '\n');
        assert(str_texts(parts@) == all);
        assert(all.len() == parts@.len());
    }
    let last: usize = parts.len() - 1;
    let mut found: Vec<&str> = Vec::new();
    for i in 0..last
        invariant
            last + 1 == parts@.len(),
            all == str_texts(parts@),
            str_texts(found@) =~= all.take(i as int).map_values(
                |line: Seq<char>| without_return(line),
            ),
    {
        let ghost before = found@;
        let line = strip_return(parts[i]);
        found.push(line);
        assert(str_texts(found@) =~= str_texts(before).push(line@));
        assert(all[i as int] == parts@[i as int]@);
    }
    assert(all.take(last as int) =~= all.drop_last());
    assert(all.last() == parts@[last as int]@);
    if !parts[last].is_empty() {
        let ghost before = found@;
        found.push(parts[last]);
        assert(str_texts(found@) =~= str_texts(before).push(all.last()));
    }
    found
}

} // verus!
