use crate::clock::reading_of;
use uuid::Uuid;
use vstd::prelude::*;

verus! {

/// Identifier of a job: the 128 bits of a UUID.
pub type JobId = u128;

/// The lower-case hexadecimal digit for `n`.
pub open spec fn hex_digit(n: int) -> char {
    if n < 10 {
        ('0' as int + n) as char
    } else {
        ('a' as int + n - 10) as char
    }
}

/// The `k`-th hexadecimal digit of `id`, counted from the most significant of thirty-two.
pub open spec fn id_digit(id: JobId, k: int) -> char {
    hex_digit(id as int / vstd::arithmetic::power::pow(16, (31 - k) as nat) % 16)
}

/// The thirty-two hexadecimal digits of `id`.
pub open spec fn simple_id_text(id: JobId) -> Seq<char> {
    Seq::new(32, |k: int| id_digit(id, k))
}

/// The digits of `id` in groups of eight, four, four, four and twelve, joined by hyphens.
pub open spec fn job_id_text(id: JobId) -> Seq<char> {
    let d = simple_id_text(id);
    d.subrange(0, 8) + seq!['-'] + d.subrange(8, 12) + seq!['-'] + d.subrange(12, 16) + seq!['-']
        + d.subrange(16, 20) + seq!['-'] + d.subrange(20, 32)
}

/// What `Uuid::parse_str` reads in a text: the identifier, or `None` for a text it rejects.
pub uninterp spec fn parsed_job_id(text: Seq<char>) -> Option<u128>;

/// Calls `Uuid::new_v4`. The identifier is random but for the version nibble, which is 4, and the
/// two variant bits, which are binary 10.
#[verifier::external_body]
pub(crate) fn new_job_id() -> (r: JobId)
    ensures
        r as int / 0x1000_0000_0000_0000_0000 % 16 == 4,
        r as int / 0x4000_0000_0000_0000 % 4 == 2,
{
    Uuid::new_v4().as_u128()
}

/// `id` is one that was drawn at random.
pub closed spec fn drawn_at_random(id: JobId) -> bool {
    call_ensures(new_job_id, (), id)
}

/// Draws an identifier at random.
pub(crate) fn draw_job_id() -> (r: JobId)
    ensures
        drawn_at_random(r),
{
    reading_of(new_job_id)
}

/// Identifiers that were drawn came back from `new_job_id`: they are version 4 UUIDs of the usual
/// variant.
pub(crate) proof fn drawn_ids_come_from_the_generator(id: JobId)
    requires
        drawn_at_random(id),
    ensures
        call_ensures(new_job_id, (), id),
        id as int / 0x1000_0000_0000_0000_0000 % 16 == 4,
        id as int / 0x4000_0000_0000_0000 % 4 == 2,
{
}

/// Calls `Uuid::parse_str`. The result is named; of its value only this is said here: a text
/// whose length in bytes is that of none of the four accepted notations is rejected.
#[verifier::external_body]
pub(crate) fn parse_job_id(text: &str) -> (r: Option<JobId>)
    ensures
        r == parsed_job_id(text@),
        !(seq![32nat, 36, 38, 45].contains(vstd::utf8::encode_utf8(text@).len())) ==> r is None,
{
    Uuid::parse_str(text).ok().map(|id| id.as_u128())
}

/// Calls `Uuid`'s `to_string`, the hyphenated notation in lower case. `Uuid::parse_str` reads that
/// text back as the same identifier.
#[verifier::external_body]
pub(crate) fn job_id_to_string(id: JobId) -> (r: String)
    ensures
        r@ == job_id_text(id),
        parsed_job_id(r@) == Some(id),
{
    Uuid::from_u128(id).to_string()
}

/// Calls `Uuid::as_simple` and writes it out: thirty-two lower-case digits.
#[verifier::external_body]
pub(crate) fn simple_job_id(id: JobId) -> (r: String)
    ensures
        r@ == simple_id_text(id),
{
    Uuid::from_u128(id).as_simple().to_string()
}

/// Doubling the exponent squares the power.
proof fn squared(n: nat, value: int)
    requires
        vstd::arithmetic::power::pow(16, n) == value,
    ensures
        vstd::arithmetic::power::pow(16, n + n) == value * value,
{
    vstd::arithmetic::power::lemma_pow_adds(16, n, n);
}

/// Sixteen to the thirty-second power is the number of identifiers.
proof fn digits_cover_ids()
    ensures
        vstd::arithmetic::power::pow(16, 32) == 0x1_0000_0000_0000_0000_0000_0000_0000_0000int,
{
    vstd::arithmetic::power::lemma_pow1(16);
    squared(1, 16);
    squared(2, 0x100);
    squared(4, 0x1_0000);
    squared(8, 0x1_0000_0000);
    squared(16, 0x1_0000_0000_0000_0000);
}

/// Identifiers with the same last `n` digits are the same as far as these digits reach.
proof fn same_digits(a: JobId, b: JobId, n: nat)
    requires
        simple_id_text(a) == simple_id_text(b),
        n <= 32,
    ensures
        a as int % vstd::arithmetic::power::pow(16, n) == b as int
            % vstd::arithmetic::power::pow(16, n),
    decreases n,
{
    let p = vstd::arithmetic::power::pow(16, n);
    vstd::arithmetic::power::lemma_pow_positive(16, n);
    if n == 0 {
        vstd::arithmetic::power::lemma_pow0(16);
    } else {
        let m = (n - 1) as nat;
        let q = vstd::arithmetic::power::pow(16, m);
        same_digits(a, b, m);
        vstd::arithmetic::power::lemma_pow_positive(16, m);
        vstd::arithmetic::power::lemma_pow_adds(16, m, 1);
        vstd::arithmetic::power::lemma_pow1(16);
        vstd::arithmetic::div_mod::lemma_mod_breakdown(a as int, q, 16);
        vstd::arithmetic::div_mod::lemma_mod_breakdown(b as int, q, 16);
        let k = 31 - m;
        assert(simple_id_text(a)[k] == id_digit(a, k));
        assert(simple_id_text(b)[k] == id_digit(b, k));
        let x = a as int / q % 16;
        let y = b as int / q % 16;
        assert(hex_digit(x) == hex_digit(y));
        assert(x == y);
    }
}

/// Different jobs have different texts.
pub proof fn id_text_is_unique(a: JobId, b: JobId)
    requires
        simple_id_text(a) == simple_id_text(b),
    ensures
        a == b,
{
    digits_cover_ids();
    same_digits(a, b, 32);
    vstd::arithmetic::div_mod::lemma_small_mod(
        a as nat,
        0x1_0000_0000_0000_0000_0000_0000_0000_0000nat,
    );
    vstd::arithmetic::div_mod::lemma_small_mod(
        b as nat,
        0x1_0000_0000_0000_0000_0000_0000_0000_0000nat,
    );
}

} // verus!
