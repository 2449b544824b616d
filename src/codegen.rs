use crate::validation::is_valid_code;
use rand::RngExt;
use vstd::prelude::*;

verus! {

/// Shortest generated code.
pub const MIN_GENERATED_LEN: usize = 6;

/// Longest generated code.
pub const MAX_GENERATED_LEN: usize = 8;

/// The number of symbols a generated code draws from.
pub const BASE62_LEN: usize = 62;

/// The 62 symbols of generated codes: digits, capitals, small letters.
pub open spec fn is_base62(c: char) -> bool {
    ('0' <= c && c <= '9') || ('A' <= c && c <= 'Z') || ('a' <= c && c <= 'z')
}

/// The shape of every generated code: 6 to 8 symbols of base 62.
pub open spec fn is_generated_shape(s: Seq<char>) -> bool {
    6 <= s.len() <= 8 && forall|i: int| 0 <= i < s.len() ==> is_base62(#[trigger] s[i])
}

/// Relies on `rand::rng` and `RngExt::random_range`: a value drawn from
/// `0..n`, which is not empty.
#[verifier::external_body]
fn random_below(n: usize) -> (r: usize)
    requires
        n > 0,
    ensures
        r < n,
{
    rand::rng().random_range(0..n)
}

/// Relies on `String::push`: `c` is appended.
#[verifier::external_body]
pub(crate) fn push_char(s: &mut String, c: char)
    ensures
        final(s)@ == old(s)@.push(c),
{
    s.push(c)
}

/// The symbol of base 62 at position `i`: the digits `0`-`9`, then the
/// capitals `A`-`Z`, then the small letters `a`-`z`.
pub open spec fn base62_at(i: int) -> int {
    if i < 10 {
        48 + i
    } else if i < 36 {
        55 + i
    } else {
        61 + i
    }
}

/// The symbol of base 62 at position `i`.
pub fn base62_char(i: usize) -> (c: char)
    requires
        i < 62,
    ensures
        c as int == base62_at(i as int),
        is_base62(c),
{
    if i < 10 {
        (48u8 + i as u8) as char
    } else if i < 36 {
        (65u8 + (i - 10) as u8) as char
    } else {
        (97u8 + (i - 36) as u8) as char
    }
}

/// The code that the draws make: `6 + len_draw` symbols, the `k`-th of them
/// the symbol of base 62 at position `draws[k]`.
pub fn code_from_draws(len_draw: usize, draws: &Vec<usize>) -> (r: String)
    requires
        len_draw < 3,
        draws@.len() == 6 + len_draw,
        forall|k: int| 0 <= k < draws@.len() ==> #[trigger] draws@[k] < 62,
    ensures
        r@.len() == 6 + len_draw,
        forall|k: int| 0 <= k < r@.len() ==> #[trigger] r@[k] as int == base62_at(draws@[k] as int),
        is_generated_shape(r@),
        is_valid_code(r@),
{
    let len = MIN_GENERATED_LEN + len_draw;
    let mut code = String::new();
    let mut i: usize = 0;
    while i < len
        invariant
            len == 6 + len_draw,
            len_draw < 3,
            draws@.len() == len,
            forall|k: int| 0 <= k < draws@.len() ==> #[trigger] draws@[k] < 62,
            i <= len,
            code@.len() == i,
            forall|j: int| 0 <= j < i ==> is_base62(#[trigger] code@[j]),
            forall|j: int| 0 <= j < i ==> #[trigger] code@[j] as int == base62_at(draws@[j] as int),
        decreases len - i,
    {
        let c = base62_char(draws[i]);
        push_char(&mut code, c);
        i = i + 1;
    }
    code
}

/// A fresh random code: a length drawn from 6 to 8, then each symbol drawn
/// from the 62 of base 62. Nothing here makes it unique.
pub fn generate_code() -> (r: String)
    ensures
        is_generated_shape(r@),
        is_valid_code(r@),
{
    let len_draw = random_below(MAX_GENERATED_LEN - MIN_GENERATED_LEN + 1);
    let mut draws: Vec<usize> = Vec::new();
    while draws.len() < MIN_GENERATED_LEN + len_draw
        invariant
            len_draw < 3,
            draws@.len() <= 6 + len_draw,
            forall|k: int| 0 <= k < draws@.len() ==> #[trigger] draws@[k] < 62,
        decreases 6 + len_draw - draws@.len(),
    {
        draws.push(random_below(BASE62_LEN));
    }
    code_from_draws(len_draw, &draws)
}

} // verus!
