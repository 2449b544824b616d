use crate::codegen::push_char;
use crate::text::{chars_of, trim, trim_bounds};
use vstd::prelude::*;

verus! {

/// `s` up to its first comma.
pub open spec fn before_comma(s: Seq<char>) -> Seq<char>
    decreases s.len(),
{
    if s.len() == 0 || s[0] == ',' {
        Seq::empty()
    } else {
        seq![s[0]] + before_comma(s.drop_first())
    }
}

/// The address a visit is recorded under: the first entry of the client's
/// `X-Forwarded-For` header, trimmed; else its `X-Real-IP` header, trimmed;
/// else the peer address. Empty values are passed over. This is not the key
/// of the rate limiter, which also reads the generic `Forwarded` header.
pub open spec fn client_key_of(
    forwarded_for: Option<Seq<char>>,
    real_ip: Option<Seq<char>>,
    peer: Seq<char>,
) -> Seq<char> {
    let first = match forwarded_for {
        Some(f) => trim(before_comma(f)),
        None => Seq::empty(),
    };
    let real_part = match real_ip {
        Some(r) => trim(r),
        None => Seq::empty(),
    };
    if first.len() > 0 {
        first
    } else if real_part.len() > 0 {
        real_part
    } else {
        peer
    }
}

/// The characters `s[a..b]` as a string.
fn string_of(s: &Vec<char>, a: usize, b: usize) -> (r: String)
    requires
        a <= b <= s@.len(),
    ensures
        r@ == s@.subrange(a as int, b as int),
{
    let mut out = String::new();
    let mut i: usize = a;
    while i < b
        invariant
            a <= i <= b <= s@.len(),
            out@ == s@.subrange(a as int, i as int),
        decreases b - i,
    {
        push_char(&mut out, s[i]);
        assert(out@ =~= s@.subrange(a as int, i + 1));
        i = i + 1;
    }
    out
}

/// `s` up to its first comma, trimmed.
fn first_entry(s: &str) -> (r: String)
    ensures
        r@ == trim(before_comma(s@)),
{
    let cs = chars_of(s);
    let mut k: usize = 0;
    assert(cs@.skip(0) =~= cs@);
    assert(cs@.take(0) + before_comma(cs@.skip(0)) =~= before_comma(cs@));
    while k < cs.len() && cs[k] != ','
        invariant
            k <= cs@.len(),
            before_comma(cs@) == cs@.take(k as int) + before_comma(cs@.skip(k as int)),
        decreases cs@.len() - k,
    {
        let ghost rest = cs@.skip(k as int);
        assert(rest.drop_first() =~= cs@.skip(k + 1));
        assert(cs@.take(k as int) + seq![cs@[k as int]] =~= cs@.take(k + 1));
        assert(cs@.take(k as int) + (seq![rest[0]] + before_comma(rest.drop_first())) =~= cs@.take(
            k + 1,
        ) + before_comma(cs@.skip(k + 1)));
        k = k + 1;
    }
    assert(before_comma(cs@.skip(k as int)) =~= Seq::<char>::empty());
    assert(cs@.take(k as int) + Seq::<char>::empty() =~= cs@.take(k as int));
    let head = string_of(&cs, 0, k);
    assert(head@ =~= before_comma(s@));
    let hs = chars_of(head.as_str());
    let (a, b) = trim_bounds(&hs);
    string_of(&hs, a, b)
}

/// The trimmed `s`.
fn trimmed(s: &str) -> (r: String)
    ensures
        r@ == trim(s@),
{
    let cs = chars_of(s);
    let (a, b) = trim_bounds(&cs);
    string_of(&cs, a, b)
}

/// The address a visit is recorded under, as [`client_key_of`] states it.
pub fn client_key(forwarded_for: Option<&str>, real_ip: Option<&str>, peer: &str) -> (r: String)
    ensures
        r@ == client_key_of(
            match forwarded_for {
                Some(f) => Some(f@),
                None => None,
            },
            match real_ip {
                Some(x) => Some(x@),
                None => None,
            },
            peer@,
        ),
{
    let first = match forwarded_for {
        Some(f) => first_entry(f),
        None => String::new(),
    };
    if first.unicode_len() > 0 {
        return first;
    }
    let real_part = match real_ip {
        Some(x) => trimmed(x),
        None => String::new(),
    };
    if real_part.unicode_len() > 0 {
        return real_part;
    }
    peer.to_owned()
}

} // verus!
