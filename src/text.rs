use vstd::prelude::*;
use vstd::std_specs::iter::IteratorSpec;

verus! {

/// The characters that `char::is_whitespace` accepts: those of Unicode's
/// `White_Space` property.
pub open spec fn is_space(c: char) -> bool {
    ('\u{9}' <= c && c <= '\u{d}') || c == ' ' || c == '\u{85}' || c == '\u{a0}' || c == '\u{1680}'
        || ('\u{2000}' <= c && c <= '\u{200a}') || c == '\u{2028}' || c == '\u{2029}'
        || c == '\u{202f}' || c == '\u{205f}' || c == '\u{3000}'
}

pub fn space_char(c: char) -> (r: bool)
    ensures
        r == is_space(c),
{
    ('\u{9}' <= c && c <= '\u{d}') || c == ' ' || c == '\u{85}' || c == '\u{a0}' || c == '\u{1680}'
        || ('\u{2000}' <= c && c <= '\u{200a}') || c == '\u{2028}' || c == '\u{2029}'
        || c == '\u{202f}' || c == '\u{205f}' || c == '\u{3000}'
}

/// `s` without its leading white space.
pub open spec fn trim_start(s: Seq<char>) -> Seq<char>
    decreases s.len(),
{
    if s.len() > 0 && is_space(s[0]) {
        trim_start(s.drop_first())
    } else {
        s
    }
}

/// `s` without its trailing white space.
pub open spec fn trim_end(s: Seq<char>) -> Seq<char>
    decreases s.len(),
{
    if s.len() > 0 && is_space(s.last()) {
        trim_end(s.drop_last())
    } else {
        s
    }
}

/// `s` without white space at either end, as `str::trim` gives it.
pub open spec fn trim(s: Seq<char>) -> Seq<char> {
    trim_end(trim_start(s))
}

/// The value of a string of decimal digits.
pub open spec fn digits_value(s: Seq<char>) -> int
    decreases s.len(),
{
    if s.len() == 0 {
        0
    } else {
        digits_value(s.drop_last()) * 10 + (s.last() as int - '0' as int)
    }
}

pub open spec fn is_digit(c: char) -> bool {
    '0' <= c && c <= '9'
}

pub open spec fn all_digits(s: Seq<char>) -> bool {
    forall|i: int| 0 <= i < s.len() ==> is_digit(#[trigger] s[i])
}

/// Whether `s` is one or more decimal digits.
pub open spec fn is_numeral(s: Seq<char>) -> bool {
    s.len() > 0 && all_digits(s)
}

/// What `i64::from_str` returns: an optional sign, then one or more digits,
/// whose value fits in an `i64`.
pub open spec fn i64_of(s: Seq<char>) -> Option<int> {
    let v = if s.len() > 0 && s[0] == '-' && is_numeral(s.drop_first()) {
        Some(-digits_value(s.drop_first()))
    } else if s.len() > 0 && s[0] == '+' && is_numeral(s.drop_first()) {
        Some(digits_value(s.drop_first()))
    } else if is_numeral(s) {
        Some(digits_value(s))
    } else {
        None
    };
    match v {
        Some(x) => if i64::MIN <= x <= i64::MAX {
            Some(x)
        } else {
            None
        },
        None => None,
    }
}

/// What `u64::from_str` returns: an optional `+`, then one or more digits,
/// whose value fits in a `u64`.
pub open spec fn u64_of(s: Seq<char>) -> Option<int> {
    let v = if s.len() > 0 && s[0] == '+' && is_numeral(s.drop_first()) {
        Some(digits_value(s.drop_first()))
    } else if is_numeral(s) {
        Some(digits_value(s))
    } else {
        None
    };
    match v {
        Some(x) => if x <= u64::MAX {
            Some(x)
        } else {
            None
        },
        None => None,
    }
}

/// Whether `s` contains `pat` as a contiguous piece.
pub open spec fn contains(s: Seq<char>, pat: Seq<char>) -> bool {
    exists|i: int| 0 <= i <= s.len() - pat.len() && #[trigger] s.subrange(i, i + pat.len()) == pat
}

/// The characters of `s`, one by one.
pub fn chars_of(s: &str) -> (r: Vec<char>)
    ensures
        r@ == s@,
{
    broadcast use vstd::string::axiom_spec_iter, vstd::string::next_postcondition;

    let mut it = s.chars();
    let mut out: Vec<char> = Vec::new();
    assert(s@.skip(0) =~= s@);
    loop
        invariant_except_break
            it.obeys_prophetic_iter_laws(),
            out@.len() <= s@.len(),
            it.remaining() == s@.skip(out@.len() as int),
            out@ == s@.take(out@.len() as int),
        ensures
            out@ == s@,
        decreases s@.len() - out@.len(),
    {
        match it.next() {
            Some(c) => {
                out.push(c);
                assert(out@ =~= s@.take(out@.len() as int));
            },
            None => {
                assert(out@ =~= s@);
                break;
            },
        }
    }
    out
}

proof fn lemma_trim_start_skip(s: Seq<char>, i: int)
    requires
        0 <= i < s.len(),
        is_space(s[i]),
    ensures
        trim_start(s.skip(i)) == trim_start(s.skip(i + 1)),
{
    assert(s.skip(i).drop_first() =~= s.skip(i + 1));
}

proof fn lemma_trim_end_take(s: Seq<char>, j: int)
    requires
        0 < j <= s.len(),
        is_space(s[j - 1]),
    ensures
        trim_end(s.take(j)) == trim_end(s.take(j - 1)),
{
    assert(s.take(j).drop_last() =~= s.take(j - 1));
}

/// The bounds `(a, b)` of `trim(s)` within `s`.
pub fn trim_bounds(s: &Vec<char>) -> (r: (usize, usize))
    ensures
        r.0 <= r.1 <= s@.len(),
        s@.subrange(r.0 as int, r.1 as int) == trim(s@),
{
    let n = s.len();
    let mut a: usize = 0;
    assert(s@.skip(0) =~= s@);
    while a < n && space_char(s[a])
        invariant
            a <= n == s@.len(),
            trim_start(s@) == trim_start(s@.skip(a as int)),
        decreases n - a,
    {
        proof {
            lemma_trim_start_skip(s@, a as int);
        }
        a = a + 1;
    }
    let ghost t = s@.skip(a as int);
    assert(trim_start(s@) == t) by {
        assert(trim_start(s@) == trim_start(s@.skip(a as int)));
        if a < n {
            assert(!is_space(t[0]));
        } else {
            assert(t.len() == 0);
        }
    }
    let mut b: usize = n;
    assert(t.take(n - a) =~= t);
    while b > a && space_char(s[b - 1])
        invariant
            a <= b <= n == s@.len(),
            t == s@.skip(a as int),
            trim_end(t) == trim_end(t.take(b - a)),
        decreases b,
    {
        proof {
            lemma_trim_end_take(t, (b - a) as int);
        }
        b = b - 1;
    }
    assert(t.take(b - a) =~= s@.subrange(a as int, b as int));
    proof {
        let u = t.take(b - a);
        if b > a {
            assert(u.last() == s@[b - 1]);
        }
        assert(trim_end(u) == u);
    }
    (a, b)
}

/// The value of the digits `s[from..to]`, when it is at most `limit`.
fn digits_within(s: &Vec<char>, from: usize, to: usize, limit: u64) -> (r: Option<u64>)
    requires
        from <= to <= s@.len(),
    ensures
        r matches Some(v) ==> is_numeral(s@.subrange(from as int, to as int)) && v == digits_value(
            s@.subrange(from as int, to as int),
        ) && v <= limit,
        r is None ==> !is_numeral(s@.subrange(from as int, to as int)) || digits_value(
            s@.subrange(from as int, to as int),
        ) > limit,
{
    let ghost d = s@.subrange(from as int, to as int);
    if from == to {
        return None;
    }
    let mut k: usize = from;
    while k < to
        invariant
            from <= k <= to <= s@.len(),
            d == s@.subrange(from as int, to as int),
            forall|i: int| from <= i < k ==> is_digit(#[trigger] s@[i]),
        decreases to - k,
    {
        if !('0' <= s[k] && s[k] <= '9') {
            assert(d[k - from] == s@[k as int]);
            return None;
        }
        k = k + 1;
    }
    assert(all_digits(d)) by {
        assert forall|i: int| 0 <= i < d.len() implies is_digit(#[trigger] d[i]) by {
            assert(d[i] == s@[from + i]);
        }
    }
    let mut v: u64 = 0;
    let mut k: usize = from;
    while k < to
        invariant
            from <= k <= to <= s@.len(),
            d == s@.subrange(from as int, to as int),
            all_digits(d),
            v == digits_value(d.take(k - from)),
            v <= limit,
        decreases to - k,
    {
        let ghost p = d.take(k + 1 - from);
        assert(p.drop_last() =~= d.take(k - from));
        assert(p.last() == s@[k as int]);
        assert(is_digit(d[k - from]));
        let digit: u64 = (s[k] as u32 - '0' as u32) as u64;
        if digit > limit || v > (limit - digit) / 10 {
            proof {
                lemma_digits_prefix_le(d, k + 1 - from);
                assert(v * 10 + digit > limit) by (nonlinear_arith)
                    requires
                        digit > limit || v > (limit - digit) / 10,
                        digit <= 9,
                ;
            }
            return None;
        }
        assert(v * 10 + digit <= limit) by (nonlinear_arith)
            requires
                digit <= limit,
                v <= (limit - digit) / 10,
        ;
        v = v * 10 + digit;
        k = k + 1;
    }
    assert(d.take(to - from) =~= d);
    Some(v)
}

proof fn lemma_digits_nonneg(s: Seq<char>)
    requires
        all_digits(s),
    ensures
        digits_value(s) >= 0,
    decreases s.len(),
{
    if s.len() > 0 {
        assert(all_digits(s.drop_last())) by {
            assert forall|i: int| 0 <= i < s.drop_last().len() implies is_digit(
                #[trigger] s.drop_last()[i],
            ) by {
                assert(s.drop_last()[i] == s[i]);
            }
        }
        lemma_digits_nonneg(s.drop_last());
        assert(is_digit(s[s.len() - 1]));
    }
}

/// A numeral is worth at least as much as any of its prefixes.
proof fn lemma_digits_prefix_le(s: Seq<char>, k: int)
    requires
        all_digits(s),
        0 <= k <= s.len(),
    ensures
        digits_value(s.take(k)) <= digits_value(s),
    decreases s.len(),
{
    if k < s.len() {
        let t = s.drop_last();
        assert(all_digits(t)) by {
            assert forall|i: int| 0 <= i < t.len() implies is_digit(#[trigger] t[i]) by {
                assert(t[i] == s[i]);
            }
        }
        assert(t.take(k) =~= s.take(k));
        lemma_digits_prefix_le(t, k);
        lemma_digits_nonneg(t);
        assert(is_digit(s[s.len() - 1]));
    } else {
        assert(s.take(k) =~= s);
    }
}

/// Parses `s[from..to]` as `i64::from_str` does.
pub fn parse_i64(s: &Vec<char>, from: usize, to: usize) -> (r: Option<i64>)
    requires
        from <= to <= s@.len(),
    ensures
        match r {
            Some(v) => i64_of(s@.subrange(from as int, to as int)) == Some(v as int),
            None => i64_of(s@.subrange(from as int, to as int)) is None,
        },
{
    let ghost w = s@.subrange(from as int, to as int);
    if from < to && (s[from] == '-' || s[from] == '+') {
        assert(w[0] == s@[from as int]);
        assert(w.drop_first() =~= s@.subrange(from + 1, to as int));
        if s[from] == '-' {
            match digits_within(s, from + 1, to, 9223372036854775808u64) {
                Some(m) => {
                    let v: i64 = if m == 9223372036854775808u64 {
                        i64::MIN
                    } else {
                        -(m as i64)
                    };
                    Some(v)
                },
                None => None,
            }
        } else {
            match digits_within(s, from + 1, to, 9223372036854775807u64) {
                Some(m) => Some(m as i64),
                None => None,
            }
        }
    } else {
        match digits_within(s, from, to, 9223372036854775807u64) {
            Some(m) => Some(m as i64),
            None => {
                proof {
                    if is_numeral(w) {
                        lemma_digits_nonneg(w);
                    }
                }
                None
            },
        }
    }
}

/// Parses `s[from..to]` as `u64::from_str` does.
pub fn parse_u64(s: &Vec<char>, from: usize, to: usize) -> (r: Option<u64>)
    requires
        from <= to <= s@.len(),
    ensures
        match r {
            Some(v) => u64_of(s@.subrange(from as int, to as int)) == Some(v as int),
            None => u64_of(s@.subrange(from as int, to as int)) is None,
        },
{
    let ghost w = s@.subrange(from as int, to as int);
    if from < to && s[from] == '+' {
        assert(w[0] == s@[from as int]);
        assert(w.drop_first() =~= s@.subrange(from + 1, to as int));
        digits_within(s, from + 1, to, u64::MAX)
    } else {
        let r = digits_within(s, from, to, u64::MAX);
        if from < to {
            assert(w[0] == s@[from as int]);
        }
        r
    }
}

/// Whether `s` contains `pat`.
pub fn contains_seq(s: &Vec<char>, pat: &Vec<char>) -> (r: bool)
    ensures
        r == contains(s@, pat@),
{
    let n = s.len();
    let m = pat.len();
    if m > n {
        return false;
    }
    let mut i: usize = 0;
    while i <= n - m
        invariant
            m <= n == s@.len(),
            m == pat@.len(),
            forall|j: int| 0 <= j < i ==> #[trigger] s@.subrange(j, j + m) != pat@,
        decreases n - m + 1 - i,
    {
        let mut k: usize = 0;
        while k < m && s[i + k] == pat[k]
            invariant
                k <= m,
                i <= n - m,
                m <= n == s@.len(),
                m == pat@.len(),
                forall|t: int| 0 <= t < k ==> s@[i + t] == pat@[t],
            decreases m - k,
        {
            k = k + 1;
        }
        if k == m {
            assert(s@.subrange(i as int, i + m) =~= pat@);
            return true;
        }
        assert(s@.subrange(i as int, i + m)[k as int] != pat@[k as int]);
        i = i + 1;
    }
    false
}

} // verus!
