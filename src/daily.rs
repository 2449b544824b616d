use crate::analytics::lemma_take_step;
use crate::models::Visit;
use crate::store::LinkStore;
use vstd::prelude::*;

verus! {

/// Seconds in a day.
pub const DAY_SECONDS: i64 = 86400;

/// The day (counted from 1970-01-01, UTC) that instant `t` falls on.
pub open spec fn day_of(t: int) -> int {
    t / 86400
}

/// Whether visit `v` is one of `code` at or after instant `from`.
pub open spec fn in_window(v: Visit, code: Seq<char>, from: int) -> bool {
    v.code@ == code && v.visited_at >= from
}

/// The number of visits of `code` since `from` that fall on `day`.
pub open spec fn day_count(vs: Seq<Visit>, code: Seq<char>, from: int, day: int) -> nat
    decreases vs.len(),
{
    if vs.len() == 0 {
        0
    } else if in_window(vs.last(), code, from) && day_of(vs.last().visited_at as int) == day {
        day_count(vs.drop_last(), code, from, day) + 1
    } else {
        day_count(vs.drop_last(), code, from, day)
    }
}

/// `rows` count the visits of `code` since `from` by day: one row for each
/// day with a visit, none twice, each with the number of visits on it.
pub open spec fn counts_days(rows: Seq<(i64, i64)>, vs: Seq<Visit>, code: Seq<char>, from: int) -> bool {
    &&& forall|i: int|
        0 <= i < rows.len() ==> #[trigger] rows[i].1 == day_count(vs, code, from, rows[i].0 as int)
            && rows[i].1 >= 1
    &&& forall|i: int, j: int| 0 <= i < j < rows.len() ==> (#[trigger] rows[i]).0 != (#[trigger] rows[j]).0
    &&& forall|k: int|
        0 <= k < vs.len() && in_window(#[trigger] vs[k], code, from) ==> exists|i: int|
            0 <= i < rows.len() && (#[trigger] rows[i]).0 == day_of(vs[k].visited_at as int)
}

/// Rows newest day first.
pub open spec fn by_day_desc(rows: Seq<(i64, i64)>) -> bool {
    forall|i: int, j: int| 0 <= i < j < rows.len() ==> (#[trigger] rows[i]).0 > (#[trigger] rows[j]).0
}

proof fn lemma_day_count_le(vs: Seq<Visit>, code: Seq<char>, from: int, day: int)
    ensures
        day_count(vs, code, from, day) <= vs.len(),
    decreases vs.len(),
{
    if vs.len() > 0 {
        lemma_day_count_le(vs.drop_last(), code, from, day);
    }
}

proof fn lemma_day_witness(vs: Seq<Visit>, code: Seq<char>, from: int, day: int)
    requires
        day_count(vs, code, from, day) > 0,
    ensures
        exists|q: int|
            0 <= q < vs.len() && in_window(#[trigger] vs[q], code, from) && day_of(vs[q].visited_at as int)
                == day,
    decreases vs.len(),
{
    let t = vs.drop_last();
    if in_window(vs.last(), code, from) && day_of(vs.last().visited_at as int) == day {
        assert(vs[vs.len() - 1] == vs.last());
    } else {
        lemma_day_witness(t, code, from, day);
        let q = choose|q: int|
            0 <= q < t.len() && in_window(#[trigger] t[q], code, from) && day_of(t[q].visited_at as int)
                == day;
        assert(vs[q] == t[q]);
    }
}

/// The day that instant `t` falls on.
pub fn day_number(t: i64) -> (d: i64)
    ensures
        d == day_of(t as int),
{
    if t >= 0 {
        t / DAY_SECONDS
    } else {
        let u: i64 = -(t + 1);
        let q: i64 = u / DAY_SECONDS;
        assert(-q - 1 == (t as int) / 86400) by (nonlinear_arith)
            requires
                u == -(t + 1),
                u >= 0,
                q == u / 86400,
        ;
        -q - 1
    }
}

/// Puts `rows` newest day first, as a permutation.
fn sort_by_day_desc(rows: &mut Vec<(i64, i64)>, vs: Ghost<Seq<Visit>>, code: Ghost<Seq<char>>, from: Ghost<int>)
    requires
        counts_days(old(rows)@, vs@, code@, from@),
    ensures
        counts_days(final(rows)@, vs@, code@, from@),
        by_day_desc(final(rows)@),
        final(rows)@.len() == old(rows)@.len(),
{
    let n = rows.len();
    let mut i: usize = 0;
    while i < n
        invariant
            n == rows@.len(),
            i <= n,
            counts_days(rows@, vs@, code@, from@),
            forall|a: int, b: int| 0 <= a < b < i ==> (#[trigger] rows@[a]).0 > (#[trigger] rows@[b]).0,
            forall|a: int, b: int| 0 <= a < i <= b < n ==> (#[trigger] rows@[a]).0 > (#[trigger] rows@[b]).0,
        decreases n - i,
    {
        let mut m: usize = i;
        let mut j: usize = i + 1;
        while j < n
            invariant
                n == rows@.len(),
                i <= m < n,
                i < j <= n,
                forall|b: int| i <= b < j ==> rows@[m as int].0 >= (#[trigger] rows@[b]).0,
            decreases n - j,
        {
            if rows[j].0 > rows[m].0 {
                m = j;
            }
            j = j + 1;
        }
        let ghost before = rows@;
        let a = rows[i];
        let b = rows[m];
        rows.set(i, b);
        rows.set(m, a);
        proof {
            let after = rows@;
            let sw = |x: int| if x == i {
                m as int
            } else if x == m {
                i as int
            } else {
                x
            };
            assert forall|x: int| 0 <= x < n implies #[trigger] after[x] == before[sw(x)] by {}
            let vsv = vs@;
            assert forall|x: int| 0 <= x < after.len() implies #[trigger] after[x].1 == day_count(
                vsv,
                code@,
                from@,
                after[x].0 as int,
            ) && after[x].1 >= 1 by {
                assert(after[x] == before[sw(x)]);
            }
            assert forall|x: int, y: int| 0 <= x < y < after.len() implies (#[trigger] after[x]).0
                != (#[trigger] after[y]).0 by {
                assert(after[x] == before[sw(x)]);
                assert(after[y] == before[sw(y)]);
                if sw(x) < sw(y) {
                    assert(before[sw(x)].0 != before[sw(y)].0);
                } else {
                    assert(before[sw(y)].0 != before[sw(x)].0);
                }
            }
            assert forall|k: int| 0 <= k < vsv.len() && in_window(#[trigger] vsv[k], code@, from@) implies exists|x: int|
                0 <= x < after.len() && (#[trigger] after[x]).0 == day_of(vsv[k].visited_at as int) by {
                let w = choose|w: int|
                    0 <= w < before.len() && (#[trigger] before[w]).0 == day_of(vsv[k].visited_at as int);
                assert(after[sw(w)] == before[w]);
            }
            assert forall|p: int, q: int| 0 <= p < q < i + 1 implies (#[trigger] after[p]).0 > (
            #[trigger] after[q]).0 by {
                assert(after[p] == before[sw(p)]);
                assert(after[q] == before[sw(q)]);
                assert(before[sw(p)].0 != before[sw(q)].0 || sw(p) == sw(q));
            }
            assert forall|p: int, q: int| 0 <= p < i + 1 <= q < n implies (#[trigger] after[p]).0 > (
            #[trigger] after[q]).0 by {
                assert(after[p] == before[sw(p)]);
                assert(after[q] == before[sw(q)]);
                assert(before[sw(p)].0 != before[sw(q)].0 || sw(p) == sw(q));
            }
        }
        i = i + 1;
    }
}

impl LinkStore {
    /// The visits of `code` at or after `from`, counted by day, newest day
    /// first; days without a visit are left out.
    pub fn visits_daily(&self, code: &str, from: i64) -> (r: Vec<(i64, i64)>)
        requires
            self.visit_log().len() <= i64::MAX,
        ensures
            counts_days(r@, self.visit_log(), code@, from as int),
            by_day_desc(r@),
    {
        let key = code.to_owned();
        let vs = &self.visits;
        let ghost f = from as int;
        let mut rows: Vec<(i64, i64)> = Vec::new();
        let mut k: usize = 0;
        while k < vs.len()
            invariant
                vs@ == self.visit_log(),
                vs@.len() <= i64::MAX,
                key@ == code@,
                f == from as int,
                k <= vs@.len(),
                counts_days(rows@, vs@.take(k as int), code@, f),
            decreases vs@.len() - k,
        {
            let ghost pre = vs@.take(k as int);
            let ghost cur = vs@.take(k + 1);
            proof {
                lemma_take_step(vs@, k as int);
            }
            let v = &vs[k];
            if v.code == key && v.visited_at >= from {
                let d = day_number(v.visited_at);
                let mut j: usize = 0;
                while j < rows.len() && rows[j].0 != d
                    invariant
                        j <= rows@.len(),
                        forall|x: int| 0 <= x < j ==> (#[trigger] rows@[x]).0 != d,
                    decreases rows@.len() - j,
                {
                    j = j + 1;
                }
                let ghost old_rows = rows@;
                if j < rows.len() {
                    proof {
                        lemma_day_count_le(pre, code@, f, d as int);
                    }
                    let row = (rows[j].0, rows[j].1 + 1);
                    rows.set(j, row);
                    proof {
                        assert forall|x: int| 0 <= x < rows@.len() implies #[trigger] rows@[x].1
                            == day_count(cur, code@, f, rows@[x].0 as int) && rows@[x].1 >= 1 by {
                            if x != j {
                                assert(rows@[x] == old_rows[x]);
                            }
                        }
                        assert forall|x: int, y: int| 0 <= x < y < rows@.len() implies (
                        #[trigger] rows@[x]).0 != (#[trigger] rows@[y]).0 by {
                            assert(rows@[x].0 == old_rows[x].0);
                            assert(rows@[y].0 == old_rows[y].0);
                        }
                        assert forall|q: int| 0 <= q < cur.len() && in_window(#[trigger] cur[q], code@, f) implies exists|x: int|
                            0 <= x < rows@.len() && (#[trigger] rows@[x]).0 == day_of(cur[q].visited_at as int) by {
                            if q < k {
                                assert(cur[q] == pre[q]);
                                let w = choose|w: int|
                                    0 <= w < old_rows.len() && (#[trigger] old_rows[w]).0 == day_of(pre[q].visited_at as int);
                                assert(rows@[w].0 == old_rows[w].0);
                            } else {
                                assert(rows@[j as int].0 == day_of(cur[q].visited_at as int));
                            }
                        }
                    }
                } else {
                    rows.push((d, 1));
                    proof {
                        assert(day_count(pre, code@, f, d as int) == 0) by {
                            if day_count(pre, code@, f, d as int) > 0 {
                                lemma_day_witness(pre, code@, f, d as int);
                                let q = choose|q: int|
                                    0 <= q < pre.len() && in_window(#[trigger] pre[q], code@, f) && day_of(
                                        pre[q].visited_at as int,
                                    ) == d as int;
                                let w = choose|w: int|
                                    0 <= w < old_rows.len() && (#[trigger] old_rows[w]).0 == day_of(pre[q].visited_at as int);
                            }
                        }
                        assert forall|x: int| 0 <= x < rows@.len() implies #[trigger] rows@[x].1
                            == day_count(cur, code@, f, rows@[x].0 as int) && rows@[x].1 >= 1 by {
                            if x < old_rows.len() {
                                assert(rows@[x] == old_rows[x]);
                            }
                        }
                        assert forall|x: int, y: int| 0 <= x < y < rows@.len() implies (
                        #[trigger] rows@[x]).0 != (#[trigger] rows@[y]).0 by {
                            assert(rows@[x] == old_rows[x]);
                            if y < old_rows.len() {
                                assert(rows@[y] == old_rows[y]);
                            }
                        }
                        assert forall|q: int| 0 <= q < cur.len() && in_window(#[trigger] cur[q], code@, f) implies exists|x: int|
                            0 <= x < rows@.len() && (#[trigger] rows@[x]).0 == day_of(cur[q].visited_at as int) by {
                            if q < k {
                                assert(cur[q] == pre[q]);
                                let w = choose|w: int|
                                    0 <= w < old_rows.len() && (#[trigger] old_rows[w]).0 == day_of(pre[q].visited_at as int);
                                assert(rows@[w] == old_rows[w]);
                            } else {
                                assert(rows@[old_rows.len() as int] == (d, 1i64));
                            }
                        }
                    }
                }
            } else {
                proof {
                    assert forall|q: int| 0 <= q < cur.len() && in_window(#[trigger] cur[q], code@, f) implies exists|x: int|
                        0 <= x < rows@.len() && (#[trigger] rows@[x]).0 == day_of(cur[q].visited_at as int) by {
                        assert(cur[q] == pre[q]);
                    }
                }
            }
            k = k + 1;
        }
        assert(vs@.take(vs@.len() as int) =~= vs@);
        sort_by_day_desc(&mut rows, Ghost(self.visit_log()), Ghost(code@), Ghost(from as int));
        rows
    }
}

} // verus!

verus! {

/// What chrono writes for the UTC date of instant `secs`, as `YYYY-MM-DD`;
/// empty for an instant it cannot represent.
pub uninterp spec fn date_label_of(secs: int) -> Seq<char>;

/// Relies on chrono's `DateTime::from_timestamp`, `DateTime::date_naive` and
/// the `Display` of `NaiveDate`: the UTC date of instant `secs`.
#[verifier::external_body]
pub(crate) fn date_label(secs: i64) -> (r: String)
    ensures
        r@ == date_label_of(secs as int),
{
    chrono::DateTime::from_timestamp(secs, 0).map(|d| d.date_naive().to_string()).unwrap_or_default()
}

} // verus!

verus! {

/// A day that has visits since `from` starts at an instant that an `i64`
/// holds, where `from` leaves room of a day below it.
pub proof fn lemma_day_in_range(vs: Seq<Visit>, code: Seq<char>, from: int, day: int)
    requires
        day_count(vs, code, from, day) > 0,
        from >= i64::MIN + 86400,
    ensures
        i64::MIN <= day * 86400 <= i64::MAX,
{
    lemma_day_witness(vs, code, from, day);
    let q = choose|q: int|
        0 <= q < vs.len() && in_window(#[trigger] vs[q], code, from) && day_of(vs[q].visited_at as int)
            == day;
    let t = vs[q].visited_at as int;
    assert(t - 86400 < day * 86400 <= t) by (nonlinear_arith)
        requires
            day == t / 86400,
    ;
}

} // verus!
