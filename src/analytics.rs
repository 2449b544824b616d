use crate::models::{Visit, VisitRow};
use crate::store::LinkStore;
use vstd::prelude::*;

verus! {

/// The view of an optional string.
pub open spec fn opt_chars(o: Option<String>) -> Option<Seq<char>> {
    match o {
        Some(s) => Some(s@),
        None => None,
    }
}

/// The value a visit is grouped under: its referer, or else its country.
pub open spec fn group_key(v: Visit, by_referer: bool) -> Option<Seq<char>> {
    if by_referer {
        opt_chars(v.referer)
    } else {
        opt_chars(v.country)
    }
}

/// The number of visits of `code` among `vs`.
pub open spec fn visit_count(vs: Seq<Visit>, code: Seq<char>) -> nat
    decreases vs.len(),
{
    if vs.len() == 0 {
        0
    } else if vs.last().code@ == code {
        visit_count(vs.drop_last(), code) + 1
    } else {
        visit_count(vs.drop_last(), code)
    }
}

/// The number of visits of `code` among `vs` grouped under `key`.
pub open spec fn group_count(vs: Seq<Visit>, code: Seq<char>, by_referer: bool, key: Option<Seq<char>>) -> nat
    decreases vs.len(),
{
    if vs.len() == 0 {
        0
    } else if vs.last().code@ == code && group_key(vs.last(), by_referer) == key {
        group_count(vs.drop_last(), code, by_referer, key) + 1
    } else {
        group_count(vs.drop_last(), code, by_referer, key)
    }
}

/// `rows` count the visits of `code` by group: one row for each value that
/// occurs, none twice, each with the number of visits under it.
pub open spec fn counts_groups(
    rows: Seq<(Option<String>, i64)>,
    vs: Seq<Visit>,
    code: Seq<char>,
    by_referer: bool,
) -> bool {
    &&& forall|i: int|
        0 <= i < rows.len() ==> #[trigger] rows[i].1 == group_count(
            vs,
            code,
            by_referer,
            opt_chars(rows[i].0),
        ) && rows[i].1 >= 1
    &&& forall|i: int, j: int|
        0 <= i < j < rows.len() ==> opt_chars(#[trigger] rows[i].0) != opt_chars(#[trigger] rows[j].0)
    &&& forall|k: int|
        0 <= k < vs.len() && (#[trigger] vs[k]).code@ == code ==> exists|i: int|
            0 <= i < rows.len() && opt_chars(#[trigger] rows[i].0) == group_key(vs[k], by_referer)
}

/// Rows in descending order of their counts.
pub open spec fn by_count_desc(rows: Seq<(Option<String>, i64)>) -> bool {
    forall|i: int, j: int| 0 <= i < j < rows.len() ==> (#[trigger] rows[i]).1 >= (#[trigger] rows[j]).1
}

proof fn lemma_count_le(vs: Seq<Visit>, code: Seq<char>, by_referer: bool, key: Option<Seq<char>>)
    ensures
        group_count(vs, code, by_referer, key) <= vs.len(),
        visit_count(vs, code) <= vs.len(),
    decreases vs.len(),
{
    if vs.len() > 0 {
        lemma_count_le(vs.drop_last(), code, by_referer, key);
    }
}

pub(crate) proof fn lemma_take_step(vs: Seq<Visit>, k: int)
    requires
        0 <= k < vs.len(),
    ensures
        vs.take(k + 1).drop_last() == vs.take(k),
        vs.take(k + 1).last() == vs[k],
{
    assert(vs.take(k + 1).drop_last() =~= vs.take(k));
}

fn opt_same(a: &Option<String>, b: &Option<String>) -> (r: bool)
    ensures
        r == (opt_chars(*a) == opt_chars(*b)),
{
    match (a, b) {
        (Some(x), Some(y)) => *x == *y,
        (None, None) => true,
        _ => false,
    }
}

fn copy_opt(o: &Option<String>) -> (r: Option<String>)
    ensures
        r == *o,
{
    match o {
        Some(s) => Some(s.clone()),
        None => None,
    }
}

fn copy_row(r: &(Option<String>, i64)) -> (c: (Option<String>, i64))
    ensures
        c == *r,
{
    (copy_opt(&r.0), r.1)
}

/// Puts `rows` in descending order of their counts, as a permutation.
fn sort_by_count_desc(rows: &mut Vec<(Option<String>, i64)>, vs: Ghost<Seq<Visit>>, code: Ghost<Seq<char>>, by_referer: bool)
    requires
        counts_groups(old(rows)@, vs@, code@, by_referer),
    ensures
        counts_groups(final(rows)@, vs@, code@, by_referer),
        by_count_desc(final(rows)@),
        final(rows)@.len() == old(rows)@.len(),
{
    let n = rows.len();
    let mut i: usize = 0;
    while i < n
        invariant
            n == rows@.len(),
            i <= n,
            counts_groups(rows@, vs@, code@, by_referer),
            forall|a: int, b: int| 0 <= a < b < i ==> (#[trigger] rows@[a]).1 >= (#[trigger] rows@[b]).1,
            forall|a: int, b: int| 0 <= a < i <= b < n ==> (#[trigger] rows@[a]).1 >= (#[trigger] rows@[b]).1,
        decreases n - i,
    {
        let mut m: usize = i;
        let mut j: usize = i + 1;
        while j < n
            invariant
                n == rows@.len(),
                i <= m < n,
                i < j <= n,
                forall|b: int| i <= b < j ==> rows@[m as int].1 >= (#[trigger] rows@[b]).1,
            decreases n - j,
        {
            if rows[j].1 > rows[m].1 {
                m = j;
            }
            j = j + 1;
        }
        let ghost before = rows@;
        let a = copy_row(&rows[i]);
        let b = copy_row(&rows[m]);
        rows.set(i, b);
        rows.set(m, a);
        proof {
            let after = rows@;
            let sw = |x: int| if x == i {
                m as int
            } else if x == m {
                i as int
            } else {
                x
            };
            assert forall|x: int| 0 <= x < n implies #[trigger] after[x] == before[sw(x)] by {}
            let vsv = vs@;
            let c = code@;
            assert forall|x: int| 0 <= x < after.len() implies #[trigger] after[x].1 == group_count(
                vsv,
                c,
                by_referer,
                opt_chars(after[x].0),
            ) && after[x].1 >= 1 by {
                assert(after[x] == before[sw(x)]);
            }
            assert forall|x: int, y: int| 0 <= x < y < after.len() implies opt_chars(
                #[trigger] after[x].0,
            ) != opt_chars(#[trigger] after[y].0) by {
                assert(after[x] == before[sw(x)]);
                assert(after[y] == before[sw(y)]);
                if sw(x) < sw(y) {
                    assert(opt_chars(before[sw(x)].0) != opt_chars(before[sw(y)].0));
                } else {
                    assert(opt_chars(before[sw(y)].0) != opt_chars(before[sw(x)].0));
                }
            }
            assert forall|k: int| 0 <= k < vsv.len() && (#[trigger] vsv[k]).code@ == c implies exists|x: int|
                0 <= x < after.len() && opt_chars(#[trigger] after[x].0) == group_key(vsv[k], by_referer) by {
                let w = choose|w: int|
                    0 <= w < before.len() && opt_chars(#[trigger] before[w].0) == group_key(vsv[k], by_referer);
                assert(after[sw(w)] == before[w]);
            }
            assert forall|p: int, q: int| 0 <= p < q < i + 1 implies (#[trigger] after[p]).1 >= (
            #[trigger] after[q]).1 by {
                assert(after[p] == before[sw(p)]);
                assert(after[q] == before[sw(q)]);
            }
            assert forall|p: int, q: int| 0 <= p < i + 1 <= q < n implies (#[trigger] after[p]).1 >= (
            #[trigger] after[q]).1 by {
                assert(after[p] == before[sw(p)]);
                assert(after[q] == before[sw(q)]);
            }
        }
        i = i + 1;
    }
}

impl LinkStore {
    /// The number of visits recorded for `code`.
    pub fn count_visits(&self, code: &str) -> (r: i64)
        requires
            self.visit_log().len() <= i64::MAX,
        ensures
            r == visit_count(self.visit_log(), code@),
    {
        let key = code.to_owned();
        let vs = &self.visits;
        let mut c: i64 = 0;
        let mut k: usize = 0;
        while k < vs.len()
            invariant
                vs@ == self.visit_log(),
                vs@.len() <= i64::MAX,
                key@ == code@,
                k <= vs@.len(),
                c == visit_count(vs@.take(k as int), code@),
            decreases vs@.len() - k,
        {
            proof {
                lemma_take_step(vs@, k as int);
                lemma_count_le(vs@.take(k as int), code@, false, None);
            }
            if vs[k].code == key {
                c = c + 1;
            }
            k = k + 1;
        }
        assert(vs@.take(vs@.len() as int) =~= vs@);
        c
    }

    /// The visits of `code` counted by country (or by referer), the largest
    /// group first; an absent value is a group of its own.
    fn group_visits(&self, code: &str, by_referer: bool) -> (r: Vec<(Option<String>, i64)>)
        requires
            self.visit_log().len() <= i64::MAX,
        ensures
            counts_groups(r@, self.visit_log(), code@, by_referer),
            by_count_desc(r@),
    {
        let key = code.to_owned();
        let vs = &self.visits;
        let mut rows: Vec<(Option<String>, i64)> = Vec::new();
        let mut k: usize = 0;
        while k < vs.len()
            invariant
                vs@ == self.visit_log(),
                vs@.len() <= i64::MAX,
                key@ == code@,
                k <= vs@.len(),
                counts_groups(rows@, vs@.take(k as int), code@, by_referer),
            decreases vs@.len() - k,
        {
            let ghost pre = vs@.take(k as int);
            let ghost cur = vs@.take(k + 1);
            proof {
                lemma_take_step(vs@, k as int);
            }
            let v = &vs[k];
            if v.code == key {
                let g = if by_referer {
                    &v.referer
                } else {
                    &v.country
                };
                assert(opt_chars(*g) == group_key(*v, by_referer));
                let mut j: usize = 0;
                while j < rows.len() && !opt_same(&rows[j].0, g)
                    invariant
                        j <= rows@.len(),
                        forall|x: int| 0 <= x < j ==> opt_chars(#[trigger] rows@[x].0) != opt_chars(*g),
                    decreases rows@.len() - j,
                {
                    j = j + 1;
                }
                let ghost old_rows = rows@;
                if j < rows.len() {
                    proof {
                        lemma_count_le(pre, code@, by_referer, opt_chars(*g));
                    }
                    let row = (copy_opt(&rows[j].0), rows[j].1 + 1);
                    rows.set(j, row);
                    proof {
                        assert forall|x: int| 0 <= x < rows@.len() implies #[trigger] rows@[x].1
                            == group_count(cur, code@, by_referer, opt_chars(rows@[x].0)) && rows@[x].1
                            >= 1 by {
                            if x != j {
                                assert(rows@[x] == old_rows[x]);
                            }
                        }
                        assert forall|x: int, y: int| 0 <= x < y < rows@.len() implies opt_chars(
                            #[trigger] rows@[x].0,
                        ) != opt_chars(#[trigger] rows@[y].0) by {
                            assert(opt_chars(rows@[x].0) == opt_chars(old_rows[x].0));
                            assert(opt_chars(rows@[y].0) == opt_chars(old_rows[y].0));
                        }
                        assert forall|q: int| 0 <= q < cur.len() && (#[trigger] cur[q]).code@ == code@ implies exists|x: int|
                            0 <= x < rows@.len() && opt_chars(#[trigger] rows@[x].0) == group_key(cur[q], by_referer) by {
                            if q < k {
                                assert(cur[q] == pre[q]);
                                let w = choose|w: int|
                                    0 <= w < old_rows.len() && opt_chars(#[trigger] old_rows[w].0) == group_key(pre[q], by_referer);
                                assert(opt_chars(rows@[w].0) == opt_chars(old_rows[w].0));
                            } else {
                                assert(opt_chars(rows@[j as int].0) == group_key(cur[q], by_referer));
                            }
                        }
                    }
                } else {
                    rows.push((copy_opt(g), 1));
                    proof {
                        assert(group_count(pre, code@, by_referer, opt_chars(*g)) == 0) by {
                            if group_count(pre, code@, by_referer, opt_chars(*g)) > 0 {
                                lemma_count_witness(pre, code@, by_referer, opt_chars(*g));
                                let q = choose|q: int|
                                    0 <= q < pre.len() && (#[trigger] pre[q]).code@ == code@ && group_key(pre[q], by_referer) == opt_chars(*g);
                                let w = choose|w: int|
                                    0 <= w < old_rows.len() && opt_chars(#[trigger] old_rows[w].0) == group_key(pre[q], by_referer);
                            }
                        }
                        assert forall|x: int| 0 <= x < rows@.len() implies #[trigger] rows@[x].1
                            == group_count(cur, code@, by_referer, opt_chars(rows@[x].0)) && rows@[x].1
                            >= 1 by {
                            if x < old_rows.len() {
                                assert(rows@[x] == old_rows[x]);
                            }
                        }
                        assert forall|x: int, y: int| 0 <= x < y < rows@.len() implies opt_chars(
                            #[trigger] rows@[x].0,
                        ) != opt_chars(#[trigger] rows@[y].0) by {
                            assert(rows@[x] == old_rows[x]);
                            if y < old_rows.len() {
                                assert(rows@[y] == old_rows[y]);
                            }
                        }
                        assert forall|q: int| 0 <= q < cur.len() && (#[trigger] cur[q]).code@ == code@ implies exists|x: int|
                            0 <= x < rows@.len() && opt_chars(#[trigger] rows@[x].0) == group_key(cur[q], by_referer) by {
                            if q < k {
                                assert(cur[q] == pre[q]);
                                let w = choose|w: int|
                                    0 <= w < old_rows.len() && opt_chars(#[trigger] old_rows[w].0) == group_key(pre[q], by_referer);
                                assert(rows@[w] == old_rows[w]);
                            } else {
                                assert(rows@[old_rows.len() as int] == (*g, 1i64));
                            }
                        }
                    }
                }
            } else {
                proof {
                    assert forall|q: int| 0 <= q < cur.len() && (#[trigger] cur[q]).code@ == code@ implies exists|x: int|
                        0 <= x < rows@.len() && opt_chars(#[trigger] rows@[x].0) == group_key(cur[q], by_referer) by {
                        assert(cur[q] == pre[q]);
                    }
                }
            }
            k = k + 1;
        }
        assert(vs@.take(vs@.len() as int) =~= vs@);
        sort_by_count_desc(&mut rows, Ghost(self.visit_log()), Ghost(code@), by_referer);
        rows
    }

    /// The visits of `code` counted by country, the largest group first.
    pub fn visits_by_country(&self, code: &str) -> (r: Vec<(Option<String>, i64)>)
        requires
            self.visit_log().len() <= i64::MAX,
        ensures
            counts_groups(r@, self.visit_log(), code@, false),
            by_count_desc(r@),
    {
        self.group_visits(code, false)
    }

    /// The visits of `code` counted by referer, the largest group first.
    pub fn visits_by_referer(&self, code: &str) -> (r: Vec<(Option<String>, i64)>)
        requires
            self.visit_log().len() <= i64::MAX,
        ensures
            counts_groups(r@, self.visit_log(), code@, true),
            by_count_desc(r@),
    {
        self.group_visits(code, true)
    }
}

/// How many visits the analytics report lists one by one.
pub const RECENT_LIMIT: usize = 20;

/// The row that lists visit `v`.
pub open spec fn row_of(v: Visit, r: VisitRow) -> bool {
    r.visited_at == v.visited_at && r.ip == v.ip && r.country == v.country && r.city == v.city
        && r.user_agent == v.user_agent && r.referer == v.referer
}

/// `rows` list the most recent visits of `code`, newest first: `idx` gives
/// the visit behind each row, no visit is listed twice, and a visit left out
/// is no newer than the last row. At most `limit` rows; fewer only where
/// every visit of `code` is listed.
pub open spec fn lists_recent(
    rows: Seq<VisitRow>,
    idx: Seq<int>,
    vs: Seq<Visit>,
    code: Seq<char>,
    limit: int,
) -> bool {
    &&& idx.len() == rows.len() <= limit
    &&& forall|i: int|
        0 <= i < idx.len() ==> 0 <= #[trigger] idx[i] < vs.len() && vs[idx[i]].code@ == code
            && row_of(vs[idx[i]], rows[i])
    &&& forall|i: int, j: int| 0 <= i < j < idx.len() ==> #[trigger] idx[i] != #[trigger] idx[j]
    &&& forall|i: int, j: int|
        0 <= i < j < rows.len() ==> (#[trigger] rows[i]).visited_at >= (#[trigger] rows[j]).visited_at
    &&& forall|k: int|
        0 <= k < vs.len() && (#[trigger] vs[k]).code@ == code && !idx.contains(k) ==> rows.len()
            == limit && vs[k].visited_at <= rows.last().visited_at
}

impl LinkStore {
    /// The 20 most recent visits of `code`, newest first.
    pub fn recent_visits(&self, code: &str) -> (r: Vec<VisitRow>)
        ensures
            exists|idx: Seq<int>| lists_recent(r@, idx, self.visit_log(), code@, 20),
    {
        let key = code.to_owned();
        let vs = &self.visits;
        let n = vs.len();
        let mut taken: Vec<bool> = Vec::new();
        let mut k: usize = 0;
        while k < n
            invariant
                n == vs@.len(),
                k <= n,
                taken@.len() == k,
                forall|q: int| 0 <= q < k ==> !(#[trigger] taken@[q]),
            decreases n - k,
        {
            taken.push(false);
            k = k + 1;
        }
        let mut rows: Vec<VisitRow> = Vec::new();
        let ghost mut idx: Seq<int> = Seq::empty();
        let mut done = false;
        while rows.len() < RECENT_LIMIT && !done
            invariant
                vs@ == self.visit_log(),
                n == vs@.len(),
                key@ == code@,
                taken@.len() == n,
                forall|q: int| 0 <= q < n ==> (#[trigger] taken@[q] <==> idx.contains(q)),
                idx.len() == rows@.len() <= 20,
                forall|i: int|
                    0 <= i < idx.len() ==> 0 <= #[trigger] idx[i] < vs@.len() && vs@[idx[i]].code@
                        == code@ && row_of(vs@[idx[i]], rows@[i]),
                forall|i: int, j: int| 0 <= i < j < idx.len() ==> #[trigger] idx[i] != #[trigger] idx[j],
                forall|i: int, j: int|
                    0 <= i < j < rows@.len() ==> (#[trigger] rows@[i]).visited_at >= (
                    #[trigger] rows@[j]).visited_at,
                forall|q: int|
                    0 <= q < n && (#[trigger] vs@[q]).code@ == code@ && !idx.contains(q) && rows@.len() > 0
                        ==> vs@[q].visited_at <= rows@.last().visited_at,
                done ==> forall|q: int|
                    0 <= q < n && (#[trigger] vs@[q]).code@ == code@ ==> idx.contains(q),
            decreases 20 - rows@.len() + (if done { 0int } else { 1int }),
        {
            let mut best: Option<usize> = None;
            let mut q: usize = 0;
            while q < n
                invariant
                    n == vs@.len(),
                    taken@.len() == n,
                    key@ == code@,
                    q <= n,
                    match best {
                        Some(b) => b < q && vs@[b as int].code@ == code@ && !taken@[b as int] && forall|x: int|
                            0 <= x < q && (#[trigger] vs@[x]).code@ == code@ && !taken@[x] ==> vs@[x].visited_at
                                <= vs@[b as int].visited_at,
                        None => forall|x: int|
                            0 <= x < q && (#[trigger] vs@[x]).code@ == code@ ==> taken@[x],
                    },
                decreases n - q,
            {
                if !taken[q] && vs[q].code == key {
                    match best {
                        Some(b) => {
                            if vs[q].visited_at > vs[b].visited_at {
                                best = Some(q);
                            }
                        },
                        None => {
                            best = Some(q);
                        },
                    }
                }
                q = q + 1;
            }
            match best {
                None => {
                    done = true;
                },
                Some(b) => {
                    let v = &vs[b];
                    let row = VisitRow {
                        visited_at: v.visited_at,
                        ip: copy_opt(&v.ip),
                        country: copy_opt(&v.country),
                        city: copy_opt(&v.city),
                        user_agent: copy_opt(&v.user_agent),
                        referer: copy_opt(&v.referer),
                    };
                    let ghost old_idx = idx;
                    let ghost old_rows = rows@;
                    rows.push(row);
                    taken.set(b, true);
                    proof {
                        idx = idx.push(b as int);
                        assert forall|x: int| 0 <= x < n implies (#[trigger] taken@[x] <==> idx.contains(x)) by {
                            if x == b {
                                assert(idx[idx.len() - 1] == x);
                            } else {
                                if old_idx.contains(x) {
                                    let w = choose|w: int| 0 <= w < old_idx.len() && old_idx[w] == x;
                                    assert(idx[w] == x);
                                }
                                if idx.contains(x) {
                                    let w = choose|w: int| 0 <= w < idx.len() && idx[w] == x;
                                    assert(w < old_idx.len());
                                    assert(old_idx[w] == x);
                                }
                            }
                        }
                        assert forall|i: int| 0 <= i < idx.len() implies 0 <= #[trigger] idx[i] < vs@.len()
                            && vs@[idx[i]].code@ == code@ && row_of(vs@[idx[i]], rows@[i]) by {
                            if i < old_idx.len() {
                                assert(idx[i] == old_idx[i] && rows@[i] == old_rows[i]);
                            }
                        }
                        assert forall|i: int, j: int| 0 <= i < j < idx.len() implies #[trigger] idx[i]
                            != #[trigger] idx[j] by {
                            if j == old_idx.len() {
                                assert(idx[i] == old_idx[i]);
                                assert(old_idx.contains(idx[i]));
                            } else {
                                assert(idx[i] == old_idx[i] && idx[j] == old_idx[j]);
                            }
                        }
                        assert forall|i: int, j: int| 0 <= i < j < rows@.len() implies (
                        #[trigger] rows@[i]).visited_at >= (#[trigger] rows@[j]).visited_at by {
                            if j == old_rows.len() {
                                assert(rows@[i] == old_rows[i]);
                                assert(old_idx[i] != b);
                                assert(old_idx.contains(old_idx[i]));
                                if i < old_rows.len() - 1 {
                                    assert(old_rows[i].visited_at >= old_rows.last().visited_at);
                                }
                            } else {
                                assert(rows@[i] == old_rows[i] && rows@[j] == old_rows[j]);
                            }
                        }
                        assert forall|x: int|
                            0 <= x < n && (#[trigger] vs@[x]).code@ == code@ && !idx.contains(x) && rows@.len() > 0
                                implies vs@[x].visited_at <= rows@.last().visited_at by {
                            assert(rows@.last() == row);
                            if old_idx.contains(x) {
                                let w = choose|w: int| 0 <= w < old_idx.len() && old_idx[w] == x;
                                assert(idx[w] == x);
                            }
                            assert(!taken@[x] || x == b);
                            if x == b {
                                assert(idx[idx.len() - 1] == x);
                            }
                        }
                    }
                },
            }
        }
        proof {
            assert forall|x: int|
                0 <= x < vs@.len() && (#[trigger] vs@[x]).code@ == code@ && !idx.contains(x) implies rows@.len()
                    == 20 && vs@[x].visited_at <= rows@.last().visited_at by {
                if rows@.len() < 20 {
                    assert(done);
                }
            }
            assert(lists_recent(rows@, idx, self.visit_log(), code@, 20));
        }
        rows
    }
}

/// A group with a positive count has a visit in it.
proof fn lemma_count_witness(vs: Seq<Visit>, code: Seq<char>, by_referer: bool, key: Option<Seq<char>>)
    requires
        group_count(vs, code, by_referer, key) > 0,
    ensures
        exists|q: int|
            0 <= q < vs.len() && (#[trigger] vs[q]).code@ == code && group_key(vs[q], by_referer) == key,
    decreases vs.len(),
{
    let t = vs.drop_last();
    if vs.last().code@ == code && group_key(vs.last(), by_referer) == key {
        assert(vs[vs.len() - 1] == vs.last());
    } else {
        lemma_count_witness(t, code, by_referer, key);
        let q = choose|q: int|
            0 <= q < t.len() && (#[trigger] t[q]).code@ == code && group_key(t[q], by_referer) == key;
        assert(vs[q] == t[q]);
    }
}

} // verus!
