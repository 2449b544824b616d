use crate::models::{Link, LinkView, Visit, VisitInfo};
use vstd::prelude::*;

verus! {

/// The link that a sequence of rows holds under `code`: the last row with
/// that code, if any.
pub open spec fn find_link(s: Seq<Link>, code: Seq<char>) -> Option<LinkView>
    decreases s.len(),
{
    if s.len() == 0 {
        None
    } else if s.last().code@ == code {
        Some(s.last()@)
    } else {
        find_link(s.drop_last(), code)
    }
}

/// No two rows share a code.
pub open spec fn codes_unique(s: Seq<Link>) -> bool {
    forall|i: int, j: int| 0 <= i < j < s.len() ==> s[i].code@ != s[j].code@
}

/// The rows of `s` whose link meets `keep`, in their order.
pub open spec fn keep_if(s: Seq<Link>, keep: spec_fn(LinkView) -> bool) -> Seq<Link>
    decreases s.len(),
{
    if s.len() == 0 {
        s
    } else if keep(s.last()@) {
        keep_if(s.drop_last(), keep).push(s.last())
    } else {
        keep_if(s.drop_last(), keep)
    }
}

/// Whether a link is still live at `now`, that is, whether a sweep at `now`
/// keeps it.
pub open spec fn unexpired(now: int) -> spec_fn(LinkView) -> bool {
    |l: LinkView| l.expires_at >= now
}

/// Whether a link has a code other than `code`.
pub open spec fn other_code(code: Seq<char>) -> spec_fn(LinkView) -> bool {
    |l: LinkView| l.code != code
}

/// The map from code to link that rows `s` describe.
pub open spec fn links_map(s: Seq<Link>) -> Map<Seq<char>, LinkView> {
    Map::new(|k: Seq<char>| find_link(s, k) is Some, |k: Seq<char>| find_link(s, k)->0)
}

/// The links and the visits of the service, held in memory.
///
/// Its rows are kept in order of insertion, with no two links under one code.
pub struct LinkStore {
    pub(crate) links: Vec<Link>,
    pub(crate) visits: Vec<Visit>,
}

/// Why the store refused a write.
#[derive(Debug, Clone, Copy, PartialEq, Eq, Structural)]
pub enum StoreError {
    /// A link with that code is already stored.
    DuplicateKey,
}

proof fn lemma_find_push(s: Seq<Link>, x: Link, k: Seq<char>)
    ensures
        find_link(s.push(x), k) == (if x.code@ == k {
            Some(x@)
        } else {
            find_link(s, k)
        }),
{
    assert(s.push(x).drop_last() =~= s);
}

proof fn lemma_find_absent(s: Seq<Link>, k: Seq<char>)
    requires
        forall|i: int| 0 <= i < s.len() ==> (#[trigger] s[i]).code@ != k,
    ensures
        find_link(s, k) is None,
    decreases s.len(),
{
    if s.len() > 0 {
        let t = s.drop_last();
        assert forall|i: int| 0 <= i < t.len() implies (#[trigger] t[i]).code@ != k by {
            assert(t[i] == s[i]);
        }
        lemma_find_absent(t, k);
    }
}

proof fn lemma_find_present(s: Seq<Link>, i: int)
    requires
        codes_unique(s),
        0 <= i < s.len(),
    ensures
        find_link(s, s[i].code@) == Some(s[i]@),
    decreases s.len(),
{
    if i < s.len() - 1 {
        let t = s.drop_last();
        assert(t[i] == s[i]);
        lemma_find_present(t, i);
    }
}

/// Every row that `keep_if` keeps is a row of the input.
proof fn lemma_keep_if_rows(s: Seq<Link>, keep: spec_fn(LinkView) -> bool)
    ensures
        forall|i: int|
            0 <= i < keep_if(s, keep).len() ==> exists|j: int|
                0 <= j < s.len() && #[trigger] keep_if(s, keep)[i] == s[j],
        keep_if(s, keep).len() <= s.len(),
    decreases s.len(),
{
    if s.len() > 0 {
        let t = s.drop_last();
        lemma_keep_if_rows(t, keep);
        let kt = keep_if(t, keep);
        let ks = keep_if(s, keep);
        assert forall|i: int| 0 <= i < ks.len() implies exists|j: int|
            0 <= j < s.len() && #[trigger] ks[i] == s[j] by {
            if i < kt.len() {
                assert(ks[i] == kt[i]);
                let j = choose|j: int| 0 <= j < t.len() && kt[i] == t[j];
                assert(s[j] == t[j]);
            } else {
                assert(ks[i] == s[s.len() - 1]);
            }
        }
    }
}

proof fn lemma_keep_if_unique(s: Seq<Link>, keep: spec_fn(LinkView) -> bool)
    requires
        codes_unique(s),
    ensures
        codes_unique(keep_if(s, keep)),
    decreases s.len(),
{
    if s.len() > 0 {
        let t = s.drop_last();
        assert(codes_unique(t)) by {
            assert forall|i: int, j: int| 0 <= i < j < t.len() implies t[i].code@ != t[j].code@ by {
                assert(t[i] == s[i] && t[j] == s[j]);
            }
        }
        lemma_keep_if_unique(t, keep);
        lemma_keep_if_rows(t, keep);
        let kt = keep_if(t, keep);
        if keep(s.last()@) {
            let ks = kt.push(s.last());
            assert forall|i: int, j: int| 0 <= i < j < ks.len() implies ks[i].code@ != ks[j].code@ by {
                if j == kt.len() {
                    assert(ks[i] == kt[i]);
                    let w = choose|w: int| 0 <= w < t.len() && kt[i] == t[w];
                    assert(t[w] == s[w]);
                } else {
                    assert(ks[i] == kt[i] && ks[j] == kt[j]);
                }
            }
        }
    }
}

/// Looking a code up among the rows kept is looking it up among all the
/// rows, and keeping the link only where it meets `keep`.
proof fn lemma_find_keep_if(s: Seq<Link>, keep: spec_fn(LinkView) -> bool, k: Seq<char>)
    requires
        codes_unique(s),
    ensures
        find_link(keep_if(s, keep), k) == (match find_link(s, k) {
            Some(l) => if keep(l) {
                Some(l)
            } else {
                None
            },
            None => None,
        }),
    decreases s.len(),
{
    if s.len() > 0 {
        let t = s.drop_last();
        assert(codes_unique(t)) by {
            assert forall|i: int, j: int| 0 <= i < j < t.len() implies t[i].code@ != t[j].code@ by {
                assert(t[i] == s[i] && t[j] == s[j]);
            }
        }
        lemma_find_keep_if(t, keep, k);
        let x = s.last();
        if keep(x@) {
            lemma_find_push(keep_if(t, keep), x, k);
        } else if x.code@ == k {
            assert forall|i: int| 0 <= i < t.len() implies (#[trigger] t[i]).code@ != k by {
                assert(t[i] == s[i]);
            }
            lemma_find_absent(t, k);
        }
    }
}

/// The number of rows whose link is past its expiry at `now`.
pub open spec fn expired_count(s: Seq<Link>, now: int) -> nat
    decreases s.len(),
{
    if s.len() == 0 {
        0
    } else if s.last().expires_at < now {
        expired_count(s.drop_last(), now) + 1
    } else {
        expired_count(s.drop_last(), now)
    }
}

proof fn lemma_expired_count(s: Seq<Link>, now: int)
    ensures
        expired_count(s, now) + keep_if(s, unexpired(now)).len() == s.len(),
    decreases s.len(),
{
    if s.len() > 0 {
        lemma_expired_count(s.drop_last(), now);
    }
}

/// A sequence of rows none of which has expired at `now` counts no expired
/// row and is kept whole by a sweep.
pub proof fn lemma_none_expired(s: Seq<Link>, now: int)
    requires
        forall|i: int| 0 <= i < s.len() ==> (#[trigger] s[i]).expires_at >= now,
    ensures
        expired_count(s, now) == 0,
        keep_if(s, unexpired(now)) == s,
    decreases s.len(),
{
    if s.len() > 0 {
        let t = s.drop_last();
        assert forall|i: int| 0 <= i < t.len() implies (#[trigger] t[i]).expires_at >= now by {
            assert(t[i] == s[i]);
        }
        lemma_none_expired(t, now);
        assert(s.last().expires_at >= now);
        assert(t.push(s.last()) =~= s);
    }
}

/// Every row that a sweep at `now` keeps is live at `now`.
pub proof fn lemma_kept_unexpired(s: Seq<Link>, now: int)
    ensures
        forall|i: int|
            0 <= i < keep_if(s, unexpired(now)).len() ==> (#[trigger] keep_if(
                s,
                unexpired(now),
            )[i]).expires_at >= now,
    decreases s.len(),
{
    if s.len() > 0 {
        let t = s.drop_last();
        lemma_kept_unexpired(t, now);
        let kt = keep_if(t, unexpired(now));
        let ks = keep_if(s, unexpired(now));
        assert forall|i: int| 0 <= i < ks.len() implies (#[trigger] ks[i]).expires_at >= now by {
            if i < kt.len() {
                assert(ks[i] == kt[i]);
            }
        }
    }
}

fn copy_link(l: &Link) -> (r: Link)
    ensures
        r == *l,
{
    Link {
        code: l.code.clone(),
        original_url: l.original_url.clone(),
        expires_at: l.expires_at,
        created_at: l.created_at,
    }
}

impl LinkStore {
    /// The store's links, by code.
    pub open(crate) spec fn view(&self) -> Map<Seq<char>, LinkView> {
        links_map(self.rows())
    }

    /// No two stored links share a code.
    pub open(crate) spec fn wf(&self) -> bool {
        codes_unique(self.rows())
    }

    /// The rows of links, in order of insertion.
    pub open(crate) spec fn rows(&self) -> Seq<Link> {
        self.links@
    }

    /// The recorded visits, in order of recording.
    pub open(crate) spec fn visit_log(&self) -> Seq<Visit> {
        self.visits@
    }

    /// The stored links, in order of insertion.
    pub fn links(&self) -> (r: &Vec<Link>)
        ensures
            r@ == self.rows(),
    {
        &self.links
    }

    /// The recorded visits, in order of recording.
    pub fn visits(&self) -> (r: &Vec<Visit>)
        ensures
            r@ == self.visit_log(),
    {
        &self.visits
    }

    /// An empty store.
    pub fn new() -> (r: LinkStore)
        ensures
            r.wf(),
            r.view() == Map::<Seq<char>, LinkView>::empty(),
            r.visit_log().len() == 0,
    {
        let r = LinkStore { links: Vec::new(), visits: Vec::new() };
        assert(r.view() =~= Map::<Seq<char>, LinkView>::empty());
        r
    }

    fn position(&self, code: &str) -> (r: Option<usize>)
        requires
            self.wf(),
        ensures
            match r {
                Some(i) => i < self.rows().len() && self.rows()[i as int].code@ == code@ && find_link(
                    self.rows(),
                    code@,
                ) == Some(self.rows()[i as int]@),
                None => find_link(self.rows(), code@) is None,
            },
    {
        let key = code.to_owned();
        let mut i: usize = 0;
        while i < self.links.len()
            invariant
                i <= self.rows().len(),
                self.wf(),
                key@ == code@,
                forall|j: int| 0 <= j < i ==> (#[trigger] self.rows()[j]).code@ != code@,
            decreases self.rows().len() - i,
        {
            if self.links[i].code == key {
                proof {
                    lemma_find_present(self.rows(), i as int);
                }
                return Some(i);
            }
            i = i + 1;
        }
        proof {
            lemma_find_absent(self.rows(), code@);
        }
        None
    }

    /// Whether a link is stored under `code`.
    pub fn code_exists(&self, code: &str) -> (r: bool)
        requires
            self.wf(),
        ensures
            r == self.view().contains_key(code@),
    {
        self.position(code).is_some()
    }

    /// The link stored under `code`, if any.
    pub fn get_link(&self, code: &str) -> (r: Option<Link>)
        requires
            self.wf(),
        ensures
            match r {
                Some(l) => self.view().contains_key(code@) && self.view()[code@] == l@ && l.code@
                    == code@,
                None => !self.view().contains_key(code@),
            },
    {
        match self.position(code) {
            Some(i) => Some(copy_link(&self.links[i])),
            None => None,
        }
    }

    /// Stores a new link, unless one is stored under `code` already.
    pub fn insert_link(&mut self, code: &str, original_url: &str, expires_at: i64, created_at: i64) -> (r:
        Result<(), StoreError>)
        requires
            old(self).wf(),
        ensures
            final(self).wf(),
            final(self).visit_log() == old(self).visit_log(),
            old(self).view().contains_key(code@) ==> r == Err::<(), StoreError>(
                StoreError::DuplicateKey,
            ) && final(self).view() == old(self).view(),
            !old(self).view().contains_key(code@) ==> r is Ok && final(self).view() == old(
                self,
            ).view().insert(
                code@,
                LinkView {
                    code: code@,
                    original_url: original_url@,
                    expires_at: expires_at as int,
                    created_at: created_at as int,
                },
            ),
    {
        if self.position(code).is_some() {
            return Err(StoreError::DuplicateKey);
        }
        let ghost before = self.rows();
        let link = Link {
            code: code.to_owned(),
            original_url: original_url.to_owned(),
            expires_at,
            created_at,
        };
        self.links.push(link);
        proof {
            assert forall|j: int| 0 <= j < before.len() implies (#[trigger] before[j]).code@
                != code@ by {
                if before[j].code@ == code@ {
                    lemma_find_present(before, j);
                }
            }
            assert(self.rows() == before.push(link));
            assert forall|k: Seq<char>| true implies find_link(self.rows(), k) == (if link.code@
                == k {
                Some(link@)
            } else {
                find_link(before, k)
            }) by {
                lemma_find_push(before, link, k);
            }
            assert(self.view() =~= links_map(before).insert(code@, link@));
        }
        Ok(())
    }

    /// Replaces the links by those that meet `keep`; answers how many went.
    fn retain_links(&mut self, keep: Ghost<spec_fn(LinkView) -> bool>, now: i64, code: &str, by_expiry: bool) -> (r: u64)
        requires
            old(self).wf(),
            by_expiry ==> keep@ == unexpired(now as int),
            !by_expiry ==> keep@ == other_code(code@),
        ensures
            final(self).wf(),
            final(self).visit_log() == old(self).visit_log(),
            final(self).rows() == keep_if(old(self).rows(), keep@),
            r as int == old(self).rows().len() - final(self).rows().len(),
    {
        let ghost s = self.rows();
        let key = code.to_owned();
        let mut out: Vec<Link> = Vec::new();
        let mut i: usize = 0;
        assert(s.take(0) =~= Seq::<Link>::empty());
        while i < self.links.len()
            invariant
                s == self.rows(),
                i <= s.len(),
                by_expiry ==> keep@ == unexpired(now as int),
                !by_expiry ==> keep@ == other_code(code@),
                out@ == keep_if(s.take(i as int), keep@),
                key@ == code@,
            decreases s.len() - i,
        {
            let l = &self.links[i];
            let kept = if by_expiry {
                l.expires_at >= now
            } else {
                l.code != key
            };
            assert(s.take(i + 1).drop_last() =~= s.take(i as int));
            assert(s.take(i + 1).last() == s[i as int]);
            if kept {
                out.push(copy_link(l));
            }
            i = i + 1;
        }
        assert(s.take(s.len() as int) =~= s);
        proof {
            lemma_keep_if_rows(s, keep@);
            lemma_keep_if_unique(s, keep@);
        }
        let gone = (self.links.len() - out.len()) as u64;
        self.links = out;
        gone
    }

    /// Records a visit of `code` at `visited_at`, with what the client told.
    pub fn insert_visit(&mut self, code: &str, visited_at: i64, info: VisitInfo)
        requires
            old(self).wf(),
        ensures
            final(self).wf(),
            final(self).rows() == old(self).rows(),
            final(self).visit_log() == old(self).visit_log().push(
                Visit {
                    code: final(self).visit_log().last().code,
                    visited_at,
                    ip: info.ip,
                    country: info.country,
                    city: info.city,
                    user_agent: info.user_agent,
                    referer: info.referer,
                },
            ),
            final(self).visit_log().last().code@ == code@,
    {
        let v = Visit {
            code: code.to_owned(),
            visited_at,
            ip: info.ip,
            country: info.country,
            city: info.city,
            user_agent: info.user_agent,
            referer: info.referer,
        };
        self.visits.push(v);
    }

    /// Removes the link stored under `code`; answers whether there was one.
    pub fn delete_link(&mut self, code: &str) -> (r: bool)
        requires
            old(self).wf(),
        ensures
            final(self).wf(),
            final(self).visit_log() == old(self).visit_log(),
            r == old(self).view().contains_key(code@),
            final(self).view() == old(self).view().remove(code@),
    {
        let ghost s = self.rows();
        let n = self.retain_links(Ghost(other_code(code@)), 0, code, false);
        proof {
            assert forall|k: Seq<char>| true implies find_link(self.rows(), k) == (if k == code@ {
                None
            } else {
                find_link(s, k)
            }) by {
                lemma_find_keep_if(s, other_code(code@), k);
                if find_link(s, k) is Some {
                    lemma_find_code(s, k);
                }
            }
            assert(self.view() =~= links_map(s).remove(code@));
            if find_link(s, code@) is None {
                assert(self.rows().len() == s.len()) by {
                    lemma_keep_all_but_absent(s, code@);
                }
            } else {
                assert(self.rows().len() < s.len()) by {
                    lemma_keep_drops_present(s, code@);
                }
            }
        }
        n > 0
    }

    /// Removes every link that expired before `now`; answers how many went.
    /// The links live at `now`, and those that expire at `now` exactly, stay.
    pub fn delete_expired_links(&mut self, now: i64) -> (r: u64)
        requires
            old(self).wf(),
        ensures
            final(self).wf(),
            final(self).visit_log() == old(self).visit_log(),
            final(self).rows() == keep_if(old(self).rows(), unexpired(now as int)),
            r == expired_count(old(self).rows(), now as int),
            final(self).view() == old(self).view().restrict(
                old(self).view().dom().filter(|k: Seq<char>| old(self).view()[k].expires_at >= now),
            ),
    {
        let ghost s = self.rows();
        let n = self.retain_links(Ghost(unexpired(now as int)), now, "", true);
        proof {
            lemma_expired_count(s, now as int);
            assert forall|k: Seq<char>| true implies find_link(self.rows(), k) == (match find_link(s, k) {
                Some(l) => if unexpired(now as int)(l) {
                    Some(l)
                } else {
                    None
                },
                None => None,
            }) by {
                lemma_find_keep_if(s, unexpired(now as int), k);
            }
            let m = links_map(s);
            assert(self.view() =~= m.restrict(m.dom().filter(|k: Seq<char>| m[k].expires_at >= now)));
        }
        n
    }
}

/// The link found under `k`, if any, has code `k`.
proof fn lemma_find_code(s: Seq<Link>, k: Seq<char>)
    requires
        find_link(s, k) is Some,
    ensures
        find_link(s, k)->0.code == k,
    decreases s.len(),
{
    if s.len() > 0 && s.last().code@ != k {
        lemma_find_code(s.drop_last(), k);
    }
}

proof fn lemma_keep_all_but_absent(s: Seq<Link>, k: Seq<char>)
    requires
        find_link(s, k) is None,
    ensures
        keep_if(s, other_code(k)).len() == s.len(),
    decreases s.len(),
{
    if s.len() > 0 {
        lemma_keep_all_but_absent(s.drop_last(), k);
    }
}

proof fn lemma_keep_drops_present(s: Seq<Link>, k: Seq<char>)
    requires
        find_link(s, k) is Some,
    ensures
        keep_if(s, other_code(k)).len() < s.len(),
    decreases s.len(),
{
    lemma_keep_if_rows(s.drop_last(), other_code(k));
    if s.len() > 0 && s.last().code@ != k {
        lemma_keep_drops_present(s.drop_last(), k);
    }
}

} // verus!

verus! {

/// A sweep at `now` keeps exactly the links live at `now`; a second sweep at
/// the same instant deletes nothing and changes nothing.
pub proof fn lemma_sweep_idempotent(s: Seq<Link>, now: int)
    ensures
        forall|i: int|
            0 <= i < keep_if(s, unexpired(now)).len() ==> (#[trigger] keep_if(s, unexpired(now))[i]).expires_at
                >= now,
        expired_count(keep_if(s, unexpired(now)), now) == 0,
        keep_if(keep_if(s, unexpired(now)), unexpired(now)) == keep_if(s, unexpired(now)),
{
    lemma_kept_unexpired(s, now);
    lemma_none_expired(keep_if(s, unexpired(now)), now);
}

} // verus!
