use crate::codegen::{generate_code, is_generated_shape, push_char};
use crate::text::chars_of;
use crate::models::{Link, LinkView, ShortenRequest, ShortenResponse, Visit, VisitInfo};
use crate::store::{LinkStore, StoreError};
use crate::validation::{
    code_verdict, is_valid_code, parse_ttl, ttl_seconds, url_host_of, url_verdict, validate_code,
    validate_parsed_url, host_view, parse_url_host, ValidationError, DEFAULT_TTL_SECONDS, MAX_CODE_LEN,
    MAX_TTL_SECONDS,
};
use vstd::prelude::*;

verus! {

/// How many generated codes a creation tries before it gives up.
pub const MAX_CODE_ATTEMPTS: usize = 10;

/// Why an operation of the service failed.
#[derive(Debug, Clone, Copy, PartialEq, Eq, Structural)]
pub enum ServiceError {
    /// The URL, the code or the TTL is malformed.
    BadInput(ValidationError),
    /// The bearer token is missing or wrong.
    Unauthorized,
    /// The custom code is taken.
    Conflict,
    /// The code is absent or its link has expired.
    NotFound,
    /// The client has used up its requests for now.
    RateLimited,
    /// The store failed, or no free code was found.
    Internal,
}

impl ServiceError {
    /// The HTTP status that stands for this error.
    pub fn status(&self) -> (r: u16)
        ensures
            r == status_of(*self),
    {
        match self {
            ServiceError::BadInput(_) => 400,
            ServiceError::Unauthorized => 401,
            ServiceError::Conflict => 409,
            ServiceError::NotFound => 404,
            ServiceError::RateLimited => 429,
            ServiceError::Internal => 500,
        }
    }
}

pub open spec fn status_of(e: ServiceError) -> u16 {
    match e {
        ServiceError::BadInput(_) => 400,
        ServiceError::Unauthorized => 401,
        ServiceError::Conflict => 409,
        ServiceError::NotFound => 404,
        ServiceError::RateLimited => 429,
        ServiceError::Internal => 500,
    }
}

/// The lifetime a request asks for: the parsed TTL, or seven days without one.
pub open spec fn ttl_for(ttl: Option<Seq<char>>) -> Result<i64, ValidationError> {
    match ttl {
        Some(t) => ttl_seconds(t),
        None => Ok(604800),
    }
}

/// The first candidate under which no link is stored.
pub open spec fn first_unused(links: Map<Seq<char>, LinkView>, cands: Seq<Seq<char>>) -> Option<
    Seq<char>,
>
    decreases cands.len(),
{
    if cands.len() == 0 {
        None
    } else if !links.contains_key(cands[0]) {
        Some(cands[0])
    } else {
        first_unused(links, cands.drop_first())
    }
}

/// The code a creation settles on: the custom one if it is well formed and
/// free, else the first free one of the generated candidates.
pub open spec fn code_for(
    links: Map<Seq<char>, LinkView>,
    custom: Option<Seq<char>>,
    cands: Seq<Seq<char>>,
) -> Result<Seq<char>, ServiceError> {
    match custom {
        Some(c) => match code_verdict(c) {
            Err(e) => Err(ServiceError::BadInput(e)),
            Ok(_) => if links.contains_key(c) {
                Err(ServiceError::Conflict)
            } else {
                Ok(c)
            },
        },
        None => match first_unused(links, cands) {
            Some(c) => Ok(c),
            None => Err(ServiceError::Internal),
        },
    }
}

/// What a creation at `now` returns: the URL is checked (given what the URL
/// parser made of it), then the TTL, then the code is settled; the new link
/// lives from `now` to `now` plus the TTL.
pub open spec fn create_outcome(
    links: Map<Seq<char>, LinkView>,
    url: Seq<char>,
    parsed: Option<Option<Seq<char>>>,
    custom: Option<Seq<char>>,
    ttl: Option<Seq<char>>,
    now: int,
    cands: Seq<Seq<char>>,
) -> Result<LinkView, ServiceError> {
    match url_verdict(url, parsed) {
        Err(e) => Err(ServiceError::BadInput(e)),
        Ok(_) => match ttl_for(ttl) {
            Err(e) => Err(ServiceError::BadInput(e)),
            Ok(t) => match code_for(links, custom, cands) {
                Err(e) => Err(e),
                Ok(c) => Ok(
                    LinkView { code: c, original_url: url, created_at: now, expires_at: now + t },
                ),
            },
        },
    }
}

/// The links after a creation: one more on success, the same on failure.
pub open spec fn links_after_create(
    links: Map<Seq<char>, LinkView>,
    outcome: Result<LinkView, ServiceError>,
) -> Map<Seq<char>, LinkView> {
    match outcome {
        Ok(l) => links.insert(l.code, l),
        Err(_) => links,
    }
}

/// What resolving `code` at `now` returns: the target URL of a live link, or
/// `NotFound` for a code out of shape, absent, or expired.
pub open spec fn resolve_outcome(links: Map<Seq<char>, LinkView>, code: Seq<char>, now: int) -> Result<
    Seq<char>,
    ServiceError,
> {
    if code.len() == 0 || code.len() > 32 {
        Err(ServiceError::NotFound)
    } else if !links.contains_key(code) {
        Err(ServiceError::NotFound)
    } else if now > links[code].expires_at {
        Err(ServiceError::NotFound)
    } else {
        Ok(links[code].original_url)
    }
}

/// The links after resolving `code` at `now`: an expired link found on the
/// way is deleted.
pub open spec fn links_after_resolve(links: Map<Seq<char>, LinkView>, code: Seq<char>, now: int) -> Map<
    Seq<char>,
    LinkView,
> {
    if 1 <= code.len() <= 32 && links.contains_key(code) && now > links[code].expires_at {
        links.remove(code)
    } else {
        links
    }
}

/// The visit that a redirect of `code` at `now` records.
pub open spec fn visit_of(code: Seq<char>, now: i64, info: VisitInfo, v: Visit) -> bool {
    v.code@ == code && v.visited_at == now && v.ip == info.ip && v.country == info.country
        && v.city == info.city && v.user_agent == info.user_agent && v.referer == info.referer
}

proof fn lemma_first_unused_free(links: Map<Seq<char>, LinkView>, cands: Seq<Seq<char>>)
    requires
        first_unused(links, cands) is Some,
    ensures
        !links.contains_key(first_unused(links, cands)->0),
    decreases cands.len(),
{
    if links.contains_key(cands[0]) {
        lemma_first_unused_free(links, cands.drop_first());
    }
}

/// The index of the first candidate under which the store holds no link.
fn first_unused_exec(store: &LinkStore, cands: &Vec<String>) -> (r: Option<usize>)
    requires
        store.wf(),
    ensures
        match r {
            Some(i) => i < cands@.len() && first_unused(store.view(), cands@.map_values(|c: String| c@))
                == Some(cands@[i as int]@),
            None => first_unused(store.view(), cands@.map_values(|c: String| c@)) is None,
        },
{
    let ghost all = cands@.map_values(|c: String| c@);
    let mut i: usize = 0;
    assert(all.skip(0) =~= all);
    while i < cands.len()
        invariant
            store.wf(),
            i <= cands@.len(),
            all == cands@.map_values(|c: String| c@),
            first_unused(store.view(), all) == first_unused(store.view(), all.skip(i as int)),
        decreases cands@.len() - i,
    {
        let ghost rest = all.skip(i as int);
        assert(rest[0] == cands@[i as int]@);
        assert(rest.drop_first() =~= all.skip(i + 1));
        if !store.code_exists(cands[i].as_str()) {
            return Some(i);
        }
        i = i + 1;
    }
    assert(all.skip(i as int).len() == 0);
    None
}

/// The view of an optional piece of text.
pub open spec fn opt_view(o: Option<&str>) -> Option<Seq<char>> {
    match o {
        Some(t) => Some(t@),
        None => None,
    }
}

/// The view of a creation's result.
pub open spec fn link_result(r: Result<Link, ServiceError>) -> Result<LinkView, ServiceError> {
    match r {
        Ok(l) => Ok(l@),
        Err(e) => Err(e),
    }
}

/// Creates a link at `now` from given inputs: `parsed` is what the URL parser
/// made of `url`, and `cands` are the generated codes to try, in order, where
/// no custom code is given. Only a success changes the store.
pub fn create_link_from(
    store: &mut LinkStore,
    url: &str,
    parsed: &Option<Option<String>>,
    custom_code: Option<&str>,
    ttl: Option<&str>,
    now: i64,
    cands: &Vec<String>,
) -> (r: Result<Link, ServiceError>)
    requires
        old(store).wf(),
        now <= i64::MAX - MAX_TTL_SECONDS,
    ensures
        final(store).wf(),
        final(store).visit_log() == old(store).visit_log(),
        link_result(r) == create_outcome(
            old(store).view(),
            url@,
            host_view(*parsed),
            opt_view(custom_code),
            opt_view(ttl),
            now as int,
            cands@.map_values(|c: String| c@),
        ),
        final(store).view() == links_after_create(old(store).view(), link_result(r)),
{
    if let Err(e) = validate_parsed_url(url, parsed) {
        return Err(ServiceError::BadInput(e));
    }
    let ttl_seconds = match ttl {
        Some(t) => match parse_ttl(t) {
            Ok(v) => v,
            Err(e) => {
                return Err(ServiceError::BadInput(e));
            },
        },
        None => DEFAULT_TTL_SECONDS,
    };
    let code: String = match custom_code {
        Some(c) => {
            if let Err(e) = validate_code(c) {
                return Err(ServiceError::BadInput(e));
            }
            if store.code_exists(c) {
                return Err(ServiceError::Conflict);
            }
            c.to_owned()
        },
        None => match first_unused_exec(store, cands) {
            Some(i) => {
                proof {
                    lemma_first_unused_free(store.view(), cands@.map_values(|c: String| c@));
                }
                cands[i].clone()
            },
            None => {
                return Err(ServiceError::Internal);
            },
        },
    };
    let expires_at = now + ttl_seconds;
    match store.insert_link(code.as_str(), url, expires_at, now) {
        Ok(()) => {},
        Err(StoreError::DuplicateKey) => {
            return Err(ServiceError::Internal);
        },
    }
    Ok(Link { code, original_url: url.to_owned(), expires_at, created_at: now })
}

/// Creates a link at `now`: checks the URL and the TTL, takes the custom code
/// if it is well formed and free, or else the first free one of ten freshly
/// generated codes, and stores the link. Only a success changes the store.
pub fn create_link(
    store: &mut LinkStore,
    url: &str,
    custom_code: Option<&str>,
    ttl: Option<&str>,
    now: i64,
) -> (r: Result<Link, ServiceError>)
    requires
        old(store).wf(),
        now <= i64::MAX - MAX_TTL_SECONDS,
    ensures
        final(store).wf(),
        final(store).visit_log() == old(store).visit_log(),
        exists|cands: Seq<Seq<char>>|
            {
                &&& cands.len() <= 10
                &&& custom_code is None ==> cands.len() == 10
                &&& forall|i: int| 0 <= i < cands.len() ==> is_generated_shape(#[trigger] cands[i])
                &&& link_result(r) == create_outcome(
                    old(store).view(),
                    url@,
                    url_host_of(url@),
                    opt_view(custom_code),
                    opt_view(ttl),
                    now as int,
                    cands,
                )
            },
        final(store).view() == links_after_create(old(store).view(), link_result(r)),
{
    let mut cands: Vec<String> = Vec::new();
    if custom_code.is_none() {
        while cands.len() < MAX_CODE_ATTEMPTS
            invariant
                cands@.len() <= 10,
                forall|i: int| 0 <= i < cands@.len() ==> is_generated_shape(#[trigger] cands@[i]@),
            decreases 10 - cands@.len(),
        {
            cands.push(generate_code());
        }
    }
    let parsed = parse_url_host(url);
    let r = create_link_from(store, url, &parsed, custom_code, ttl, now, &cands);
    proof {
        let w = cands@.map_values(|c: String| c@);
        assert(forall|i: int| 0 <= i < w.len() ==> is_generated_shape(#[trigger] w[i]));
    }
    r
}

/// Resolves `code` at `now` for a redirect. A live link gives its target URL
/// and records a visit with `info`; an expired one is deleted and, like an
/// absent one or a code out of shape, gives `NotFound`.
pub fn redirect(store: &mut LinkStore, code: &str, now: i64, info: VisitInfo) -> (r: Result<
    String,
    ServiceError,
>)
    requires
        old(store).wf(),
    ensures
        final(store).wf(),
        match r {
            Ok(u) => resolve_outcome(old(store).view(), code@, now as int) == Ok::<
                Seq<char>,
                ServiceError,
            >(u@),
            Err(e) => resolve_outcome(old(store).view(), code@, now as int) == Err::<
                Seq<char>,
                ServiceError,
            >(e),
        },
        final(store).view() == links_after_resolve(old(store).view(), code@, now as int),
        r is Ok ==> final(store).visit_log().len() == old(store).visit_log().len() + 1
            && final(store).visit_log().drop_last() == old(store).visit_log() && visit_of(
            code@,
            now,
            info,
            final(store).visit_log().last(),
        ),
        r is Err ==> final(store).visit_log() == old(store).visit_log(),
{
    let n = code.unicode_len();
    if n == 0 || n > MAX_CODE_LEN {
        return Err(ServiceError::NotFound);
    }
    let link = match store.get_link(code) {
        Some(l) => l,
        None => {
            return Err(ServiceError::NotFound);
        },
    };
    if now > link.expires_at {
        store.delete_link(code);
        return Err(ServiceError::NotFound);
    }
    store.insert_visit(code, now, info);
    Ok(link.original_url)
}

} // verus!

verus! {

proof fn lemma_first_unused_valid(links: Map<Seq<char>, LinkView>, cands: Seq<Seq<char>>)
    requires
        first_unused(links, cands) is Some,
        forall|i: int| 0 <= i < cands.len() ==> is_valid_code(#[trigger] cands[i]),
    ensures
        is_valid_code(first_unused(links, cands)->0),
    decreases cands.len(),
{
    if links.contains_key(cands[0]) {
        let rest = cands.drop_first();
        assert forall|i: int| 0 <= i < rest.len() implies is_valid_code(#[trigger] rest[i]) by {
            assert(rest[i] == cands[i + 1]);
        }
        lemma_first_unused_valid(links, rest);
    } else {
        assert(is_valid_code(cands[0]));
    }
}

/// A link created without a custom code resolves to its URL at every instant
/// from its creation to its expiry, both included.
pub proof fn lemma_create_then_resolve(
    links: Map<Seq<char>, LinkView>,
    url: Seq<char>,
    parsed: Option<Option<Seq<char>>>,
    ttl: Option<Seq<char>>,
    now: int,
    cands: Seq<Seq<char>>,
    later: int,
)
    requires
        forall|i: int| 0 <= i < cands.len() ==> is_generated_shape(#[trigger] cands[i]),
        create_outcome(links, url, parsed, None, ttl, now, cands) is Ok,
        create_outcome(links, url, parsed, None, ttl, now, cands)->Ok_0.created_at <= later
            <= create_outcome(links, url, parsed, None, ttl, now, cands)->Ok_0.expires_at,
    ensures
        resolve_outcome(
            links_after_create(links, create_outcome(links, url, parsed, None, ttl, now, cands)),
            create_outcome(links, url, parsed, None, ttl, now, cands)->Ok_0.code,
            later,
        ) == Ok::<Seq<char>, ServiceError>(url),
{
    assert forall|i: int| 0 <= i < cands.len() implies is_valid_code(#[trigger] cands[i]) by {
        assert(is_generated_shape(cands[i]));
    }
    lemma_first_unused_valid(links, cands);
}

/// Once a link has expired, resolving its code gives `NotFound`, and so does
/// resolving it again.
pub proof fn lemma_expired_not_found(links: Map<Seq<char>, LinkView>, code: Seq<char>, now: int)
    requires
        links.contains_key(code),
        now > links[code].expires_at,
    ensures
        resolve_outcome(links, code, now) == Err::<Seq<char>, ServiceError>(ServiceError::NotFound),
        resolve_outcome(links_after_resolve(links, code, now), code, now) == Err::<
            Seq<char>,
            ServiceError,
        >(ServiceError::NotFound),
{
}

/// Creating a link under the code of a live link fails with `Conflict` and
/// leaves every link as it was.
pub proof fn lemma_taken_code_conflicts(
    links: Map<Seq<char>, LinkView>,
    url: Seq<char>,
    parsed: Option<Option<Seq<char>>>,
    code: Seq<char>,
    ttl: Option<Seq<char>>,
    now: int,
    cands: Seq<Seq<char>>,
)
    requires
        url_verdict(url, parsed) is Ok,
        ttl_for(ttl) is Ok,
        is_valid_code(code),
        links.contains_key(code),
        links[code].is_live(now),
    ensures
        create_outcome(links, url, parsed, Some(code), ttl, now, cands) == Err::<
            LinkView,
            ServiceError,
        >(ServiceError::Conflict),
        links_after_create(links, create_outcome(links, url, parsed, Some(code), ttl, now, cands))
            == links,
{
}

} // verus!

verus! {

pub open spec fn bearer_prefix() -> Seq<char> {
    seq!['B', 'e', 'a', 'r', 'e', 'r', ' ']
}

/// Whether an `Authorization` header admits its caller: with no token set
/// every caller is; else the header is `Bearer ` and then the token, exactly.
/// A missing header reads as empty.
pub open spec fn bearer_ok(token: Option<Seq<char>>, header: Option<Seq<char>>) -> bool {
    match token {
        None => true,
        Some(t) => match header {
            Some(h) => h == bearer_prefix() + t,
            None => false,
        },
    }
}

/// Admits the caller whose `Authorization` header is `header`, where the
/// service asks for `token`; refuses with `Unauthorized` otherwise.
pub fn authorize(token: Option<&str>, header: Option<&str>) -> (r: Result<(), ServiceError>)
    ensures
        r is Ok <==> bearer_ok(opt_view(token), opt_view(header)),
        r is Err ==> r == Err::<(), ServiceError>(ServiceError::Unauthorized),
{
    let t = match token {
        None => {
            return Ok(());
        },
        Some(t) => t,
    };
    let h = match header {
        None => {
            return Err(ServiceError::Unauthorized);
        },
        Some(h) => h,
    };
    assert(opt_view(header) == Some(h@) && opt_view(token) == Some(t@));
    let hs = chars_of(h);
    let ts = chars_of(t);
    let p = vec!['B', 'e', 'a', 'r', 'e', 'r', ' '];
    assert(p@ == bearer_prefix());
    if hs.len() < 7 || hs.len() - 7 != ts.len() {
        assert(hs@.len() != (bearer_prefix() + t@).len());
        return Err(ServiceError::Unauthorized);
    }
    let mut i: usize = 0;
    while i < hs.len()
        invariant
            hs@.len() == 7 + ts@.len(),
            hs@ == h@,
            ts@ == t@,
            opt_view(header) == Some(h@),
            opt_view(token) == Some(t@),
            p@ == bearer_prefix(),
            i <= hs@.len(),
            forall|j: int| 0 <= j < i ==> hs@[j] == (p@ + ts@)[j],
        decreases hs@.len() - i,
    {
        let want = if i < 7 {
            p[i]
        } else {
            ts[i - 7]
        };
        assert(want == (p@ + ts@)[i as int]);
        if hs[i] != want {
            assert(hs@[i as int] != (p@ + ts@)[i as int]);
            assert(h@ != bearer_prefix() + t@);
            return Err(ServiceError::Unauthorized);
        }
        i = i + 1;
    }
    assert(hs@ =~= p@ + ts@);
    Ok(())
}

/// `s` without its trailing slashes.
pub open spec fn trim_slashes(s: Seq<char>) -> Seq<char>
    decreases s.len(),
{
    if s.len() > 0 && s.last() == '/' {
        trim_slashes(s.drop_last())
    } else {
        s
    }
}

/// The short URL of `code` under `base`: the base without trailing slashes,
/// a slash, then the code.
pub open spec fn short_url_of(base: Seq<char>, code: Seq<char>) -> Seq<char> {
    trim_slashes(base).push('/') + code
}

/// The short URL of `code` under `base_url`.
pub fn short_url(base_url: &str, code: &str) -> (r: String)
    ensures
        r@ == short_url_of(base_url@, code@),
{
    let b = chars_of(base_url);
    let c = chars_of(code);
    let mut end: usize = b.len();
    assert(b@.take(b@.len() as int) =~= b@);
    while end > 0 && b[end - 1] == '/'
        invariant
            end <= b@.len(),
            trim_slashes(b@) == trim_slashes(b@.take(end as int)),
        decreases end,
    {
        assert(b@.take(end as int).drop_last() =~= b@.take(end - 1));
        end = end - 1;
    }
    let ghost kept = b@.take(end as int);
    assert(trim_slashes(kept) == kept);
    let mut out = String::new();
    let mut i: usize = 0;
    while i < end
        invariant
            end <= b@.len(),
            kept == b@.take(end as int),
            i <= end,
            out@ == b@.take(i as int),
        decreases end - i,
    {
        push_char(&mut out, b[i]);
        assert(out@ =~= b@.take(i + 1));
        i = i + 1;
    }
    push_char(&mut out, '/');
    let ghost head = out@;
    let mut j: usize = 0;
    while j < c.len()
        invariant
            j <= c@.len(),
            out@ == head + c@.take(j as int),
        decreases c@.len() - j,
    {
        push_char(&mut out, c[j]);
        assert(out@ =~= head + c@.take(j + 1));
        j = j + 1;
    }
    assert(c@.take(c@.len() as int) =~= c@);
    assert(b@.take(b@.len() as int) =~= b@);
    out
}

/// What a shortening request gives back, as plain values: the code, the
/// short URL and the expiry.
pub open spec fn response_view(r: Result<ShortenResponse, ServiceError>) -> Result<
    (Seq<char>, Seq<char>, int),
    ServiceError,
> {
    match r {
        Ok(resp) => Ok((resp.code@, resp.short_url@, resp.expires_at as int)),
        Err(e) => Err(e),
    }
}

/// What a shortening request answers for a creation outcome.
pub open spec fn response_for(outcome: Result<LinkView, ServiceError>, base: Seq<char>) -> Result<
    (Seq<char>, Seq<char>, int),
    ServiceError,
> {
    match outcome {
        Ok(l) => Ok((l.code, short_url_of(base, l.code), l.expires_at)),
        Err(e) => Err(e),
    }
}

/// What serving a shortening request at `now` does: the store goes from
/// `before` to `after` and `r` is answered, as the creation of the link from
/// some ten or fewer generated candidates decides.
pub open spec fn serves_shorten(
    before: Map<Seq<char>, LinkView>,
    after: Map<Seq<char>, LinkView>,
    req: ShortenRequest,
    base_url: Seq<char>,
    now: int,
    r: Result<ShortenResponse, ServiceError>,
) -> bool {
    exists|cands: Seq<Seq<char>>|
        {
            &&& cands.len() <= 10
            &&& opt_string_view(req.code) is None ==> cands.len() == 10
            &&& forall|i: int| 0 <= i < cands.len() ==> is_generated_shape(#[trigger] cands[i])
            &&& response_view(r) == response_for(
                #[trigger] create_outcome(
                    before,
                    req.url@,
                    url_host_of(req.url@),
                    opt_string_view(req.code),
                    opt_string_view(req.ttl),
                    now,
                    cands,
                ),
                base_url,
            )
            &&& after == links_after_create(
                before,
                create_outcome(
                    before,
                    req.url@,
                    url_host_of(req.url@),
                    opt_string_view(req.code),
                    opt_string_view(req.ttl),
                    now,
                    cands,
                ),
            )
        }
}

/// Serves a request to shorten a URL at `now`, with no token asked for:
/// creates the link as [`create_link`] does and answers its code, its short
/// URL under `base_url` and its expiry.
pub fn shorten_noauth(store: &mut LinkStore, req: &ShortenRequest, base_url: &str, now: i64) -> (r: Result<
    ShortenResponse,
    ServiceError,
>)
    requires
        old(store).wf(),
        now <= i64::MAX - MAX_TTL_SECONDS,
    ensures
        final(store).wf(),
        final(store).visit_log() == old(store).visit_log(),
        serves_shorten(old(store).view(), final(store).view(), *req, base_url@, now as int, r),
{
    let code = match &req.code {
        Some(c) => Some(c.as_str()),
        None => None,
    };
    let ttl = match &req.ttl {
        Some(t) => Some(t.as_str()),
        None => None,
    };
    match create_link(store, req.url.as_str(), code, ttl, now) {
        Ok(link) => {
            let short = short_url(base_url, link.code.as_str());
            Ok(ShortenResponse { code: link.code, short_url: short, expires_at: link.expires_at })
        },
        Err(e) => Err(e),
    }
}

/// Serves a request to shorten a URL at `now` from a caller whose
/// `Authorization` header is `auth_header`: refused with `Unauthorized`, and
/// nothing stored, unless it carries `auth_token`; else as
/// [`shorten_noauth`].
pub fn shorten(
    store: &mut LinkStore,
    auth_token: Option<&str>,
    auth_header: Option<&str>,
    req: &ShortenRequest,
    base_url: &str,
    now: i64,
) -> (r: Result<ShortenResponse, ServiceError>)
    requires
        old(store).wf(),
        now <= i64::MAX - MAX_TTL_SECONDS,
    ensures
        final(store).wf(),
        final(store).visit_log() == old(store).visit_log(),
        !bearer_ok(opt_view(auth_token), opt_view(auth_header)) ==> r == Err::<
            ShortenResponse,
            ServiceError,
        >(ServiceError::Unauthorized) && final(store).view() == old(store).view(),
        bearer_ok(opt_view(auth_token), opt_view(auth_header)) ==> serves_shorten(
            old(store).view(),
            final(store).view(),
            *req,
            base_url@,
            now as int,
            r,
        ),
{
    match authorize(auth_token, auth_header) {
        Ok(()) => shorten_noauth(store, req, base_url, now),
        Err(e) => Err(e),
    }
}

/// The view of an optional string.
pub open spec fn opt_string_view(o: Option<String>) -> Option<Seq<char>> {
    match o {
        Some(t) => Some(t@),
        None => None,
    }
}

} // verus!
