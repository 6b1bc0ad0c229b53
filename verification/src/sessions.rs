//! Coven sessions as the agent sees them, the chunks of a streamed reply,
//! the cache of sessions kept for the UI, and the addresses of the
//! gateway's endpoints.

use vstd::prelude::*;
use std::path::PathBuf;
use crate::text::{chars_of, starts_with, starts_with_exec, slice_of, string_of, strip_end};

verus! {

#[derive(Debug, Clone, Copy, PartialEq, Eq, Structural)]
pub enum SessionStatus {
    Active,
    Idle,
    Closed,
}

/// A session of the Coven gateway.
#[derive(Debug, Clone)]
pub struct CovenSession {
    pub id: String,
    pub name: String,
    pub status: SessionStatus,
    /// RFC 3339 time of the session's last activity.
    pub last_active: Option<String>,
    /// Working directory the session was opened in, when the gateway
    /// reports one.
    pub cwd: Option<PathBuf>,
}

/// A chunk of a streamed chat reply: a fragment of content, the end of the
/// stream, or an error that ends it.
#[derive(Debug, Clone, PartialEq, Eq)]
pub enum MessageChunk {
    Delta { conversation_id: String, content: String },
    Done { conversation_id: String },
    Error { conversation_id: String, message: String },
}

// ---------------------------------------------------------------------------
// The session cache
// ---------------------------------------------------------------------------

/// Position of the first cached session with identifier `id`.
pub open spec fn session_pos(cache: Seq<CovenSession>, id: Seq<char>) -> Option<int>
    decreases cache.len(),
{
    if cache.len() == 0 {
        None
    } else {
        match session_pos(cache.drop_last(), id) {
            Some(i) => Some(i),
            None => if cache.last().id@ == id {
                Some(cache.len() - 1)
            } else {
                None
            },
        }
    }
}

proof fn lemma_session_pos(cache: Seq<CovenSession>, id: Seq<char>)
    ensures
        match session_pos(cache, id) {
            Some(i) => 0 <= i < cache.len() && cache[i].id@ == id && forall|j: int|
                0 <= j < i ==> cache[j].id@ != id,
            None => forall|j: int| 0 <= j < cache.len() ==> cache[j].id@ != id,
        },
    decreases cache.len(),
{
    if cache.len() > 0 {
        let p = cache.drop_last();
        lemma_session_pos(p, id);
        match session_pos(p, id) {
            Some(i) => {
                assert forall|j: int| 0 <= j < i implies cache[j].id@ != id by {
                    assert(cache[j] == p[j]);
                }
                assert(cache[i] == p[i]);
            },
            None => {
                assert forall|j: int| 0 <= j < cache.len() - 1 implies cache[j].id@ != id by {
                    assert(cache[j] == p[j]);
                }
            },
        }
    }
}

proof fn lemma_session_pos_first(cache: Seq<CovenSession>, id: Seq<char>, n: int)
    requires
        0 <= n <= cache.len(),
        forall|j: int| 0 <= j < n ==> cache[j].id@ != id,
    ensures
        n < cache.len() && cache[n].id@ == id ==> session_pos(cache, id) == Some(n),
        n == cache.len() ==> session_pos(cache, id) is None,
{
    lemma_session_pos(cache, id);
}

/// The cache after a session was opened: the entry with its identifier is
/// replaced, or the session is added at the end.
pub open spec fn upserted(cache: Seq<CovenSession>, session: CovenSession) -> Seq<CovenSession> {
    match session_pos(cache, session.id@) {
        Some(i) => cache.update(i, session),
        None => cache.push(session),
    }
}

/// The cache after the session `id` was closed: every entry with that
/// identifier removed.
pub open spec fn without_session(cache: Seq<CovenSession>, id: Seq<char>) -> Seq<CovenSession> {
    cache.filter(|s: CovenSession| s.id@ != id)
}

/// Records a session that was opened (or reopened) in the cache.
pub fn upsert_session(cache: &mut Vec<CovenSession>, session: CovenSession)
    ensures
        final(cache)@ == upserted(old(cache)@, session),
{
    let mut i: usize = 0;
    while i < cache.len()
        invariant
            i <= cache.len(),
            cache@ == old(cache)@,
            forall|j: int| 0 <= j < i ==> cache@[j].id@ != session.id@,
        decreases cache.len() - i,
    {
        if cache[i].id == session.id {
            proof {
                lemma_session_pos_first(cache@, session.id@, i as int);
            }
            cache.set(i, session);
            return;
        }
        i += 1;
    }
    proof {
        lemma_session_pos_first(cache@, session.id@, i as int);
    }
    cache.push(session);
}

/// Drops a closed session from the cache.
pub fn remove_session(cache: &mut Vec<CovenSession>, id: &str)
    ensures
        final(cache)@ == without_session(old(cache)@, id@),
{
    let key = id.to_owned();
    let mut kept: Vec<CovenSession> = Vec::new();
    let ghost all = cache@;
    while cache.len() > 0
        invariant
            all == old(cache)@,
            key@ == id@,
            cache.len() <= all.len(),
            cache@ == all.take(cache.len() as int),
            kept@ == without_session(all.skip(cache.len() as int), id@),
        decreases cache.len(),
    {
        let ghost n = cache.len();
        let s = cache.pop().unwrap();
        proof {
            let tail = all.skip(n - 1);
            assert(tail.drop_first() =~= all.skip(n as int));
            assert(tail[0] == s);
            assert(tail =~= seq![s] + all.skip(n as int));
            reveal_with_fuel(Seq::filter, 2);
            Seq::filter_distributes_over_add(seq![s], all.skip(n as int), |x: CovenSession| x.id@ != id@);
            assert(seq![s].drop_last() =~= Seq::<CovenSession>::empty());
            if s.id@ != id@ {
                assert(without_session(seq![s], id@) =~= seq![s]);
            } else {
                assert(without_session(seq![s], id@) =~= Seq::<CovenSession>::empty());
            }
        }
        let ghost before = kept@;
        if s.id != key {
            kept.insert(0, s);
            assert(kept@ =~= seq![s] + before);
        }
        proof {
            assert(cache@ =~= all.take(cache.len() as int));
            let tail = all.skip(cache.len() as int);
            assert(kept@ =~= without_session(tail, id@));
        }
    }
    assert(all.skip(0) =~= all);
    *cache = kept;
}

/// Closing a session that was just opened, when no session with its
/// identifier was cached before, gives the cache back as it was; and an
/// opened session is found under its identifier.
pub proof fn law_close_undoes_open(cache: Seq<CovenSession>, session: CovenSession)
    requires
        forall|j: int| 0 <= j < cache.len() ==> cache[j].id@ != session.id@,
    ensures
        session_pos(upserted(cache, session), session.id@) == Some(cache.len() as int),
        without_session(upserted(cache, session), session.id@) == cache,
{
    lemma_session_pos_first(cache, session.id@, cache.len() as int);
    let c = cache.push(session);
    lemma_session_pos_first(c, session.id@, cache.len() as int);
    reveal_with_fuel(Seq::filter, 1);
    assert(c.drop_last() =~= cache);
    lemma_filter_keeps(cache, session.id@);
}

proof fn lemma_filter_keeps(cache: Seq<CovenSession>, id: Seq<char>)
    requires
        forall|j: int| 0 <= j < cache.len() ==> cache[j].id@ != id,
    ensures
        without_session(cache, id) == cache,
    decreases cache.len(),
{
    reveal_with_fuel(Seq::filter, 1);
    if cache.len() > 0 {
        let p = cache.drop_last();
        assert forall|j: int| 0 <= j < p.len() implies p[j].id@ != id by {
            assert(p[j] == cache[j]);
        }
        lemma_filter_keeps(p, id);
        assert(without_session(cache, id) =~= cache);
    }
}

/// After a session is opened, the cache holds it under its identifier.
pub proof fn law_open_then_find(cache: Seq<CovenSession>, session: CovenSession)
    ensures
        ({
            let c = upserted(cache, session);
            session_pos(c, session.id@) matches Some(i) && c[i] == session
        }),
{
    lemma_session_pos(cache, session.id@);
    match session_pos(cache, session.id@) {
        Some(i) => {
            let c = cache.update(i, session);
            lemma_session_pos_first(c, session.id@, i);
        },
        None => {
            lemma_session_pos_first(cache.push(session), session.id@, cache.len() as int);
        },
    }
}

// ---------------------------------------------------------------------------
// Gateway endpoints
// ---------------------------------------------------------------------------

/// The address of `path` on the gateway at `base` (trailing `/` of the
/// base dropped).
pub open spec fn endpoint_of(base: Seq<char>, path: Seq<char>) -> Seq<char> {
    strip_end(base, '/') + path
}

/// The WebSocket address of `path`: `https://` becomes `wss://`, `http://`
/// becomes `ws://`, a WebSocket scheme stays, and any other base is taken
/// as a host reached over `ws://`.
pub open spec fn ws_endpoint_of(base: Seq<char>, path: Seq<char>) -> Seq<char> {
    let b = strip_end(base, '/');
    let swapped = if starts_with(b, "https://"@) {
        "wss://"@ + b.skip(8)
    } else if starts_with(b, "http://"@) {
        "ws://"@ + b.skip(7)
    } else if starts_with(b, "ws://"@) || starts_with(b, "wss://"@) {
        b
    } else {
        "ws://"@ + b
    };
    swapped + path
}

fn strip_trailing_slashes(s: &str) -> (r: Vec<char>)
    ensures
        r@ == strip_end(s@, '/'),
{
    let v = chars_of(s);
    let mut k: usize = v.len();
    assert(v@.take(k as int) =~= v@);
    while k > 0 && v[k - 1] == '/'
        invariant
            k <= v.len(),
            strip_end(v@, '/') == strip_end(v@.take(k as int), '/'),
        decreases k,
    {
        assert(v@.take(k as int).drop_last() =~= v@.take(k - 1));
        k -= 1;
    }
    let r = slice_of(&v, 0, k);
    assert(r@ =~= v@.take(k as int));
    r
}

/// The HTTP address of `path` on the gateway at `gateway_url`.
pub fn endpoint_url(gateway_url: &str, path: &str) -> (r: String)
    ensures
        r@ == endpoint_of(gateway_url@, path@),
{
    let mut v = strip_trailing_slashes(gateway_url);
    crate::text::push_str(&mut v, path);
    string_of(&v)
}

/// The WebSocket address of `path` on the gateway at `gateway_url`.
pub fn ws_endpoint_url(gateway_url: &str, path: &str) -> (r: String)
    ensures
        r@ == ws_endpoint_of(gateway_url@, path@),
{
    let b = strip_trailing_slashes(gateway_url);
    let https = chars_of("https://");
    let http = chars_of("http://");
    let ws = chars_of("ws://");
    let wss = chars_of("wss://");
    proof {
        reveal_strlit("https://");
        reveal_strlit("http://");
    }
    let mut out: Vec<char> = Vec::new();
    if starts_with_exec(&b, &https) {
        crate::text::append(&mut out, &wss);
        crate::text::append(&mut out, &slice_of(&b, 8, b.len()));
        assert(b@.subrange(8, b@.len() as int) =~= b@.skip(8));
    } else if starts_with_exec(&b, &http) {
        crate::text::append(&mut out, &ws);
        crate::text::append(&mut out, &slice_of(&b, 7, b.len()));
        assert(b@.subrange(7, b@.len() as int) =~= b@.skip(7));
    } else if starts_with_exec(&b, &ws) || starts_with_exec(&b, &wss) {
        crate::text::append(&mut out, &b);
    } else {
        crate::text::append(&mut out, &ws);
        crate::text::append(&mut out, &b);
    }
    crate::text::push_str(&mut out, path);
    string_of(&out)
}

/// The header that authorizes requests with `token`: `Authorization:
/// Bearer <token>`; none without a token.
pub fn auth_header(token: Option<&str>) -> (r: Option<(&'static str, String)>)
    ensures
        match token {
            Some(t) => r matches Some(h) && h.0@ == "Authorization"@ && h.1@ == "Bearer "@ + t@,
            None => r is None,
        },
{
    match token {
        Some(t) => {
            let mut v = chars_of("Bearer ");
            crate::text::push_str(&mut v, t);
            Some(("Authorization", string_of(&v)))
        },
        None => None,
    }
}

} // verus!
