//! URL / search query resolver for the browser pane's address bar.

use vstd::prelude::*;
use crate::text::{
    append, chars_of, contains_char, contains_char_exec, eq_chars, find_char, find_char_exec,
    is_ws, lemma_find_char, lemma_find_char_none, lemma_find_char_unique, slice_of, starts_with, starts_with_exec, string_of, trim, trim_vec,
};

verus! {

/// Search engine choices exposed in `general.default_search_engine`.
#[derive(Debug, Clone, Copy, PartialEq, Eq, Hash, Structural)]
pub enum SearchEngine {
    Google,
    DuckDuckGo,
    Bing,
    Kagi,
    Brave,
}

impl Default for SearchEngine {
    fn default() -> (r: SearchEngine)
        ensures
            r == SearchEngine::Google,
    {
        SearchEngine::Google
    }
}

pub open spec fn engine_name(e: SearchEngine) -> Seq<char> {
    match e {
        SearchEngine::Google => "Google"@,
        SearchEngine::DuckDuckGo => "DuckDuckGo"@,
        SearchEngine::Bing => "Bing"@,
        SearchEngine::Kagi => "Kagi"@,
        SearchEngine::Brave => "Brave Search"@,
    }
}

pub open spec fn engine_prefix(e: SearchEngine) -> Seq<char> {
    match e {
        SearchEngine::Google => "https://www.google.com/search?q="@,
        SearchEngine::DuckDuckGo => "https://duckduckgo.com/?q="@,
        SearchEngine::Bing => "https://www.bing.com/search?q="@,
        SearchEngine::Kagi => "https://kagi.com/search?q="@,
        SearchEngine::Brave => "https://search.brave.com/search?q="@,
    }
}

/// Bytes left as they are by the query encoder.
pub open spec fn is_unreserved(b: u8) -> bool {
    ||| (65 <= b && b <= 90)
    ||| (97 <= b && b <= 122)
    ||| (48 <= b && b <= 57)
    ||| b == 45
    ||| b == 95
    ||| b == 46
    ||| b == 126
}

/// Upper-case hexadecimal digit for `n < 16`.
pub open spec fn hex_digit(n: int) -> char {
    if n < 10 {
        (('0' as u32) + n) as char
    } else {
        (('A' as u32) + (n - 10)) as char
    }
}

/// Percent-encoding of a byte string: unreserved bytes stay, every other
/// byte becomes `%XX`.
pub open spec fn percent_encoded(bytes: Seq<u8>) -> Seq<char>
    decreases bytes.len(),
{
    if bytes.len() == 0 {
        Seq::empty()
    } else {
        let b = bytes.last();
        let rest = percent_encoded(bytes.drop_last());
        if is_unreserved(b) {
            rest.push(b as char)
        } else {
            rest + seq!['%', hex_digit((b / 16) as int), hex_digit((b % 16) as int)]
        }
    }
}

impl SearchEngine {
    pub fn display_name(self) -> (r: &'static str)
        ensures
            r@ == engine_name(self),
    {
        match self {
            SearchEngine::Google => "Google",
            SearchEngine::DuckDuckGo => "DuckDuckGo",
            SearchEngine::Bing => "Bing",
            SearchEngine::Kagi => "Kagi",
            SearchEngine::Brave => "Brave Search",
        }
    }

    /// Prefix for a search query; the percent-encoded query is appended to
    /// it verbatim.
    pub fn query_url_prefix(self) -> (r: &'static str)
        ensures
            r@ == engine_prefix(self),
    {
        match self {
            SearchEngine::Google => "https://www.google.com/search?q=",
            SearchEngine::DuckDuckGo => "https://duckduckgo.com/?q=",
            SearchEngine::Bing => "https://www.bing.com/search?q=",
            SearchEngine::Kagi => "https://kagi.com/search?q=",
            SearchEngine::Brave => "https://search.brave.com/search?q=",
        }
    }

    pub fn search_url(self, query: &str) -> (r: String)
        ensures
            r@ == engine_prefix(self) + percent_encoded(vstd::utf8::encode_utf8(query@)),
    {
        let mut out = chars_of(self.query_url_prefix());
        let enc = percent_encode_vec(query);
        append(&mut out, &enc);
        string_of(&out)
    }

    /// All variants, in stable display order.
    pub fn all() -> (r: Vec<SearchEngine>)
        ensures
            r@ == seq![
                SearchEngine::Google,
                SearchEngine::DuckDuckGo,
                SearchEngine::Bing,
                SearchEngine::Kagi,
                SearchEngine::Brave,
            ],
    {
        let mut r: Vec<SearchEngine> = Vec::new();
        r.push(SearchEngine::Google);
        r.push(SearchEngine::DuckDuckGo);
        r.push(SearchEngine::Bing);
        r.push(SearchEngine::Kagi);
        r.push(SearchEngine::Brave);
        r
    }
}

#[derive(Debug, Clone, PartialEq, Eq)]
pub enum Resolved {
    Url(String),
    Search(String),
}

/// Schemes that pass through the address bar unchanged.
pub open spec fn passes_through(t: Seq<char>) -> bool {
    ||| starts_with(t, "http://"@)
    ||| starts_with(t, "https://"@)
    ||| starts_with(t, "file://"@)
    ||| starts_with(t, "about:"@)
    ||| starts_with(t, "data:"@)
    ||| starts_with(t, "castcodes://"@)
}

/// The part of `s` before the first `c` (all of `s` without one).
pub open spec fn before_char(s: Seq<char>, c: char) -> Seq<char> {
    match find_char(s, c) {
        Some(i) => s.take(i),
        None => s,
    }
}

/// The host of `host[:port][/path]`, with IPv6 literals in brackets.
pub open spec fn host_of(input: Seq<char>) -> Seq<char> {
    let host_port = before_char(input, '/');
    if host_port.len() > 0 && host_port[0] == '[' {
        let rest = host_port.skip(1);
        match find_char(rest, ']') {
            Some(i) => rest.take(i),
            None => host_port,
        }
    } else if host_port == "::1"@ {
        host_port
    } else {
        before_char(host_port, ':')
    }
}

pub open spec fn is_loopback(input: Seq<char>) -> bool {
    let h = host_of(input);
    h == "localhost"@ || h == "127.0.0.1"@ || h == "::1"@ || h == "0.0.0.0"@
}

pub open spec fn has_ws(s: Seq<char>) -> bool {
    exists|i: int| 0 <= i < s.len() && is_ws(s[i])
}

/// What the address bar makes of its input: `(true, url)` for a page to
/// load, `(false, url)` for a search.
pub open spec fn resolution(raw: Seq<char>, engine: SearchEngine) -> (bool, Seq<char>) {
    let t = trim(raw);
    if t.len() == 0 {
        (true, "about:home"@)
    } else if passes_through(t) {
        (true, t)
    } else if !has_ws(t) && (contains_char(t, '.') || is_loopback(t)) {
        (true, (if is_loopback(t) { "http://"@ } else { "https://"@ }) + t)
    } else {
        (false, engine_prefix(engine) + percent_encoded(vstd::utf8::encode_utf8(t)))
    }
}

pub open spec fn resolved_view(r: Resolved) -> (bool, Seq<char>) {
    match r {
        Resolved::Url(u) => (true, u@),
        Resolved::Search(u) => (false, u@),
    }
}

pub fn resolve_with_engine(raw: &str, engine: SearchEngine) -> (r: Resolved)
    ensures
        resolved_view(r) == resolution(raw@, engine),
{
    let v = chars_of(raw);
    let t = trim_vec(&v);
    if t.len() == 0 {
        return Resolved::Url("about:home".to_owned());
    }

    if starts_with_exec(&t, &chars_of("http://")) || starts_with_exec(&t, &chars_of("https://"))
        || starts_with_exec(&t, &chars_of("file://")) || starts_with_exec(&t, &chars_of("about:"))
        || starts_with_exec(&t, &chars_of("data:")) || starts_with_exec(
        &t,
        &chars_of("castcodes://"),
    ) {
        return Resolved::Url(string_of(&t));
    }
    let ws = has_whitespace(&t);
    let loopback = is_loopback_host(&t);
    let looks_like_host = !ws && (contains_char_exec(&t, '.') || loopback);
    if looks_like_host {
        let mut out = if loopback {
            chars_of("http://")
        } else {
            chars_of("https://")
        };
        append(&mut out, &t);
        return Resolved::Url(string_of(&out));
    }
    let ts = string_of(&t);
    Resolved::Search(engine.search_url(ts.as_str()))
}

fn has_whitespace(t: &Vec<char>) -> (r: bool)
    ensures
        r == has_ws(t@),
{
    let mut i: usize = 0;
    while i < t.len()
        invariant
            i <= t.len(),
            forall|j: int| 0 <= j < i ==> !is_ws(t@[j]),
        decreases t.len() - i,
    {
        if crate::text::is_whitespace(t[i]) {
            return true;
        }
        i += 1;
    }
    false
}

fn before_char_exec(s: &Vec<char>, c: char) -> (r: Vec<char>)
    ensures
        r@ == before_char(s@, c),
{
    match find_char_exec(s, c) {
        Some(i) => {
            proof {
                crate::text::lemma_find_char(s@, c);
            }
            let r = slice_of(s, 0, i);
            assert(r@ =~= s@.take(i as int));
            r
        },
        None => s.clone(),
    }
}

pub fn is_loopback_host(input: &Vec<char>) -> (r: bool)
    ensures
        r == is_loopback(input@),
{
    let host_port = before_char_exec(input, '/');
    let host = if host_port.len() > 0 && host_port[0] == '[' {
        let rest = slice_of(&host_port, 1, host_port.len());
        assert(rest@ =~= host_port@.skip(1));
        match find_char_exec(&rest, ']') {
            Some(i) => {
                proof {
                    crate::text::lemma_find_char(rest@, ']');
                }
                let h = slice_of(&rest, 0, i);
                assert(h@ =~= rest@.take(i as int));
                h
            },
            None => host_port.clone(),
        }
    } else if eq_chars(&host_port, &chars_of("::1")) {
        host_port.clone()
    } else {
        before_char_exec(&host_port, ':')
    };
    eq_chars(&host, &chars_of("localhost")) || eq_chars(&host, &chars_of("127.0.0.1")) || eq_chars(
        &host,
        &chars_of("::1"),
    ) || eq_chars(&host, &chars_of("0.0.0.0"))
}

fn hex_digit_exec(n: u8) -> (c: char)
    requires
        n < 16,
    ensures
        c == hex_digit(n as int),
{
    let b: u8 = if n < 10 {
        48 + n
    } else {
        65 + (n - 10)
    };
    b as char
}

fn percent_encode_vec(input: &str) -> (r: Vec<char>)
    ensures
        r@ == percent_encoded(vstd::utf8::encode_utf8(input@)),
{
    let bytes = input.as_bytes();
    let mut out: Vec<char> = Vec::new();
    let mut i: usize = 0;
    while i < bytes.len()
        invariant
            i <= bytes@.len(),
            bytes@ == vstd::utf8::encode_utf8(input@),
            out@ == percent_encoded(bytes@.take(i as int)),
        decreases bytes@.len() - i,
    {
        let b = bytes[i];
        let ghost prev = bytes@.take(i as int);
        if (65 <= b && b <= 90) || (97 <= b && b <= 122) || (48 <= b && b <= 57) || b == 45 || b
            == 95 || b == 46 || b == 126 {
            out.push(b as char);
        } else {
            out.push('%');
            out.push(hex_digit_exec(b / 16));
            out.push(hex_digit_exec(b % 16));
        }
        i += 1;
        assert(bytes@.take(i as int).drop_last() =~= prev);
        assert(out@ =~= percent_encoded(bytes@.take(i as int)));
    }
    assert(bytes@.take(bytes@.len() as int) =~= bytes@);
    out
}

/// Percent-encode the UTF-8 bytes of a query string.
pub fn percent_encode_query(input: &str) -> (r: String)
    ensures
        r@ == percent_encoded(vstd::utf8::encode_utf8(input@)),
{
    let v = percent_encode_vec(input);
    string_of(&v)
}

// ---------------------------------------------------------------------------
// Laws
// ---------------------------------------------------------------------------

/// Different engines search under different URL prefixes.
pub proof fn law_prefixes_distinct(a: SearchEngine, b: SearchEngine)
    requires
        a != b,
    ensures
        engine_prefix(a) != engine_prefix(b),
{
    reveal_strlit("https://www.google.com/search?q=");
    reveal_strlit("https://duckduckgo.com/?q=");
    reveal_strlit("https://www.bing.com/search?q=");
    reveal_strlit("https://kagi.com/search?q=");
    reveal_strlit("https://search.brave.com/search?q=");
    let pa = engine_prefix(a);
    let pb = engine_prefix(b);
    if pa.len() == pb.len() {
        // Equal lengths only for Google / Bing (32 characters), which
        // differ at position 12.
        assert(pa[12] != pb[12]);
    }
}

/// Every engine's prefix is an `https` address that ends in the query
/// parameter's `=`, so the encoded query can follow it as it is.
pub proof fn law_prefix_ends_in_delimiter(e: SearchEngine)
    ensures
        starts_with(engine_prefix(e), "https://"@),
        engine_prefix(e).len() > 0,
        engine_prefix(e).last() == '=',
{
    reveal_strlit("https://");
    reveal_strlit("https://www.google.com/search?q=");
    reveal_strlit("https://duckduckgo.com/?q=");
    reveal_strlit("https://www.bing.com/search?q=");
    reveal_strlit("https://kagi.com/search?q=");
    reveal_strlit("https://search.brave.com/search?q=");
    let p = engine_prefix(e);
    assert(p.take(8) =~= "https://"@);
}

/// A query's encoding holds only unreserved characters, `%` and upper-case
/// hex digits, so it is safe inside a URL.
pub proof fn law_percent_encoding_is_url_safe(bytes: Seq<u8>)
    ensures
        forall|i: int|
            0 <= i < percent_encoded(bytes).len() ==> {
                let c = #[trigger] percent_encoded(bytes)[i];
                ||| ('A' <= c && c <= 'Z')
                ||| ('a' <= c && c <= 'z')
                ||| ('0' <= c && c <= '9')
                ||| c == '-' || c == '_' || c == '.' || c == '~' || c == '%'
            },
    decreases bytes.len(),
{
    if bytes.len() > 0 {
        law_percent_encoding_is_url_safe(bytes.drop_last());
        let b = bytes.last();
        let rest = percent_encoded(bytes.drop_last());
        let e = percent_encoded(bytes);
        assert forall|i: int| 0 <= i < e.len() implies {
            let c = #[trigger] e[i];
            ||| ('A' <= c && c <= 'Z')
            ||| ('a' <= c && c <= 'z')
            ||| ('0' <= c && c <= '9')
            ||| c == '-' || c == '_' || c == '.' || c == '~' || c == '%'
        } by {
            if i < rest.len() {
                assert(e[i] == rest[i]);
            }
        }
    }
}

/// An address that names a known scheme is loaded exactly as typed (after
/// trimming), whatever the search engine.
pub proof fn law_scheme_passes_through(raw: Seq<char>, engine: SearchEngine)
    requires
        trim(raw).len() > 0,
        passes_through(trim(raw)),
    ensures
        resolution(raw, engine) == (true, trim(raw)),
{
}

/// A search always lands under the chosen engine's prefix.
pub proof fn law_search_uses_engine(raw: Seq<char>, engine: SearchEngine)
    ensures
        !resolution(raw, engine).0 ==> starts_with(resolution(raw, engine).1, engine_prefix(engine)),
{
    let r = resolution(raw, engine);
    if !r.0 {
        assert(r.1.take(engine_prefix(engine).len() as int) =~= engine_prefix(engine));
    }
}


/// The host of `h` followed by a port or path is `h`, for a host name
/// without `/` or `:` that does not open with `[`.
proof fn lemma_host_of_plain(h: Seq<char>, s: Seq<char>)
    requires
        h.len() > 0,
        h[0] != '[',
        forall|i: int| 0 <= i < h.len() ==> h[i] != '/' && h[i] != ':',
        s.len() == 0 || s[0] == ':' || s[0] == '/',
    ensures
        host_of(h + s) == h,
{
    reveal_strlit("::1");
    let x = h + s;
    let n = h.len() as int;
    lemma_find_char(s, '/');
    let hp = before_char(x, '/');
    let r = before_char(s, '/');
    match find_char(s, '/') {
        Some(j) => {
            assert(x[n + j] == '/');
            assert forall|k: int| 0 <= k < n + j implies x[k] != '/' by {
                if k >= n {
                    assert(x[k] == s[k - n]);
                }
            }
            lemma_find_char_unique(x, '/', n + j);
            assert(hp =~= h + s.take(j));
            assert(r == s.take(j));
        },
        None => {
            assert forall|k: int| 0 <= k < x.len() implies x[k] != '/' by {
                if k >= n {
                    assert(x[k] == s[k - n]);
                }
            }
            lemma_find_char_none(x, '/');
            assert(hp == x);
            assert(r == s);
        },
    }
    assert(hp =~= h + r);
    assert(r.len() == 0 || r[0] == ':');
    assert(hp[0] == h[0]);
    assert(hp != "::1"@) by {
        assert("::1"@[0] == ':');
    }
    if r.len() > 0 {
        assert(hp[n] == ':');
        assert forall|k: int| 0 <= k < n implies hp[k] != ':' by {
            assert(hp[k] == h[k]);
        }
        lemma_find_char_unique(hp, ':', n);
        assert(hp.take(n) =~= h);
    } else {
        assert(hp =~= h);
        lemma_find_char_none(hp, ':');
    }
}

proof fn lemma_no_ws_text(x: Seq<char>)
    requires
        x.len() > 0,
        forall|i: int| 0 <= i < x.len() ==> !is_ws(#[trigger] x[i]),
    ensures
        trim(x) == x,
        !has_ws(x),
{
    assert(!is_ws(x[0]));
    assert(!is_ws(x[x.len() - 1]));
    assert(crate::text::trim_start(x) == x);
    assert(crate::text::trim_end(x) == x);
}

/// The loopback hosts `localhost`, `127.0.0.1` and `0.0.0.0`, alone or with
/// a port or a path, are loaded over plain `http`, whatever the search
/// engine.
pub proof fn law_loopback_hosts_use_http(h: Seq<char>, s: Seq<char>, engine: SearchEngine)
    requires
        h == "localhost"@ || h == "127.0.0.1"@ || h == "0.0.0.0"@,
        s.len() == 0 || s[0] == ':' || s[0] == '/',
        forall|i: int| 0 <= i < s.len() ==> !is_ws(#[trigger] s[i]),
    ensures
        resolution(h + s, engine) == (true, "http://"@ + h + s),
{
    reveal_strlit("localhost");
    reveal_strlit("127.0.0.1");
    reveal_strlit("0.0.0.0");
    reveal_strlit("http://");
    reveal_strlit("https://");
    reveal_strlit("file://");
    reveal_strlit("about:");
    reveal_strlit("data:");
    reveal_strlit("castcodes://");
    let x = h + s;
    let n = h.len() as int;
    assert(forall|i: int| 0 <= i < n ==> h[i] != '/' && h[i] != ':' && !is_ws(h[i]));
    assert forall|i: int| 0 <= i < x.len() implies !is_ws(#[trigger] x[i]) by {
        if i < n {
            assert(x[i] == h[i]);
        } else {
            assert(x[i] == s[i - n]);
        }
    }
    lemma_no_ws_text(x);
    lemma_host_of_plain(h, s);
    assert(x[0] == h[0]);
    assert(!passes_through(x)) by {
        assert(x[0] != 'h' && x[0] != 'f' && x[0] != 'a' && x[0] != 'd' && x[0] != 'c');
        assert(!starts_with(x, "http://"@)) by { assert(x.len() < 7 || x.take(7)[0] != "http://"@[0]); }
        assert(!starts_with(x, "https://"@)) by { assert(x.len() < 8 || x.take(8)[0] != "https://"@[0]); }
        assert(!starts_with(x, "file://"@)) by { assert(x.len() < 7 || x.take(7)[0] != "file://"@[0]); }
        assert(!starts_with(x, "about:"@)) by { assert(x.len() < 6 || x.take(6)[0] != "about:"@[0]); }
        assert(!starts_with(x, "data:"@)) by { assert(x.len() < 5 || x.take(5)[0] != "data:"@[0]); }
        assert(!starts_with(x, "castcodes://"@)) by { assert(x.len() < 12 || x.take(12)[0] != "castcodes://"@[0]); }
    }
    assert(is_loopback(x));
    assert("http://"@ + x =~= "http://"@ + h + s);
}

/// The IPv6 loopback address in brackets, alone or with a port or a path,
/// is loaded over plain `http`.
pub proof fn law_ipv6_loopback_uses_http(s: Seq<char>, engine: SearchEngine)
    requires
        s.len() == 0 || s[0] == ':' || s[0] == '/',
        forall|i: int| 0 <= i < s.len() ==> !is_ws(#[trigger] s[i]),
    ensures
        resolution("[::1]"@ + s, engine) == (true, "http://[::1]"@ + s),
{
    reveal_strlit("[::1]");
    reveal_strlit("::1");
    reveal_strlit("http://[::1]");
    reveal_strlit("http://");
    reveal_strlit("https://");
    reveal_strlit("file://");
    reveal_strlit("about:");
    reveal_strlit("data:");
    reveal_strlit("castcodes://");
    let h = "[::1]"@;
    let x = h + s;
    assert forall|i: int| 0 <= i < x.len() implies !is_ws(#[trigger] x[i]) by {
        if i < 5 {
            assert(x[i] == h[i]);
        } else {
            assert(x[i] == s[i - 5]);
        }
    }
    lemma_no_ws_text(x);
    lemma_find_char(s, '/');
    let r = before_char(s, '/');
    let hp = before_char(x, '/');
    match find_char(s, '/') {
        Some(j) => {
            assert(x[5 + j] == '/');
            assert forall|k: int| 0 <= k < 5 + j implies x[k] != '/' by {
                if k >= 5 {
                    assert(x[k] == s[k - 5]);
                }
            }
            lemma_find_char_unique(x, '/', 5 + j);
            assert(hp =~= h + s.take(j));
        },
        None => {
            assert forall|k: int| 0 <= k < x.len() implies x[k] != '/' by {
                if k >= 5 {
                    assert(x[k] == s[k - 5]);
                }
            }
            lemma_find_char_none(x, '/');
        },
    }
    assert(hp =~= h + r);
    let rest = hp.skip(1);
    assert(rest[3] == ']');
    lemma_find_char_unique(rest, ']', 3);
    assert(rest.take(3) =~= "::1"@);
    assert(host_of(x) == "::1"@);
    assert(!passes_through(x)) by {
        assert(x[0] == '[');
        assert(!starts_with(x, "http://"@)) by { assert(x.len() < 7 || x.take(7)[0] != "http://"@[0]); }
        assert(!starts_with(x, "https://"@)) by { assert(x.len() < 8 || x.take(8)[0] != "https://"@[0]); }
        assert(!starts_with(x, "file://"@)) by { assert(x.len() < 7 || x.take(7)[0] != "file://"@[0]); }
        assert(!starts_with(x, "about:"@)) by { assert(x.len() < 6 || x.take(6)[0] != "about:"@[0]); }
        assert(!starts_with(x, "data:"@)) by { assert(x.len() < 5 || x.take(5)[0] != "data:"@[0]); }
        assert(!starts_with(x, "castcodes://"@)) by { assert(x.len() < 12 || x.take(12)[0] != "castcodes://"@[0]); }
    }
    assert("http://"@ + x =~= "http://[::1]"@ + s);
}

/// Any other host name with a dot, alone or with a port or a path, is
/// loaded over `https`: only the loopback hosts get plain `http`.
pub proof fn law_other_hosts_use_https(h: Seq<char>, s: Seq<char>, engine: SearchEngine)
    requires
        h.len() > 0,
        h[0] != '[',
        contains_char(h, '.'),
        forall|i: int| 0 <= i < h.len() ==> h[i] != '/' && h[i] != ':' && !is_ws(#[trigger] h[i]),
        h != "localhost"@ && h != "127.0.0.1"@ && h != "0.0.0.0"@ && h != "::1"@,
        s.len() == 0 || s[0] == ':' || s[0] == '/',
        forall|i: int| 0 <= i < s.len() ==> !is_ws(#[trigger] s[i]),
        !passes_through(h + s),
    ensures
        resolution(h + s, engine) == (true, "https://"@ + h + s),
{
    let x = h + s;
    let n = h.len() as int;
    assert forall|i: int| 0 <= i < x.len() implies !is_ws(#[trigger] x[i]) by {
        if i < n {
            assert(x[i] == h[i]);
        } else {
            assert(x[i] == s[i - n]);
        }
    }
    lemma_no_ws_text(x);
    lemma_host_of_plain(h, s);
    let k = choose|k: int| 0 <= k < h.len() && h[k] == '.';
    assert(x[k] == '.');
    assert(contains_char(x, '.'));
    assert(!is_loopback(x));
    assert("https://"@ + x =~= "https://"@ + h + s);
}

/// The IPv6 loopback address written bare, alone or with a path, is loaded
/// over plain `http`.
pub proof fn law_bare_ipv6_loopback_uses_http(s: Seq<char>, engine: SearchEngine)
    requires
        s.len() == 0 || s[0] == '/',
        forall|i: int| 0 <= i < s.len() ==> !is_ws(#[trigger] s[i]),
    ensures
        resolution("::1"@ + s, engine) == (true, "http://::1"@ + s),
{
    reveal_strlit("::1");
    reveal_strlit("http://::1");
    reveal_strlit("http://");
    reveal_strlit("https://");
    reveal_strlit("file://");
    reveal_strlit("about:");
    reveal_strlit("data:");
    reveal_strlit("castcodes://");
    let h = "::1"@;
    let x = h + s;
    assert forall|i: int| 0 <= i < x.len() implies !is_ws(#[trigger] x[i]) by {
        if i < 3 {
            assert(x[i] == h[i]);
        } else {
            assert(x[i] == s[i - 3]);
        }
    }
    lemma_no_ws_text(x);
    let hp = before_char(x, '/');
    if s.len() > 0 {
        assert(x[3] == '/');
        assert(forall|k: int| 0 <= k < 3 ==> x[k] != '/');
        lemma_find_char_unique(x, '/', 3);
    } else {
        assert(x =~= h);
        lemma_find_char_none(x, '/');
    }
    assert(hp =~= h);
    assert(host_of(x) == "::1"@);
    assert(!passes_through(x)) by {
        assert(x[0] == ':');
        assert(!starts_with(x, "http://"@)) by { assert(x.len() < 7 || x.take(7)[0] != "http://"@[0]); }
        assert(!starts_with(x, "https://"@)) by { assert(x.len() < 8 || x.take(8)[0] != "https://"@[0]); }
        assert(!starts_with(x, "file://"@)) by { assert(x.len() < 7 || x.take(7)[0] != "file://"@[0]); }
        assert(!starts_with(x, "about:"@)) by { assert(x.len() < 6 || x.take(6)[0] != "about:"@[0]); }
        assert(!starts_with(x, "data:"@)) by { assert(x.len() < 5 || x.take(5)[0] != "data:"@[0]); }
        assert(!starts_with(x, "castcodes://"@)) by { assert(x.len() < 12 || x.take(12)[0] != "castcodes://"@[0]); }
    }
    assert("http://"@ + x =~= "http://::1"@ + s);
}

} // verus!
