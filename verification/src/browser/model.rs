//! Navigation state of a browser tab: current URL, back/forward history,
//! loading flag and document title.

use vstd::prelude::*;
use crate::text::{chars_of, chars_of_string, starts_with, starts_with_exec, string_of, trim, trim_vec};

verus! {

pub const DEFAULT_BROWSER_URL: &'static str = "https://opencoven.ai";

pub open spec fn default_url() -> Seq<char> {
    "https://opencoven.ai"@
}

/// The schemes that are loaded as they are.
pub open spec fn has_known_scheme(u: Seq<char>) -> bool {
    ||| starts_with(u, "http://"@)
    ||| starts_with(u, "https://"@)
    ||| starts_with(u, "file://"@)
    ||| starts_with(u, "about:"@)
    ||| starts_with(u, "data:"@)
}

/// The URL that an address becomes: trimmed; empty means the default page;
/// without a known scheme it is taken as an `https://` host.
pub open spec fn normalized(url: Seq<char>) -> Seq<char> {
    let u = trim(url);
    if u.len() == 0 {
        default_url()
    } else if has_known_scheme(u) {
        u
    } else {
        "https://"@ + u
    }
}

pub fn normalize_url(url: &str) -> (r: String)
    ensures
        r@ == normalized(url@),
{
    proof {
        reveal_strlit("https://opencoven.ai");
    }
    let v = chars_of(url);
    let u = trim_vec(&v);
    if u.len() == 0 {
        return DEFAULT_BROWSER_URL.to_owned();
    }
    let known = starts_with_exec(&u, &chars_of("http://")) || starts_with_exec(
        &u,
        &chars_of("https://"),
    ) || starts_with_exec(&u, &chars_of("file://")) || starts_with_exec(&u, &chars_of("about:"))
        || starts_with_exec(&u, &chars_of("data:"));
    if known {
        string_of(&u)
    } else {
        let mut out = chars_of("https://");
        crate::text::append(&mut out, &u);
        string_of(&out)
    }
}

/// The URL a webview loads for a model URL: `about:home` is the bundled
/// home page (whose `data:` URL is `home_page_url`); every other URL is
/// loaded as it is.
pub fn webview_url_for(model_url: &str, home_page_url: &str) -> (r: String)
    ensures
        r@ == (if model_url@ == "about:home"@ {
            home_page_url@
        } else {
            model_url@
        }),
{
    let m = chars_of(model_url);
    let home = chars_of("about:home");
    if crate::text::eq_chars(&m, &home) {
        home_page_url.to_owned()
    } else {
        model_url.to_owned()
    }
}


pub struct BrowserModel {
    current_url: String,
    back_history: Vec<String>,
    forward_history: Vec<String>,
    loading: bool,
    title: String,
}

pub struct BrowserV {
    pub current: Seq<char>,
    pub back: Seq<Seq<char>>,
    pub forward: Seq<Seq<char>>,
    pub loading: bool,
    pub title: Seq<char>,
}

impl View for BrowserModel {
    type V = BrowserV;

    closed spec fn view(&self) -> BrowserV {
        BrowserV {
            current: self.current_url@,
            back: self.back_history@.map_values(|s: String| s@),
            forward: self.forward_history@.map_values(|s: String| s@),
            loading: self.loading,
            title: self.title@,
        }
    }
}

// ---------------------------------------------------------------------------
// Transitions
// ---------------------------------------------------------------------------

/// `navigate(url)`: nothing changes when the address leads to the current
/// page; otherwise the current page goes on the back history, the forward
/// history is dropped and the new page starts loading.
pub open spec fn nav(s: BrowserV, url: Seq<char>) -> BrowserV {
    let next = normalized(url);
    if next == s.current {
        s
    } else {
        BrowserV {
            current: next,
            back: s.back.push(s.current),
            forward: Seq::empty(),
            loading: true,
            title: Seq::empty(),
        }
    }
}

/// `go_back()`: the last page of the back history becomes current; the
/// current page goes on the forward history.
pub open spec fn back(s: BrowserV) -> BrowserV {
    if s.back.len() == 0 {
        s
    } else {
        BrowserV {
            current: s.back.last(),
            back: s.back.drop_last(),
            forward: s.forward.push(s.current),
            loading: true,
            title: Seq::empty(),
        }
    }
}

/// `go_forward()`: the mirror image of [`back`].
pub open spec fn forward(s: BrowserV) -> BrowserV {
    if s.forward.len() == 0 {
        s
    } else {
        BrowserV {
            current: s.forward.last(),
            back: s.back.push(s.current),
            forward: s.forward.drop_last(),
            loading: true,
            title: Seq::empty(),
        }
    }
}

impl BrowserModel {
    pub fn new(url: &str) -> (r: BrowserModel)
        ensures
            r@ == (BrowserV {
                current: normalized(url@),
                back: Seq::empty(),
                forward: Seq::empty(),
                loading: false,
                title: Seq::empty(),
            }),
    {
        let r = BrowserModel {
            current_url: normalize_url(url),
            back_history: Vec::new(),
            forward_history: Vec::new(),
            loading: false,
            title: String::new(),
        };
        assert(r@.back =~= Seq::<Seq<char>>::empty());
        assert(r@.forward =~= Seq::<Seq<char>>::empty());
        r
    }

    pub fn current_url(&self) -> (r: &str)
        ensures
            r@ == self@.current,
    {
        self.current_url.as_str()
    }

    /// The page title, or the URL while the title is blank.
    pub fn display_title(&self) -> (r: &str)
        ensures
            r@ == (if trim(self@.title).len() == 0 {
                self@.current
            } else {
                self@.title
            }),
    {
        let t = trim_vec(&chars_of_string(&self.title));
        if t.len() == 0 {
            self.current_url.as_str()
        } else {
            self.title.as_str()
        }
    }

    pub fn is_loading(&self) -> (r: bool)
        ensures
            r == self@.loading,
    {
        self.loading
    }

    pub fn can_go_back(&self) -> (r: bool)
        ensures
            r == (self@.back.len() > 0),
    {
        self.back_history.len() > 0
    }

    pub fn can_go_forward(&self) -> (r: bool)
        ensures
            r == (self@.forward.len() > 0),
    {
        self.forward_history.len() > 0
    }

    /// Navigates to `url` (normalized). Returns the new URL, or `None` when
    /// it is the current one.
    pub fn navigate(&mut self, url: &str) -> (r: Option<String>)
        ensures
            final(self)@ == nav(old(self)@, url@),
            match r {
                Some(u) => normalized(url@) != old(self)@.current && u@ == normalized(url@),
                None => normalized(url@) == old(self)@.current,
            },
    {
        let next_url = normalize_url(url);
        if next_url == self.current_url {
            return None;
        }
        let ghost b0 = self@.back;
        let cur = self.current_url.clone();
        self.back_history.push(cur);
        self.forward_history.clear();
        self.current_url = next_url;
        self.loading = true;
        self.title = String::new();
        assert(self@.back =~= b0.push(old(self)@.current));
        assert(self@.forward =~= Seq::<Seq<char>>::empty());
        Some(self.current_url.clone())
    }

    /// Returns to the previous page, if any.
    pub fn go_back(&mut self) -> (r: Option<String>)
        ensures
            final(self)@ == back(old(self)@),
            match r {
                Some(u) => old(self)@.back.len() > 0 && u@ == old(self)@.back.last(),
                None => old(self)@.back.len() == 0,
            },
    {
        let previous_url = match self.back_history.pop() {
            Some(p) => p,
            None => {
                return None;
            },
        };
        let ghost f0 = self@.forward;
        let cur = self.current_url.clone();
        self.forward_history.push(cur);
        self.current_url = previous_url;
        self.loading = true;
        self.title = String::new();
        assert(self@.back =~= old(self)@.back.drop_last());
        assert(self@.forward =~= f0.push(old(self)@.current));
        Some(self.current_url.clone())
    }

    /// Goes forward again after [`Self::go_back`], if possible.
    pub fn go_forward(&mut self) -> (r: Option<String>)
        ensures
            final(self)@ == forward(old(self)@),
            match r {
                Some(u) => old(self)@.forward.len() > 0 && u@ == old(self)@.forward.last(),
                None => old(self)@.forward.len() == 0,
            },
    {
        let next_url = match self.forward_history.pop() {
            Some(p) => p,
            None => {
                return None;
            },
        };
        let ghost b0 = self@.back;
        let cur = self.current_url.clone();
        self.back_history.push(cur);
        self.current_url = next_url;
        self.loading = true;
        self.title = String::new();
        assert(self@.forward =~= old(self)@.forward.drop_last());
        assert(self@.back =~= b0.push(old(self)@.current));
        Some(self.current_url.clone())
    }

    /// Marks the page as loading again and returns its URL.
    pub fn reload(&mut self) -> (r: String)
        ensures
            final(self)@ == (BrowserV { loading: true, ..old(self)@ }),
            r@ == old(self)@.current,
    {
        self.loading = true;
        self.current_url.clone()
    }

    /// Records the page title; loading is over. Returns whether anything
    /// visible changed.
    pub fn set_title(&mut self, title: &str) -> (r: bool)
        ensures
            final(self)@ == (BrowserV { title: title@, loading: false, ..old(self)@ }),
            r == (old(self)@.title != title@ || old(self)@.loading),
    {
        let t = title.to_owned();
        let changed = !(self.title == t) || self.loading;
        self.title = t;
        self.loading = false;
        changed
    }
}

// ---------------------------------------------------------------------------
// Laws
// ---------------------------------------------------------------------------

/// Going back right after a navigation that changed the page returns to the
/// page before it, with the history it had and the new page ahead.
pub proof fn law_back_undoes_navigate(s: BrowserV, url: Seq<char>)
    requires
        normalized(url) != s.current,
    ensures
        back(nav(s, url)).current == s.current,
        back(nav(s, url)).back == s.back,
        back(nav(s, url)).forward == seq![normalized(url)],
{
    assert(nav(s, url).back.drop_last() =~= s.back);
    assert(Seq::<Seq<char>>::empty().push(normalized(url)) =~= seq![normalized(url)]);
}

/// Going forward right after going back restores the page and both
/// histories.
pub proof fn law_forward_undoes_back(s: BrowserV)
    requires
        s.back.len() > 0,
    ensures
        forward(back(s)).current == s.current,
        forward(back(s)).back == s.back,
        forward(back(s)).forward == s.forward,
{
    assert(back(s).back.push(back(s).current) =~= s.back);
    assert(back(s).forward.drop_last() =~= s.forward);
}

/// Going back right after going forward restores the page and both
/// histories.
pub proof fn law_back_undoes_forward(s: BrowserV)
    requires
        s.forward.len() > 0,
    ensures
        back(forward(s)).current == s.current,
        back(forward(s)).back == s.back,
        back(forward(s)).forward == s.forward,
{
    assert(forward(s).forward.push(forward(s).current) =~= s.forward);
    assert(forward(s).back.drop_last() =~= s.back);
}

/// Navigating never shortens the back history, and a navigation that
/// changes the page clears the forward history.
pub proof fn law_navigate_history(s: BrowserV, url: Seq<char>)
    ensures
        nav(s, url).back.len() >= s.back.len(),
        nav(s, url).current == normalized(url),
        nav(s, url).current != s.current ==> nav(s, url).forward.len() == 0,
{
}

/// A call on a tab's model, with its argument.
pub enum BrowserOp {
    Navigate(Seq<char>),
    GoBack,
    GoForward,
    Reload,
    SetTitle(Seq<char>),
}

/// The state after one call, as the methods' contracts give it.
pub open spec fn apply_op(s: BrowserV, op: BrowserOp) -> BrowserV {
    match op {
        BrowserOp::Navigate(url) => nav(s, url),
        BrowserOp::GoBack => back(s),
        BrowserOp::GoForward => forward(s),
        BrowserOp::Reload => BrowserV { loading: true, ..s },
        BrowserOp::SetTitle(t) => BrowserV { title: t, loading: false, ..s },
    }
}

/// The state after a sequence of calls.
pub open spec fn run_ops(s: BrowserV, ops: Seq<BrowserOp>) -> BrowserV
    decreases ops.len(),
{
    if ops.len() == 0 {
        s
    } else {
        apply_op(run_ops(s, ops.drop_last()), ops.last())
    }
}

/// Whether a call returned a page (`Some`) when made in state `s`; only
/// navigation, going back and going forward can.
pub open spec fn op_moved(s: BrowserV, op: BrowserOp) -> bool {
    match op {
        BrowserOp::Navigate(url) => normalized(url) != s.current,
        BrowserOp::GoBack => s.back.len() > 0,
        BrowserOp::GoForward => s.forward.len() > 0,
        _ => false,
    }
}

/// How many calls of the sequence are `Some`-returning calls of the kind
/// that `kind` picks out.
pub open spec fn count_moves(s: BrowserV, ops: Seq<BrowserOp>, kind: spec_fn(BrowserOp) -> bool) -> nat
    decreases ops.len(),
{
    if ops.len() == 0 {
        0
    } else {
        let before = run_ops(s, ops.drop_last());
        count_moves(s, ops.drop_last(), kind) + if kind(ops.last()) && op_moved(before, ops.last()) {
            1nat
        } else {
            0nat
        }
    }
}

pub open spec fn is_navigate(op: BrowserOp) -> bool {
    op is Navigate
}

pub open spec fn is_go_back(op: BrowserOp) -> bool {
    op is GoBack
}

pub open spec fn is_go_forward(op: BrowserOp) -> bool {
    op is GoForward
}

/// Over any sequence of calls, the back history grows by one for every
/// navigation and every step forward that returned a page, and shrinks by
/// one for every step back that did; so a model fresh from `new` can go
/// back exactly when those navigations and steps forward outnumber the
/// steps back.
pub proof fn law_back_history_counts(s: BrowserV, ops: Seq<BrowserOp>)
    ensures
        run_ops(s, ops).back.len() + count_moves(s, ops, |op: BrowserOp| is_go_back(op)) == s.back.len()
            + count_moves(s, ops, |op: BrowserOp| is_navigate(op)) + count_moves(
            s,
            ops,
            |op: BrowserOp| is_go_forward(op),
        ),
        s.back.len() == 0 ==> (run_ops(s, ops).back.len() > 0 <==> count_moves(
            s,
            ops,
            |op: BrowserOp| is_navigate(op),
        ) + count_moves(s, ops, |op: BrowserOp| is_go_forward(op)) > count_moves(
            s,
            ops,
            |op: BrowserOp| is_go_back(op),
        )),
    decreases ops.len(),
{
    if ops.len() > 0 {
        law_back_history_counts(s, ops.drop_last());
    }
}

/// Normalizing an address twice gives the same URL as normalizing it once.
pub proof fn law_normalize_idempotent(url: Seq<char>)
    ensures
        normalized(normalized(url)) == normalized(url),
{
    reveal_strlit("https://opencoven.ai");
    reveal_strlit("https://");
    reveal_strlit("http://");
    let u = trim(url);
    crate::text::lemma_trim_bounds(url);
    let n = normalized(url);
    // A normalized URL starts with a scheme letter, so trimming keeps it whole.
    lemma_trim_keeps_scheme(n);
    if u.len() == 0 {
        assert(starts_with(n, "https://"@)) by {
            assert(n.take(8) =~= "https://"@);
        }
    } else if has_known_scheme(u) {
        lemma_trim_idempotent(url);
    } else {
        assert(starts_with(n, "https://"@)) by {
            assert(n.take(8) =~= "https://"@);
        }
    }
}

proof fn lemma_trim_keeps_scheme(n: Seq<char>)
    requires
        n.len() > 0,
        !crate::text::is_ws(n[0]),
        !crate::text::is_ws(n.last()),
    ensures
        trim(n) == n,
{
    crate::text::lemma_trim_start_at(n, 0);
    assert(n.skip(0) =~= n);
    crate::text::lemma_trim_end_at(n, n.len() as int);
    assert(n.take(n.len() as int) =~= n);
}

proof fn lemma_trim_idempotent(s: Seq<char>)
    ensures
        trim(trim(s)) == trim(s),
{
    let t = trim(s);
    crate::text::lemma_trim_bounds(s);
    if t.len() > 0 {
        lemma_trim_keeps_scheme(t);
    }
}

} // verus!
