//! Request rules of the web service: the session cookie, same-origin checks,
//! CSRF tokens, the session table and the login throttle.

use crate::auth::{digest, sha256, token};
use crate::text::{chars_of, hex_text, str_eq, strip_prefix, trim, trimmed};
use vstd::prelude::*;
use vstd::string::*;
use vstd::utf8::encode_utf8;

verus! {

/// What precedes the session token in a `Cookie` header.
pub const SESSION_COOKIE_PREFIX: &'static str = "homelab_session=";

/// The attributes of the session cookie after its value.
pub const SESSION_COOKIE_ATTRIBUTES: &'static str = "; Path=/; HttpOnly; SameSite=Strict; Max-Age=28800";

/// The attribute added behind an HTTPS proxy.
pub const SECURE_ATTRIBUTE: &'static str = "; Secure";

/// The `Set-Cookie` value that ends a session in the browser.
pub const CLEARED_SESSION_COOKIE: &'static str = "homelab_session=; Path=/; HttpOnly; SameSite=Strict; Max-Age=0";

/// A request header as the service sees it: missing, present but not visible
/// ASCII text, or its text.
#[derive(Clone, Debug)]
pub enum HeaderText {
    Absent,
    Invalid,
    Text(String),
}

/// An optional string as an optional character sequence.
pub open spec fn opt_text(o: Option<String>) -> Option<Seq<char>> {
    match o {
        Some(s) => Some(s@),
        None => None,
    }
}

/// The header holds exactly the text `s`.
pub open spec fn header_is(h: HeaderText, s: Seq<char>) -> bool {
    h matches HeaderText::Text(t) && t@ == s
}

/// The session token in one `;`-separated part of a `Cookie` header: the part
/// without surrounding white space, after `homelab_session=`.
pub open spec fn token_in_part(part: Seq<char>) -> Option<Seq<char>> {
    let t = trim(part);
    if SESSION_COOKIE_PREFIX@.is_prefix_of(t) {
        Some(t.skip(SESSION_COOKIE_PREFIX@.len() as int))
    } else {
        None
    }
}

/// The session token of a `Cookie` header: that of its first `;`-separated
/// part that holds one.
pub open spec fn cookie_token(s: Seq<char>) -> Option<Seq<char>>
    decreases s.len(),
{
    match s.index_of_first(';') {
        None => token_in_part(s),
        Some(i) => match token_in_part(s.take(i)) {
            Some(t) => Some(t),
            None => {
                proof {
                    s.index_of_first_ensures(';');
                }
                cookie_token(s.skip(i + 1))
            },
        },
    }
}

/// The session token carried by a `Cookie` header's text, if any.
pub fn session_token(header: &str) -> (r: Option<String>)
    ensures
        opt_text(r) == cookie_token(header@),
{
    let cs = chars_of(header);
    let n = cs.len();
    let mut start: usize = 0;
    assert(header@.skip(0) =~= header@);
    loop
        invariant
            cs@ == header@,
            n == header@.len(),
            start <= n,
            cookie_token(header@) == cookie_token(header@.skip(start as int)),
        decreases n - start,
    {
        let ghost rest = header@.skip(start as int);
        let mut k: usize = start;
        while k < n && cs[k] != ';'
            invariant
                cs@ == header@,
                n == header@.len(),
                start <= k <= n,
                forall|t: int| start <= t < k ==> header@[t] != ';',
            decreases n - k,
        {
            k = k + 1;
        }
        proof {
            rest.index_of_first_ensures(';');
            if k < n {
                assert(rest[k - start] == ';');
                assert(rest.index_of_first(';') == Some((k - start) as int));
                assert(rest.take(k - start) =~= header@.subrange(start as int, k as int));
                assert(rest.skip(k - start + 1) =~= header@.skip(k + 1));
            } else {
                assert(!rest.contains(';'));
                assert(rest =~= header@.subrange(start as int, k as int));
            }
        }
        let part = header.substring_char(start, k);
        let t = trimmed(part);
        match strip_prefix(t.as_str(), SESSION_COOKIE_PREFIX) {
            Some(x) => {
                return Some(x);
            },
            None => {},
        }
        if k == n {
            return None;
        }
        start = k + 1;
    }
}

/// Whether a request comes from the service's own origin: not marked
/// `cross-site` by `Sec-Fetch-Site`, and, when it names an `Origin`, that origin
/// is `http://` or `https://` followed by the `Host` header.
pub open spec fn is_same_origin(fetch_site: HeaderText, origin: HeaderText, host: HeaderText) -> bool {
    if header_is(fetch_site, "cross-site"@) {
        false
    } else {
        match origin {
            HeaderText::Absent => true,
            HeaderText::Invalid => false,
            HeaderText::Text(o) => match host {
                HeaderText::Text(h) => o@ == "http://"@ + h@ || o@ == "https://"@ + h@,
                _ => false,
            },
        }
    }
}

/// Whether a request comes from the service's own origin.
pub fn same_origin(fetch_site: &HeaderText, origin: &HeaderText, host: &HeaderText) -> (r: bool)
    ensures
        r == is_same_origin(*fetch_site, *origin, *host),
{
    if let HeaderText::Text(s) = fetch_site {
        if str_eq(s.as_str(), "cross-site") {
            return false;
        }
    }
    match origin {
        HeaderText::Absent => true,
        HeaderText::Invalid => false,
        HeaderText::Text(o) => match host {
            HeaderText::Text(h) => {
                let mut http = String::from_str("http://");
                http.append(h.as_str());
                let mut https = String::from_str("https://");
                https.append(h.as_str());
                str_eq(o.as_str(), http.as_str()) || str_eq(o.as_str(), https.as_str())
            },
            _ => false,
        },
    }
}

/// The `Set-Cookie` value for a new session: the token, then `Path=/`,
/// `HttpOnly`, `SameSite=Strict`, an eight-hour `Max-Age`, and `Secure` when
/// asked for.
pub fn session_cookie(token: &str, secure: bool) -> (r: String)
    ensures
        r@ == SESSION_COOKIE_PREFIX@ + token@ + SESSION_COOKIE_ATTRIBUTES@ + (if secure {
            SECURE_ATTRIBUTE@
        } else {
            Seq::empty()
        }),
{
    let mut c = String::from_str(SESSION_COOKIE_PREFIX);
    c.append(token);
    c.append(SESSION_COOKIE_ATTRIBUTES);
    if secure {
        c.append(SECURE_ATTRIBUTE);
    } else {
        assert(c@ + Seq::<char>::empty() =~= c@);
    }
    c
}

/// GET, HEAD and OPTIONS change nothing and need no CSRF token.
pub open spec fn is_safe_method(m: Seq<char>) -> bool {
    m == "GET"@ || m == "HEAD"@ || m == "OPTIONS"@
}

/// Whether a request method changes nothing.
pub fn safe_method(m: &str) -> (r: bool)
    ensures
        r == is_safe_method(m@),
{
    str_eq(m, "GET") || str_eq(m, "HEAD") || str_eq(m, "OPTIONS")
}

/// A signed-in request may proceed when its method is safe, or when it comes
/// from the same origin and its `X-CSRF-Token` header is the session's token.
pub open spec fn csrf_allows(safe: bool, same_origin: bool, session_csrf: Seq<char>, header: HeaderText) -> bool {
    safe || (same_origin && header_is(header, session_csrf))
}

/// Whether a signed-in request may proceed.
pub fn csrf_check(safe: bool, same_origin: bool, session_csrf: &str, header: &HeaderText) -> (r: bool)
    ensures
        r == csrf_allows(safe, same_origin, session_csrf@, *header),
{
    if safe {
        return true;
    }
    if !same_origin {
        return false;
    }
    match header {
        HeaderText::Text(t) => str_eq(t.as_str(), session_csrf),
        _ => false,
    }
}

/// How long a session lasts after sign-in, in milliseconds (eight hours).
pub const SESSION_LIFETIME_MS: u64 = 28800000;
/// The most sessions kept; a sign-in beyond it drops all earlier ones.
pub const MAX_SESSIONS: usize = 32;
/// The rolling window of the login throttle, in milliseconds.
pub const LOGIN_WINDOW_MS: u64 = 60000;
/// The most login attempts within the window.
pub const MAX_LOGIN_ATTEMPTS: usize = 5;

/// A signed-in session: the digest of its token, its CSRF token, and when it
/// expires on the service's clock (milliseconds).
pub struct SessionEntry {
    pub digest: String,
    pub csrf: String,
    pub expires: u64,
}

/// What a session entry holds, as plain values.
pub struct SessionRecord {
    pub digest: Seq<char>,
    pub csrf: Seq<char>,
    pub expires: u64,
}

impl View for SessionEntry {
    type V = SessionRecord;

    open spec fn view(&self) -> SessionRecord {
        SessionRecord { digest: self.digest@, csrf: self.csrf@, expires: self.expires }
    }
}

impl SessionEntry {
    fn duplicate(&self) -> (r: SessionEntry)
        ensures
            r@ == self@,
    {
        SessionEntry { digest: self.digest.clone(), csrf: self.csrf.clone(), expires: self.expires }
    }
}

/// The digests of the records, in order.
pub open spec fn digests(s: Seq<SessionRecord>) -> Seq<Seq<char>> {
    s.map_values(|r: SessionRecord| r.digest)
}

/// The records that have not expired at `now`.
pub open spec fn live(s: Seq<SessionRecord>, now: u64) -> Seq<SessionRecord> {
    s.filter(|r: SessionRecord| r.expires > now)
}

/// The records whose digest is not `d`.
pub open spec fn without(s: Seq<SessionRecord>, d: Seq<char>) -> Seq<SessionRecord> {
    s.filter(|r: SessionRecord| r.digest != d)
}

/// The record kept under digest `d`.
pub open spec fn record_of(s: Seq<SessionRecord>, d: Seq<char>) -> Option<SessionRecord> {
    match digests(s).index_of_first(d) {
        Some(i) => Some(s[i]),
        None => None,
    }
}

/// `s` with `rec` stored under its digest: replacing the record kept there, or added last.
pub open spec fn put(s: Seq<SessionRecord>, rec: SessionRecord) -> Seq<SessionRecord> {
    match digests(s).index_of_first(rec.digest) {
        Some(i) => s.update(i, rec),
        None => s.push(rec),
    }
}

/// The records a sign-in at `now` starts from: the live ones, or none when
/// they already number `MAX_SESSIONS`.
pub open spec fn before_sign_in(s: Seq<SessionRecord>, now: u64) -> Seq<SessionRecord> {
    if live(s, now).len() >= MAX_SESSIONS {
        Seq::empty()
    } else {
        live(s, now)
    }
}

/// Keeping records that pass a test keeps digests distinct.
pub proof fn lemma_filter_keeps_distinct(s: Seq<SessionRecord>, p: spec_fn(SessionRecord) -> bool)
    requires
        digests(s).no_duplicates(),
    ensures
        digests(s.filter(p)).no_duplicates(),
        s.filter(p).len() <= s.len(),
    decreases s.len(),
{
    reveal_with_fuel(Seq::filter, 1);
    if s.len() > 0 {
        let init = s.drop_last();
        assert(digests(init) =~= digests(s).drop_last());
        lemma_filter_keeps_distinct(init, p);
        if p(s.last()) {
            let f = init.filter(p);
            let g = f.push(s.last());
            assert(s.filter(p) == g);
            assert forall|a: int, b: int| 0 <= a < g.len() && 0 <= b < g.len() && a != b implies digests(g)[a] != digests(g)[b] by {
                if a < f.len() && b < f.len() {
                    assert(digests(f)[a] != digests(f)[b]);
                } else {
                    let x = if a < f.len() { a } else { b };
                    assert(f.contains(f[x]));
                    init.lemma_filter_contains_rev(p, f[x]);
                    let k = choose|k: int| 0 <= k < init.len() && init[k] == f[x];
                    assert(digests(s)[k] == f[x].digest);
                    assert(digests(s)[s.len() - 1] == s.last().digest);
                }
            }
        }
    }
}

/// The signed-in sessions.
pub struct SessionStore {
    entries: Vec<SessionEntry>,
}

impl View for SessionStore {
    type V = Seq<SessionRecord>;

    closed spec fn view(&self) -> Seq<SessionRecord> {
        self.entries@.map_values(|e: SessionEntry| e@)
    }
}

impl SessionStore {
    /// Digests are distinct and the sessions number at most `MAX_SESSIONS`.
    #[verifier::type_invariant]
    closed spec fn wf(self) -> bool {
        &&& digests(self.entries@.map_values(|e: SessionEntry| e@)).no_duplicates()
        &&& self.entries.len() <= MAX_SESSIONS
    }

    /// A table with no sessions.
    pub fn new() -> (r: SessionStore)
        ensures
            r@ == Seq::<SessionRecord>::empty(),
    {
        let r = SessionStore { entries: Vec::new() };
        assert(r@ =~= Seq::<SessionRecord>::empty());
        r
    }

    /// The number of sessions.
    pub fn len(&self) -> (r: usize)
        ensures
            r == self@.len(),
            r <= MAX_SESSIONS,
    {
        proof {
            use_type_invariant(self);
        }
        self.entries.len()
    }

    /// The table keeps distinct digests and at most `MAX_SESSIONS` sessions.
    pub fn well_formed(&self) -> (r: bool)
        ensures
            r,
            digests(self@).no_duplicates(),
            self@.len() <= MAX_SESSIONS,
    {
        proof {
            use_type_invariant(self);
        }
        true
    }

    /// Keeps the sessions that pass `keep`.
    fn retain_where(&mut self, now: u64, digest: &str, by_time: bool)
        ensures
            final(self)@ == (if by_time {
                live(old(self)@, now)
            } else {
                without(old(self)@, digest@)
            }),
    {
        proof {
            use_type_invariant(&*self);
        }
        let ghost pred = if by_time {
            |r: SessionRecord| r.expires > now
        } else {
            |r: SessionRecord| r.digest != digest@
        };
        let ghost whole = self@;
        let mut out: Vec<SessionEntry> = Vec::new();
        let mut i: usize = 0;
        assert(whole.take(0).filter(pred) =~= Seq::<SessionRecord>::empty());
        while i < self.entries.len()
            invariant
                whole == self@,
                whole == self.entries@.map_values(|e: SessionEntry| e@),
                i <= self.entries.len(),
                out@.map_values(|e: SessionEntry| e@) == whole.take(i as int).filter(pred),
                pred == (if by_time {
                    |r: SessionRecord| r.expires > now
                } else {
                    |r: SessionRecord| r.digest != digest@
                }),
            decreases self.entries.len() - i,
        {
            let keep = if by_time {
                self.entries[i].expires > now
            } else {
                !str_eq(self.entries[i].digest.as_str(), digest)
            };
            let ghost before = out@;
            assert(whole.take(i + 1).drop_last() =~= whole.take(i as int));
            assert(whole.take(i + 1).last() == self.entries@[i as int]@);
            assert(keep == pred(self.entries@[i as int]@));
            proof {
                reveal_with_fuel(Seq::filter, 1);
                let t = whole.take(i + 1);
                assert(t.len() > 0);
                assert(t.filter(pred) == (if pred(t.last()) {
                    t.drop_last().filter(pred).push(t.last())
                } else {
                    t.drop_last().filter(pred)
                }));
            }
            if keep {
                out.push(self.entries[i].duplicate());
                assert(out@.map_values(|e: SessionEntry| e@) =~= before.map_values(|e: SessionEntry| e@).push(self.entries@[i as int]@));
            }
            i = i + 1;
        }
        assert(whole.take(self.entries.len() as int) =~= whole);
        proof {
            lemma_filter_keeps_distinct(whole, pred);
        }
        self.entries = out;
    }

    /// Drops the sessions that have expired at `now`.
    pub fn prune(&mut self, now: u64)
        ensures
            final(self)@ == live(old(self)@, now),
    {
        self.retain_where(now, "", true);
    }

    /// Ends the session kept under `digest`.
    pub fn remove(&mut self, digest: &str)
        ensures
            final(self)@ == without(old(self)@, digest@),
    {
        self.retain_where(0, digest, false);
    }

    /// Drops expired sessions, then gives the CSRF token of the session kept
    /// under `digest`.
    #[verifier::loop_isolation(false)]
    pub fn csrf_for(&mut self, digest: &str, now: u64) -> (r: Option<String>)
        ensures
            final(self)@ == live(old(self)@, now),
            opt_text(r) == (match record_of(final(self)@, digest@) {
                Some(rec) => Some(rec.csrf),
                None => None,
            }),
    {
        self.prune(now);
        let ghost ds = digests(self@);
        let mut k: usize = 0;
        while k < self.entries.len()
            invariant
                ds == digests(self@),
                ds.len() == self.entries.len(),
                self@ == self.entries@.map_values(|e: SessionEntry| e@),
                k <= self.entries.len(),
                forall|t: int| 0 <= t < k ==> ds[t] != digest@,
            decreases self.entries.len() - k,
        {
            assert(ds[k as int] == self.entries@[k as int].digest@);
            if str_eq(self.entries[k].digest.as_str(), digest) {
                proof {
                    ds.index_of_first_ensures(digest@);
                }
                return Some(self.entries[k].csrf.clone());
            }
            k = k + 1;
        }
        proof {
            ds.index_of_first_ensures(digest@);
            if ds.contains(digest@) {
                let t = choose|t: int| 0 <= t < ds.len() && ds[t] == digest@;
            }
        }
        None
    }

    /// Records a sign-in: drops expired sessions, drops all sessions when
    /// `MAX_SESSIONS` remain, then keeps the CSRF token under `digest` until
    /// eight hours after `now`.
    #[verifier::loop_isolation(false)]
    pub fn insert(&mut self, digest: String, csrf: String, now: u64)
        requires
            now <= u64::MAX - SESSION_LIFETIME_MS,
        ensures
            final(self)@ == put(
                before_sign_in(old(self)@, now),
                SessionRecord { digest: digest@, csrf: csrf@, expires: (now + SESSION_LIFETIME_MS) as u64 },
            ),
    {
        self.prune(now);
        proof {
            use_type_invariant(&*self);
        }
        if self.entries.len() >= MAX_SESSIONS {
            self.entries = Vec::new();
            assert(self@ =~= Seq::<SessionRecord>::empty());
        }
        let ghost base = self@;
        let entry = SessionEntry { digest, csrf, expires: now + SESSION_LIFETIME_MS };
        let ghost ds = digests(base);
        let mut k: usize = 0;
        while k < self.entries.len()
            invariant
                base == self@,
                ds == digests(base),
                ds.len() == self.entries.len(),
                self@ == self.entries@.map_values(|e: SessionEntry| e@),
                digests(self@).no_duplicates(),
                k <= self.entries.len(),
                forall|t: int| 0 <= t < k ==> ds[t] != entry.digest@,
            decreases self.entries.len() - k,
        {
            assert(ds[k as int] == self.entries@[k as int].digest@);
            if str_eq(self.entries[k].digest.as_str(), entry.digest.as_str()) {
                proof {
                    ds.index_of_first_ensures(entry.digest@);
                }
                let ghost rec = entry@;
                let mut entries = Vec::new();
                std::mem::swap(&mut entries, &mut self.entries);
                entries.set(k, entry);
                proof {
                    assert(entries@.map_values(|e: SessionEntry| e@) =~= base.update(k as int, rec));
                    assert(digests(base.update(k as int, rec)) =~= ds);
                }
                self.entries = entries;
                return;
            }
            k = k + 1;
        }
        proof {
            ds.index_of_first_ensures(entry.digest@);
            if ds.contains(entry.digest@) {
                let t = choose|t: int| 0 <= t < ds.len() && ds[t] == entry.digest@;
            }
        }
        let ghost rec = entry@;
        let mut entries = Vec::new();
        std::mem::swap(&mut entries, &mut self.entries);
        proof {
            if entries.len() >= MAX_SESSIONS {
                assert(false);
            }
        }
        entries.push(entry);
        proof {
            assert(entries@.map_values(|e: SessionEntry| e@) =~= base.push(rec));
            assert(digests(base.push(rec)) =~= ds.push(rec.digest));
        }
        self.entries = entries;
    }
}

impl SessionStore {
    /// The CSRF token of the session a request's `Cookie` header names. A
    /// request without a session token changes nothing; otherwise expired
    /// sessions are dropped first.
    pub fn session_csrf(&mut self, cookie: &HeaderText, now: u64) -> (r: Option<String>)
        ensures
            match *cookie {
                HeaderText::Text(h) => match cookie_token(h@) {
                    Some(t) => {
                        &&& final(self)@ == live(old(self)@, now)
                        &&& opt_text(r) == (match record_of(final(self)@, hex_text(sha256(encode_utf8(t)))) {
                            Some(rec) => Some(rec.csrf),
                            None => None,
                        })
                    },
                    None => final(self)@ == old(self)@ && r is None,
                },
                _ => final(self)@ == old(self)@ && r is None,
            },
    {
        match cookie {
            HeaderText::Text(h) => match session_token(h.as_str()) {
                Some(t) => {
                    let d = digest(t.as_str());
                    self.csrf_for(d.as_str(), now)
                },
                None => None,
            },
            _ => None,
        }
    }

    /// Signs in: makes a fresh session token and CSRF token, and keeps the
    /// CSRF token under the token's digest for eight hours. Returns both tokens.
    pub fn open_session(&mut self, now: u64) -> (r: (String, String))
        requires
            now <= u64::MAX - SESSION_LIFETIME_MS,
        ensures
            exists|b: Seq<u8>| b.len() == 32 && r.0@ == hex_text(b),
            exists|b: Seq<u8>| b.len() == 32 && r.1@ == hex_text(b),
            r.0@.len() == 64,
            r.1@.len() == 64,
            final(self)@ == put(
                before_sign_in(old(self)@, now),
                SessionRecord {
                    digest: hex_text(sha256(encode_utf8(r.0@))),
                    csrf: r.1@,
                    expires: (now + SESSION_LIFETIME_MS) as u64,
                },
            ),
    {
        let t = token();
        let csrf = token();
        let d = digest(t.as_str());
        self.insert(d, csrf.clone(), now);
        (t, csrf)
    }

    /// Signs out the session a request's `Cookie` header names, if any.
    pub fn close_session(&mut self, cookie: &HeaderText)
        ensures
            match *cookie {
                HeaderText::Text(h) => match cookie_token(h@) {
                    Some(t) => final(self)@ == without(old(self)@, hex_text(sha256(encode_utf8(t)))),
                    None => final(self)@ == old(self)@,
                },
                _ => final(self)@ == old(self)@,
            },
    {
        match cookie {
            HeaderText::Text(h) => match session_token(h.as_str()) {
                Some(t) => {
                    let d = digest(t.as_str());
                    self.remove(d.as_str());
                },
                None => {},
            },
            _ => {},
        }
    }
}

/// How long ago `t` was at `now`; a time after `now` counts as just now.
pub open spec fn elapsed(t: u64, now: u64) -> nat {
    if now >= t {
        (now - t) as nat
    } else {
        0
    }
}

/// The attempt at `t` still counts at `now`.
pub open spec fn within_window(t: u64, now: u64) -> bool {
    elapsed(t, now) < LOGIN_WINDOW_MS
}

/// The attempts of `s` that still count at `now`.
pub open spec fn recent(s: Seq<u64>, now: u64) -> Seq<u64> {
    s.filter(|t: u64| within_window(t, now))
}

/// The attempts a login throttle holds after login attempts at `times`, one
/// after another from a new throttle, each step as `LoginThrottle::try_attempt`
/// states it.
pub open spec fn throttle_after(times: Seq<u64>) -> Seq<u64>
    decreases times.len(),
{
    if times.len() == 0 {
        Seq::empty()
    } else {
        let held = recent(throttle_after(times.drop_last()), times.last());
        if held.len() < MAX_LOGIN_ATTEMPTS {
            held.push(times.last())
        } else {
            held
        }
    }
}

/// Whether attempt `i` of `times` was let through.
pub open spec fn attempt_allowed(times: Seq<u64>, i: int) -> bool {
    recent(throttle_after(times.take(i)), times[i]).len() < MAX_LOGIN_ATTEMPTS
}

/// The login throttle: the times of the login attempts of the last minute.
pub struct LoginThrottle {
    attempts: Vec<u64>,
}

impl View for LoginThrottle {
    type V = Seq<u64>;

    closed spec fn view(&self) -> Seq<u64> {
        self.attempts@
    }
}

impl LoginThrottle {
    /// No more than `MAX_LOGIN_ATTEMPTS` attempts are kept.
    #[verifier::type_invariant]
    closed spec fn wf(self) -> bool {
        self.attempts.len() <= MAX_LOGIN_ATTEMPTS
    }

    /// A throttle with no attempts.
    pub fn new() -> (r: LoginThrottle)
        ensures
            r@ == Seq::<u64>::empty(),
            r@ == throttle_after(Seq::empty()),
    {
        LoginThrottle { attempts: Vec::new() }
    }

    /// Never more than `MAX_LOGIN_ATTEMPTS` attempts are kept.
    pub fn len(&self) -> (r: usize)
        ensures
            r == self@.len(),
            r <= MAX_LOGIN_ATTEMPTS,
    {
        proof {
            use_type_invariant(self);
        }
        self.attempts.len()
    }

    /// A login attempt at `now`: attempts older than a minute are forgotten;
    /// when five remain the attempt is refused, otherwise it is counted and
    /// allowed.
    pub fn try_attempt(&mut self, now: u64) -> (r: bool)
        ensures
            r == (recent(old(self)@, now).len() < MAX_LOGIN_ATTEMPTS),
            final(self)@ == (if r {
                recent(old(self)@, now).push(now)
            } else {
                recent(old(self)@, now)
            }),
            forall|times: Seq<u64>|
                old(self)@ == #[trigger] throttle_after(times) ==> final(self)@ == throttle_after(times.push(now))
                    && r == attempt_allowed(times.push(now), times.len() as int),
    {
        proof {
            use_type_invariant(&*self);
        }
        let ghost whole = self@;
        let ghost pred = |t: u64| within_window(t, now);
        let mut kept: Vec<u64> = Vec::new();
        let mut i: usize = 0;
        assert(whole.take(0).filter(pred) =~= Seq::<u64>::empty());
        while i < self.attempts.len()
            invariant
                whole == self.attempts@,
                pred == (|t: u64| within_window(t, now)),
                i <= self.attempts.len(),
                kept@ == whole.take(i as int).filter(pred),
                kept.len() <= i,
            decreases self.attempts.len() - i,
        {
            let t = self.attempts[i];
            let age = if now >= t {
                now - t
            } else {
                0
            };
            proof {
                reveal_with_fuel(Seq::filter, 1);
                let w = whole.take(i + 1);
                assert(w.drop_last() =~= whole.take(i as int));
                assert(w.last() == t);
            }
            if age < LOGIN_WINDOW_MS {
                kept.push(t);
            }
            i = i + 1;
        }
        assert(whole.take(self.attempts.len() as int) =~= whole);
        assert forall|times: Seq<u64>| #[trigger] throttle_after(times) == whole implies {
            &&& times.push(now).drop_last() == times
            &&& times.push(now).take(times.len() as int) == times
        } by {
            assert(times.push(now).drop_last() =~= times);
            assert(times.push(now).take(times.len() as int) =~= times);
        }
        if kept.len() >= MAX_LOGIN_ATTEMPTS {
            self.attempts = kept;
            false
        } else {
            kept.push(now);
            self.attempts = kept;
            true
        }
    }
}

} // verus!
