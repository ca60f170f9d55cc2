//! The request classifier and its process-wide context.
//!
//! Every intercepted request runs one pipeline: the acceptance probe
//! (side effect only), then portal-host dispatch, then portal-referred
//! dispatch, else the default redirect.
use vstd::prelude::*;
use vstd::string::*;
use core::str::FromStr;

use crate::text::{
    spec_contains, contains_sub, str_eq, spec_find_char_from, find_char, match_at, str_eq_at,
    spec_pct_chars, percent_encode_str,
};
use vstd::utf8::encode_utf8;

verus! {

/// ASCII letters and digits.
pub open spec fn is_alnum(c: char) -> bool {
    ('0' <= c && c <= '9') || ('a' <= c && c <= 'z') || ('A' <= c && c <= 'Z')
}

/// The host component of a URI text, or nothing when the text is not a
/// URI or has no authority.
pub uninterp spec fn host_of(uri: Seq<char>) -> Option<Seq<char>>;

/// Relies on hyper's `Uri` (re-exported from the `http` crate):
/// `Uri::from_str` parses the text and `host()` yields its host
/// component.  Both are functions of the text alone.
#[verifier::external_body]
pub fn uri_host(uri: &str) -> (r: Option<String>)
    ensures
        match r {
            Some(h) => host_of(uri@) == Some(h@),
            None => host_of(uri@) is None,
        },
{
    match hyper::Uri::from_str(uri) {
        Ok(u) => u.host().map(|h| h.to_owned()),
        Err(_) => None,
    }
}

/// The host component of the concretized redirect URL, used by the
/// classifier to recognize portal traffic.
pub fn get_redirect_host(redirect_url: &str) -> (r: Option<String>)
    ensures
        match r {
            Some(h) => host_of(redirect_url@) == Some(h@),
            None => host_of(redirect_url@) is None,
        },
{
    uri_host(redirect_url)
}

/// Relies on rand's `Alphanumeric` distribution: `sample_string` draws
/// exactly the requested number of ASCII alphanumeric characters.
#[verifier::external_body]
pub fn create_secret() -> (r: String)
    ensures
        r@.len() == 16,
        forall|i: int| 0 <= i < 16 ==> is_alnum(r@[i]),
{
    rand::distr::SampleString::sample_string(&rand::distr::Alphanumeric, &mut rand::rng(), 16)
}

/// The hostname part of a Host header value: a bracketed IPv6 literal
/// up to its closing bracket, else everything before the first colon.
pub open spec fn spec_host_name(h: Seq<char>) -> Seq<char> {
    if h.len() > 0 && h[0] == '[' {
        match spec_find_char_from(h, 0, ']') {
            Some(j) => h.subrange(0, j + 1),
            None => h,
        }
    } else {
        match spec_find_char_from(h, 0, ':') {
            Some(j) => h.subrange(0, j),
            None => h,
        }
    }
}

/// Extracts the hostname from a Host header value.
pub fn host_name_of(h: &str) -> (r: String)
    ensures
        r@ == spec_host_name(h@),
{
    let n = h.unicode_len();
    if n > 0 && h.get_char(0) == '[' {
        match find_char(h, ']') {
            Some(j) => h.substring_char(0, j + 1).to_owned(),
            None => h.to_owned(),
        }
    } else {
        match find_char(h, ':') {
            Some(j) => h.substring_char(0, j).to_owned(),
            None => h.to_owned(),
        }
    }
}

/// The query part of a request target: everything after the first
/// question mark, absent when there is none.
pub open spec fn spec_query(uri: Seq<char>) -> Option<Seq<char>> {
    match spec_find_char_from(uri, 0, '?') {
        Some(j) => Some(uri.subrange(j + 1, uri.len() as int)),
        None => None,
    }
}

/// Extracts the query string of a request target.
pub fn query_of(uri: &str) -> (r: Option<String>)
    ensures
        match r {
            Some(q) => spec_query(uri@) == Some(q@),
            None => spec_query(uri@) is None,
        },
{
    let n = uri.unicode_len();
    match find_char(uri, '?') {
        Some(j) => Some(uri.substring_char(j + 1, n).to_owned()),
        None => None,
    }
}

/// Process-wide immutable state shared by every request handler: the
/// acceptance secret drawn at startup and the configured identity.
pub struct Sentry {
    pub secret: String,
    pub identity: String,
}

/// A query carries acceptance when it holds the literal
/// `tos_accepted=true` or the process secret as a substring.
pub open spec fn spec_contains_secret(query: Seq<char>, secret: Seq<char>) -> bool {
    spec_contains(query, "tos_accepted=true"@) || spec_contains(query, secret)
}

impl Sentry {
    pub fn new(secret: String, identity: String) -> (r: Sentry)
        ensures
            r.secret@ == secret@,
            r.identity@ == identity@,
    {
        Sentry { secret, identity }
    }

    /// The acceptance probe's test on a query string.
    pub fn contains_secret(&self, query: &str) -> (r: bool)
        ensures
            r == spec_contains_secret(query@, self.secret@),
    {
        contains_sub(query, "tos_accepted=true") || contains_sub(query, self.secret.as_str())
    }
}

/// What the classifier needs of an intercepted request, as plain
/// values: the raw Host and Referer header values when present, the
/// request target as it appears in the request line, and the peer's
/// address rendered as text.
pub struct RequestInfo {
    pub host: Option<String>,
    pub referer: Option<String>,
    pub uri: String,
    pub remote_ip: String,
}

pub open spec fn opt_view(o: Option<String>) -> Option<Seq<char>> {
    match o {
        Some(s) => Some(s@),
        None => None,
    }
}

/// The response branch chosen for a request.
pub enum Decision {
    /// Fetch the portal with attribution headers from this target URI.
    Portal { target: String },
    /// Proxy the request to this target URI, dropping the Referer.
    Referred { target: String },
    /// Answer with the default 302 redirect.
    Redirect,
}

/// The classifier's outcome: whether the acceptance probe fires, and
/// which single response branch runs.
pub struct Classification {
    pub authorize: bool,
    pub decision: Decision,
}

/// The request's Host header names the portal host.
pub open spec fn spec_is_portal_host(host: Option<Seq<char>>, redirect_host: Seq<char>) -> bool {
    match host {
        Some(h) => spec_host_name(h) == redirect_host,
        None => false,
    }
}

/// The request has a Host header and a Referer whose URI's host is the
/// portal host.
pub open spec fn spec_is_portal_referred(
    host: Option<Seq<char>>,
    referer: Option<Seq<char>>,
    redirect_host: Seq<char>,
) -> bool {
    host is Some && match referer {
        Some(rf) => host_of(rf) == Some(redirect_host),
        None => false,
    }
}

/// The upstream target built for portal traffic.
pub open spec fn spec_target_uri(host: Seq<char>, uri: Seq<char>) -> Seq<char> {
    "http://"@ + host + uri
}

fn build_target(host: &str, uri: &str) -> (r: String)
    ensures
        r@ == spec_target_uri(host@, uri@),
{
    let mut s = String::new();
    s.append("http://");
    s.append(host);
    s.append(uri);
    proof {
        assert(s@ =~= spec_target_uri(host@, uri@));
    }
    s
}

/// The per-request service context: the redirect URL template, the
/// portal host extracted from it at startup, and the shared state.
pub struct Service {
    pub redirect_url: String,
    pub redirect_host: String,
    pub sentry: Sentry,
}

impl Service {
    pub fn new(redirect_url: String, redirect_host: String, sentry: Sentry) -> (r: Service)
        ensures
            r.redirect_url@ == redirect_url@,
            r.redirect_host@ == redirect_host@,
            r.sentry == sentry,
    {
        Service { redirect_url, redirect_host, sentry }
    }

    /// Runs the decision pipeline once, in order: the acceptance probe
    /// fires iff the query carries acceptance, regardless of the branch
    /// chosen; the portal-host branch is taken iff the Host header
    /// names the portal; else the portal-referred branch iff both Host
    /// and Referer are present and the Referer's URI points at the
    /// portal; else the default redirect.
    pub fn classify(&self, req: &RequestInfo) -> (r: Classification)
        ensures
            r.authorize == match spec_query(req.uri@) {
                Some(q) => spec_contains_secret(q, self.sentry.secret@),
                None => false,
            },
            match r.decision {
                Decision::Portal { target } => spec_is_portal_host(
                    opt_view(req.host),
                    self.redirect_host@,
                ) && target@ == spec_target_uri(req.host->Some_0@, req.uri@),
                Decision::Referred { target } => !spec_is_portal_host(
                    opt_view(req.host),
                    self.redirect_host@,
                ) && spec_is_portal_referred(
                    opt_view(req.host),
                    opt_view(req.referer),
                    self.redirect_host@,
                ) && target@ == spec_target_uri(req.host->Some_0@, req.uri@),
                Decision::Redirect => !spec_is_portal_host(opt_view(req.host), self.redirect_host@)
                    && !spec_is_portal_referred(
                    opt_view(req.host),
                    opt_view(req.referer),
                    self.redirect_host@,
                ),
            },
    {
        let authorize = match query_of(req.uri.as_str()) {
            Some(q) => self.sentry.contains_secret(q.as_str()),
            None => false,
        };
        let decision = match &req.host {
            Some(h) => {
                let hn = host_name_of(h.as_str());
                if str_eq(hn.as_str(), self.redirect_host.as_str()) {
                    Decision::Portal { target: build_target(h.as_str(), req.uri.as_str()) }
                } else {
                    match &req.referer {
                        Some(rf) => {
                            let ref_host = uri_host(rf.as_str());
                            let referred = match ref_host {
                                Some(rh) => str_eq(rh.as_str(), self.redirect_host.as_str()),
                                None => false,
                            };
                            if referred {
                                Decision::Referred {
                                    target: build_target(h.as_str(), req.uri.as_str()),
                                }
                            } else {
                                Decision::Redirect
                            }
                        },
                        None => Decision::Redirect,
                    }
                }
            },
            None => Decision::Redirect,
        };
        Classification { authorize, decision }
    }
}

/// One of the five placeholders stands at index `i` of the template.
pub open spec fn placeholder_at(t: Seq<char>, i: int) -> bool {
    ||| match_at(t, "{{origin}}"@, i)
    ||| match_at(t, "{{identity}}"@, i)
    ||| match_at(t, "{{client_ip_addr}}"@, i)
    ||| match_at(t, "{{client_mac_addr}}"@, i)
    ||| match_at(t, "{{client_hostname}}"@, i)
}

/// The rendering of the template from index `i` on: each placeholder
/// replaced by its variable, every other character kept.
pub open spec fn spec_render_from(
    t: Seq<char>,
    i: int,
    origin: Seq<char>,
    identity: Seq<char>,
    ip: Seq<char>,
    mac: Seq<char>,
    hostname: Seq<char>,
) -> Seq<char>
    decreases t.len() - i when 0 <= i
{
    if i >= t.len() {
        Seq::empty()
    } else if i + 10 <= t.len() && match_at(t, "{{origin}}"@, i) {
        origin + spec_render_from(
            t,
            i + 10,
            origin,
            identity,
            ip,
            mac,
            hostname,
        )
    } else if i + 12 <= t.len() && match_at(t, "{{identity}}"@, i) {
        identity + spec_render_from(
            t,
            i + 12,
            origin,
            identity,
            ip,
            mac,
            hostname,
        )
    } else if i + 18 <= t.len() && match_at(t, "{{client_ip_addr}}"@, i) {
        ip + spec_render_from(
            t,
            i + 18,
            origin,
            identity,
            ip,
            mac,
            hostname,
        )
    } else if i + 19 <= t.len() && match_at(t, "{{client_mac_addr}}"@, i) {
        mac + spec_render_from(
            t,
            i + 19,
            origin,
            identity,
            ip,
            mac,
            hostname,
        )
    } else if i + 19 <= t.len() && match_at(t, "{{client_hostname}}"@, i) {
        hostname + spec_render_from(
            t,
            i + 19,
            origin,
            identity,
            ip,
            mac,
            hostname,
        )
    } else {
        seq![t[i]] + spec_render_from(t, i + 1, origin, identity, ip, mac, hostname)
    }
}

pub open spec fn spec_render(
    t: Seq<char>,
    origin: Seq<char>,
    identity: Seq<char>,
    ip: Seq<char>,
    mac: Seq<char>,
    hostname: Seq<char>,
) -> Seq<char> {
    spec_render_from(t, 0, origin, identity, ip, mac, hostname)
}

proof fn lemma_render_literal(
    t: Seq<char>,
    lo: int,
    hi: int,
    origin: Seq<char>,
    identity: Seq<char>,
    ip: Seq<char>,
    mac: Seq<char>,
    hostname: Seq<char>,
)
    requires
        0 <= lo <= hi <= t.len(),
        forall|k: int| lo <= k < hi ==> !placeholder_at(t, k),
    ensures
        spec_render_from(t, lo, origin, identity, ip, mac, hostname) == t.subrange(lo, hi)
            + spec_render_from(t, hi, origin, identity, ip, mac, hostname),
    decreases hi - lo,
{
    if lo == hi {
        assert(t.subrange(lo, hi) =~= Seq::<char>::empty());
        assert(t.subrange(lo, hi) + spec_render_from(t, hi, origin, identity, ip, mac, hostname)
            =~= spec_render_from(t, hi, origin, identity, ip, mac, hostname));
    } else {
        assert(!placeholder_at(t, lo));
        assert(spec_render_from(t, lo, origin, identity, ip, mac, hostname) == seq![t[lo]]
            + spec_render_from(t, lo + 1, origin, identity, ip, mac, hostname));
        lemma_render_literal(t, lo + 1, hi, origin, identity, ip, mac, hostname);
        assert(seq![t[lo]] + t.subrange(lo + 1, hi) =~= t.subrange(lo, hi));
        assert(seq![t[lo]] + (t.subrange(lo + 1, hi) + spec_render_from(
            t,
            hi,
            origin,
            identity,
            ip,
            mac,
            hostname,
        )) =~= t.subrange(lo, hi) + spec_render_from(t, hi, origin, identity, ip, mac, hostname));
    }
}

fn try_pat(t: &str, n: usize, i: usize, p: &str, m: usize) -> (r: bool)
    requires
        n == t@.len(),
        m == p@.len(),
        i <= n,
    ensures
        r == match_at(t@, p@, i as int),
{
    if m > n || i > n - m {
        false
    } else {
        str_eq_at(t, n, p, m, i)
    }
}

/// Renders the redirect URL template: substitutes the five placeholder
/// variables and keeps everything else verbatim.
pub fn render_template(
    t: &str,
    origin: &str,
    identity: &str,
    ip: &str,
    mac: &str,
    hostname: &str,
) -> (r: String)
    ensures
        r@ == spec_render(t@, origin@, identity@, ip@, mac@, hostname@),
{
    proof {
        reveal_strlit("{{origin}}");
        reveal_strlit("{{identity}}");
        reveal_strlit("{{client_ip_addr}}");
        reveal_strlit("{{client_mac_addr}}");
        reveal_strlit("{{client_hostname}}");
    }
    let n = t.unicode_len();
    let mut out = String::new();
    let mut lit: usize = 0;
    let mut i: usize = 0;
    while i < n
        invariant
            n == t@.len(),
            lit <= i <= n,
            forall|k: int| lit <= k < i ==> !placeholder_at(t@, k),
            spec_render(t@, origin@, identity@, ip@, mac@, hostname@) == out@ + spec_render_from(
                t@,
                lit as int,
                origin@,
                identity@,
                ip@,
                mac@,
                hostname@,
            ),
        decreases n - i,
    {
        proof {
            reveal_strlit("{{origin}}");
            reveal_strlit("{{identity}}");
            reveal_strlit("{{client_ip_addr}}");
            reveal_strlit("{{client_mac_addr}}");
            reveal_strlit("{{client_hostname}}");
        }
        let ghost pre = out@;
        let (hit, rep, skip): (bool, &str, usize) = if try_pat(t, n, i, "{{origin}}", 10) {
            (true, origin, 10)
        } else if try_pat(t, n, i, "{{identity}}", 12) {
            (true, identity, 12)
        } else if try_pat(t, n, i, "{{client_ip_addr}}", 18) {
            (true, ip, 18)
        } else if try_pat(t, n, i, "{{client_mac_addr}}", 19) {
            (true, mac, 19)
        } else if try_pat(t, n, i, "{{client_hostname}}", 19) {
            (true, hostname, 19)
        } else {
            (false, "", 1)
        };
        if hit {
            proof {
                lemma_render_literal(
                    t@,
                    lit as int,
                    i as int,
                    origin@,
                    identity@,
                    ip@,
                    mac@,
                    hostname@,
                );
            }
            let run = t.substring_char(lit, i);
            out.append(run);
            out.append(rep);
            proof {
                let tail = spec_render_from(
                    t@,
                    i + skip,
                    origin@,
                    identity@,
                    ip@,
                    mac@,
                    hostname@,
                );
                assert(spec_render_from(t@, i as int, origin@, identity@, ip@, mac@, hostname@)
                    == rep@ + tail);
                assert(out@ =~= pre + t@.subrange(lit as int, i as int) + rep@);
                assert(pre + t@.subrange(lit as int, i as int) + rep@ + tail =~= pre + (t@.subrange(
                    lit as int,
                    i as int,
                ) + (rep@ + tail)));
            }
            i += skip;
            lit = i;
        } else {
            i += 1;
        }
    }
    proof {
        lemma_render_literal(t@, lit as int, n as int, origin@, identity@, ip@, mac@, hostname@);
        assert(spec_render_from(t@, n as int, origin@, identity@, ip@, mac@, hostname@)
            =~= Seq::<char>::empty());
    }
    let run = t.substring_char(lit, n);
    out.append(run);
    proof {
        assert(out@ =~= spec_render(t@, origin@, identity@, ip@, mac@, hostname@));
    }
    out
}

/// The Location value of the default redirect: the template rendered
/// with the percent-encoded origin, the identity, the client address,
/// its MAC when resolved, and its percent-encoded hostname when known.
pub open spec fn spec_redirect_location(
    template: Seq<char>,
    identity: Seq<char>,
    host: Option<Seq<char>>,
    uri: Seq<char>,
    ip: Seq<char>,
    mac: Option<Seq<char>>,
    hostname: Option<Seq<char>>,
) -> Seq<char> {
    let hostpart = match host {
        Some(h) => spec_host_name(h),
        None => Seq::empty(),
    };
    let origin = spec_pct_chars(encode_utf8("http://"@ + hostpart + uri));
    let hostname_enc = spec_pct_chars(
        encode_utf8(
            match hostname {
                Some(h) => h,
                None => Seq::empty(),
            },
        ),
    );
    let macpart = match mac {
        Some(m) => m,
        None => Seq::empty(),
    };
    spec_render(template, origin, identity, ip, macpart, hostname_enc)
}

impl Service {
    /// Builds the default 302 redirect's Location value for a request,
    /// given what the resolvers found for the peer.  An absent Host
    /// header leaves the origin's host part empty; an absent MAC or
    /// hostname substitutes as the empty string.
    pub fn redirect_location(
        &self,
        req: &RequestInfo,
        mac: &Option<String>,
        hostname: &Option<String>,
    ) -> (r: String)
        ensures
            r@ == spec_redirect_location(
                self.redirect_url@,
                self.sentry.identity@,
                opt_view(req.host),
                req.uri@,
                req.remote_ip@,
                opt_view(*mac),
                opt_view(*hostname),
            ),
    {
        let mut origin_raw = String::new();
        origin_raw.append("http://");
        match &req.host {
            Some(h) => {
                let hn = host_name_of(h.as_str());
                origin_raw.append(hn.as_str());
            },
            None => {},
        }
        origin_raw.append(req.uri.as_str());
        proof {
            assert(origin_raw@ =~= "http://"@ + (match opt_view(req.host) {
                Some(h) => spec_host_name(h),
                None => Seq::<char>::empty(),
            }) + req.uri@);
        }
        let origin = percent_encode_str(origin_raw.as_str());
        let hostname_enc = match hostname {
            Some(h) => percent_encode_str(h.as_str()),
            None => percent_encode_str(""),
        };
        proof {
            reveal_strlit("");
            assert(""@ =~= Seq::<char>::empty());
        }
        let empty_mac = String::new();
        let macpart = match mac {
            Some(m) => m.as_str(),
            None => empty_mac.as_str(),
        };
        render_template(
            self.redirect_url.as_str(),
            origin.as_str(),
            self.sentry.identity.as_str(),
            req.remote_ip.as_str(),
            macpart,
            hostname_enc.as_str(),
        )
    }
}

} // verus!
