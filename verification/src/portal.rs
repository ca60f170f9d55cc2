//! Header handling for the portal proxy: the attribution headers added
//! before a portal fetch, the ignore-list filter applied when building
//! the upstream request, and the forced `Connection: close` on every
//! response handed back.
use vstd::prelude::*;
use vstd::string::*;

use crate::text::str_eq;

verus! {

/// The view of a header list: each name and value as characters.
pub open spec fn headers_view(hs: Seq<(String, String)>) -> Seq<(Seq<char>, Seq<char>)> {
    hs.map_values(|p: (String, String)| (p.0@, p.1@))
}

/// The five attribution headers, in order; the hostname header is left
/// out when the hostname is unknown.
pub open spec fn spec_extra_headers(
    secret: Seq<char>,
    identity: Seq<char>,
    address: Seq<char>,
    mac: Seq<char>,
    hostname: Option<Seq<char>>,
) -> Seq<(Seq<char>, Seq<char>)> {
    seq![("X-SC-Sentry-Connected-Ip"@, address), ("X-SC-Sentry-Connected-Mac"@, mac)] + (
    match hostname {
        Some(h) => seq![("X-SC-Sentry-Connected-Hostname"@, h)],
        None => Seq::empty(),
    }) + seq![("X-SC-Sentry-Secret"@, secret), ("X-SC-Sentry-Identity"@, identity)]
}

/// Appends the client-attribution headers before a portal fetch.  The
/// headers are appended, never replaced: a client that already sent one
/// of these names shows both values upstream.
pub fn add_extra_headers(
    headers: &mut Vec<(String, String)>,
    secret: &str,
    identity: &str,
    address: &str,
    mac_address: &str,
    hostname: &Option<String>,
)
    ensures
        headers_view(final(headers)@) == headers_view(old(headers)@) + spec_extra_headers(
            secret@,
            identity@,
            address@,
            mac_address@,
            match hostname {
                Some(h) => Some(h@),
                None => None,
            },
        ),
{
    headers.push(("X-SC-Sentry-Connected-Ip".to_owned(), address.to_owned()));
    headers.push(("X-SC-Sentry-Connected-Mac".to_owned(), mac_address.to_owned()));
    match hostname {
        Some(h) => {
            headers.push(("X-SC-Sentry-Connected-Hostname".to_owned(), h.clone()));
        },
        None => {},
    }
    headers.push(("X-SC-Sentry-Secret".to_owned(), secret.to_owned()));
    headers.push(("X-SC-Sentry-Identity".to_owned(), identity.to_owned()));
    proof {
        assert(headers_view(final(headers)@) =~= headers_view(old(headers)@) + spec_extra_headers(
            secret@,
            identity@,
            address@,
            mac_address@,
            match hostname {
                Some(h) => Some(h@),
                None => None,
            },
        ));
    }
}

/// The headers kept for the upstream request: those whose name is not
/// in the ignore list, in their original order.
pub open spec fn spec_filter_headers(
    hs: Seq<(Seq<char>, Seq<char>)>,
    ign: Seq<Seq<char>>,
) -> Seq<(Seq<char>, Seq<char>)>
    decreases hs.len(),
{
    if hs.len() == 0 {
        Seq::empty()
    } else {
        let rest = spec_filter_headers(hs.drop_last(), ign);
        if ign.contains(hs.last().0) {
            rest
        } else {
            rest.push(hs.last())
        }
    }
}

fn name_in(ignore: &Vec<String>, name: &str) -> (r: bool)
    ensures
        r == ignore.deep_view().contains(name@),
{
    let mut i: usize = 0;
    while i < ignore.len()
        invariant
            i <= ignore.len(),
            forall|k: int| 0 <= k < i ==> ignore.deep_view()[k] != name@,
        decreases ignore.len() - i,
    {
        if str_eq(ignore[i].as_str(), name) {
            proof {
                assert(ignore.deep_view()[i as int] == name@);
            }
            return true;
        }
        i += 1;
    }
    false
}

/// Copies a header bag into an upstream request, leaving out the
/// ignored names (the Referer, for portal-referred proxying).
pub fn filter_headers(headers: &Vec<(String, String)>, ignore: &Vec<String>) -> (r: Vec<
    (String, String),
>)
    ensures
        headers_view(r@) == spec_filter_headers(headers_view(headers@), ignore.deep_view()),
{
    let ghost all = headers_view(headers@);
    let ghost ign = ignore.deep_view();
    let mut out: Vec<(String, String)> = Vec::new();
    let mut i: usize = 0;
    proof {
        assert(headers_view(out@) =~= Seq::<(Seq<char>, Seq<char>)>::empty());
        assert(all.take(0) =~= Seq::<(Seq<char>, Seq<char>)>::empty());
    }
    while i < headers.len()
        invariant
            all == headers_view(headers@),
            ign == ignore.deep_view(),
            i <= headers.len(),
            headers_view(out@) == spec_filter_headers(all.take(i as int), ign),
        decreases headers.len() - i,
    {
        let ghost prefix = all.take(i as int);
        let ghost next = all.take(i + 1);
        proof {
            assert(next.drop_last() =~= prefix);
            assert(next.last() == all[i as int]);
        }
        if !name_in(ignore, headers[i].0.as_str()) {
            let ghost old_out = headers_view(out@);
            out.push((headers[i].0.clone(), headers[i].1.clone()));
            proof {
                assert(headers_view(out@) =~= old_out.push(all[i as int]));
            }
        }
        i += 1;
    }
    proof {
        assert(all.take(headers@.len() as int) =~= all);
    }
    out
}

/// The response headers handed back to the client: the upstream ones
/// with any Connection header replaced by `Connection: close`, so that
/// every connection serves exactly one request.
pub open spec fn spec_close_headers(hs: Seq<(Seq<char>, Seq<char>)>) -> Seq<
    (Seq<char>, Seq<char>),
> {
    spec_filter_headers(hs, seq!["Connection"@]).push(("Connection"@, "close"@))
}

/// Forces `Connection: close` on a response's header list.
pub fn force_connection_close(headers: &Vec<(String, String)>) -> (r: Vec<(String, String)>)
    ensures
        headers_view(r@) == spec_close_headers(headers_view(headers@)),
{
    let mut ign: Vec<String> = Vec::new();
    ign.push("Connection".to_owned());
    proof {
        assert(ign.deep_view() =~= seq!["Connection"@]);
    }
    let mut out = filter_headers(headers, &ign);
    let ghost filtered = headers_view(out@);
    out.push(("Connection".to_owned(), "close".to_owned()));
    proof {
        assert(headers_view(out@) =~= filtered.push(("Connection"@, "close"@)));
    }
    out
}

} // verus!
