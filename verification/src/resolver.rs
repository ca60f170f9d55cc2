//! Client resolvers: MAC lookup from the kernel neighbor table's text
//! and hostname lookup from DHCP-lease documents.
//!
//! Both lookups are best-effort: they never fail, they only come back
//! empty.
use vstd::prelude::*;
use vstd::string::*;

use crate::rules::{is_space_char, is_space_char_x};
use crate::text::str_eq;

verus! {

/// A listed line without a trailing carriage return.
pub open spec fn chop_cr(l: Seq<char>) -> Seq<char> {
    if l.len() > 0 && l.last() == '\r' {
        l.drop_last()
    } else {
        l
    }
}

pub open spec fn spec_lines_rec(s: Seq<char>, i: int, cur: Seq<char>, acc: Seq<Seq<char>>) -> Seq<
    Seq<char>,
>
    decreases s.len() - i when 0 <= i <= s.len()
{
    if i >= s.len() {
        if cur.len() > 0 {
            acc.push(cur)
        } else {
            acc
        }
    } else if s[i] == '\n' {
        spec_lines_rec(s, i + 1, Seq::empty(), acc.push(chop_cr(cur)))
    } else {
        spec_lines_rec(s, i + 1, cur.push(s[i]), acc)
    }
}

/// The lines of a text, split at newlines, carriage returns before a
/// newline stripped, without a final empty line.
pub open spec fn spec_lines(s: Seq<char>) -> Seq<Seq<char>> {
    spec_lines_rec(s, 0, Seq::empty(), Seq::empty())
}

/// Splits a text into lines.
pub fn split_lines(text: &str) -> (r: Vec<String>)
    ensures
        r.deep_view() == spec_lines(text@),
{
    let n = text.unicode_len();
    let mut acc: Vec<String> = Vec::new();
    let mut start: usize = 0;
    let mut i: usize = 0;
    proof {
        assert(text@.subrange(0, 0) =~= Seq::<char>::empty());
        assert(acc.deep_view() =~= Seq::<Seq<char>>::empty());
    }
    while i < n
        invariant
            n == text@.len(),
            start <= i <= n,
            spec_lines(text@) == spec_lines_rec(
                text@,
                i as int,
                text@.subrange(start as int, i as int),
                acc.deep_view(),
            ),
        decreases n - i,
    {
        let ghost cur = text@.subrange(start as int, i as int);
        let c = text.get_char(i);
        if c == '\n' {
            let end = if i > start && text.get_char(i - 1) == '\r' {
                i - 1
            } else {
                i
            };
            proof {
                if i > start && text@[i - 1] == '\r' {
                    assert(cur.last() == text@[i - 1]);
                    assert(cur.drop_last() =~= text@.subrange(start as int, i - 1));
                } else {
                }
                assert(chop_cr(cur) == text@.subrange(start as int, end as int));
            }
            let line = text.substring_char(start, end).to_owned();
            let ghost old_acc = acc.deep_view();
            acc.push(line);
            proof {
                assert(acc.deep_view() =~= old_acc.push(chop_cr(cur)));
            }
            start = i + 1;
        }
        i += 1;
        proof {
            if c != '\n' {
                assert(text@.subrange(start as int, i as int) =~= cur.push(c));
            } else {
                assert(text@.subrange(start as int, i as int) =~= Seq::<char>::empty());
            }
        }
    }
    if start < n {
        let line = text.substring_char(start, n).to_owned();
        let ghost old_acc = acc.deep_view();
        acc.push(line);
        proof {
            assert(acc.deep_view() =~= old_acc.push(text@.subrange(start as int, n as int)));
        }
    } else {
        proof {
            assert(text@.subrange(start as int, n as int).len() == 0);
        }
    }
    acc
}

pub open spec fn spec_cols_rec(s: Seq<char>, i: int, cur: Seq<char>, acc: Seq<Seq<char>>) -> Seq<
    Seq<char>,
>
    decreases s.len() - i when 0 <= i <= s.len()
{
    if i >= s.len() {
        if cur.len() > 0 {
            acc.push(cur)
        } else {
            acc
        }
    } else if is_space_char(s[i]) {
        if cur.len() > 0 {
            spec_cols_rec(s, i + 1, Seq::empty(), acc.push(cur))
        } else {
            spec_cols_rec(s, i + 1, Seq::empty(), acc)
        }
    } else {
        spec_cols_rec(s, i + 1, cur.push(s[i]), acc)
    }
}

/// The whitespace-separated columns of a line.
pub open spec fn spec_cols(s: Seq<char>) -> Seq<Seq<char>> {
    spec_cols_rec(s, 0, Seq::empty(), Seq::empty())
}

/// Splits a line into whitespace-separated columns.
pub fn split_columns(line: &str) -> (r: Vec<String>)
    ensures
        r.deep_view() == spec_cols(line@),
{
    let n = line.unicode_len();
    let mut acc: Vec<String> = Vec::new();
    let mut tok: usize = 0;
    let mut in_tok = false;
    let mut i: usize = 0;
    proof {
        assert(acc.deep_view() =~= Seq::<Seq<char>>::empty());
    }
    while i < n
        invariant
            n == line@.len(),
            i <= n,
            in_tok ==> tok < i,
            spec_cols(line@) == spec_cols_rec(
                line@,
                i as int,
                if in_tok {
                    line@.subrange(tok as int, i as int)
                } else {
                    Seq::<char>::empty()
                },
                acc.deep_view(),
            ),
        decreases n - i,
    {
        let ghost cur: Seq<char> = if in_tok {
            line@.subrange(tok as int, i as int)
        } else {
            Seq::empty()
        };
        let c = line.get_char(i);
        if is_space_char_x(c) {
            if in_tok {
                let t = line.substring_char(tok, i).to_owned();
                let ghost old_acc = acc.deep_view();
                acc.push(t);
                proof {
                    assert(acc.deep_view() =~= old_acc.push(cur));
                }
                in_tok = false;
            }
        } else {
            if !in_tok {
                in_tok = true;
                tok = i;
            }
        }
        i += 1;
        proof {
            if !is_space_char(c) {
                assert(line@.subrange(tok as int, i as int) =~= cur.push(c));
            }
        }
    }
    if in_tok {
        let t = line.substring_char(tok, n).to_owned();
        let ghost old_acc = acc.deep_view();
        acc.push(t);
        proof {
            assert(acc.deep_view() =~= old_acc.push(line@.subrange(tok as int, n as int)));
        }
    }
    acc
}

/// The MAC for `ip` in the neighbor table's lines: column four of the
/// first line of at least six columns whose first column equals `ip`.
pub open spec fn spec_mac_lookup(lines: Seq<Seq<char>>, ip: Seq<char>) -> Option<Seq<char>>
    decreases lines.len(),
{
    if lines.len() == 0 {
        None
    } else {
        let c = spec_cols(lines[0]);
        if c.len() >= 6 && c[0] == ip {
            Some(c[4])
        } else {
            spec_mac_lookup(lines.skip(1), ip)
        }
    }
}

pub open spec fn spec_get_mac(ip: Seq<char>, output: Seq<char>) -> Option<Seq<char>> {
    spec_mac_lookup(spec_lines(output), ip)
}

/// Scans the neighbor table's text for the MAC of `ip`.  A line with
/// fewer than six columns is skipped, even when its first column is the
/// queried address.
pub fn get_mac_impl(ip: &str, output: &str) -> (r: Option<String>)
    ensures
        match r {
            Some(m) => spec_get_mac(ip@, output@) == Some(m@),
            None => spec_get_mac(ip@, output@) is None,
        },
{
    let lines = split_lines(output);
    let ghost all = lines.deep_view();
    let mut i: usize = 0;
    proof {
        assert(all.skip(0) =~= all);
    }
    while i < lines.len()
        invariant
            all == lines.deep_view(),
            all == spec_lines(output@),
            i <= lines.len(),
            spec_mac_lookup(all, ip@) == spec_mac_lookup(all.skip(i as int), ip@),
        decreases lines.len() - i,
    {
        let cols = split_columns(lines[i].as_str());
        proof {
            assert(all.skip(i as int)[0] == all[i as int]);
            assert(all[i as int] == lines@[i as int]@);
        }
        if cols.len() >= 6 {
            if str_eq(cols[0].as_str(), ip) {
                proof {
                    let tail = all.skip(i as int);
                    assert(cols.deep_view()[0] == cols@[0]@);
                    assert(cols.deep_view()[4] == cols@[4]@);
                    assert(spec_cols(tail[0]) == cols.deep_view());
                    assert(spec_mac_lookup(tail, ip@) == Some(cols.deep_view()[4]));
                }
                return Some(cols[4].clone());
            }
        }
        proof {
            assert(all.skip(i as int).skip(1) =~= all.skip(i + 1));
        }
        i += 1;
    }
    proof {
        assert(all.skip(i as int).len() == 0);
    }
    None
}

/// Resolves an address to a MAC given the neighbor table's text, when
/// the table could be read at all.
pub fn ip_to_mac(ip: &str, neighbor_output: Option<&str>) -> (r: Option<String>)
    ensures
        match neighbor_output {
            Some(o) => match r {
                Some(m) => spec_get_mac(ip@, o@) == Some(m@),
                None => spec_get_mac(ip@, o@) is None,
            },
            None => r is None,
        },
{
    match neighbor_output {
        Some(o) => get_mac_impl(ip, o),
        None => None,
    }
}

/// One entry of a DHCP-lease document: the `ip` and `hostname` fields,
/// each present only when the document holds it as a string.
pub struct Lease {
    pub ip: Option<String>,
    pub hostname: Option<String>,
}

impl View for Lease {
    type V = (Option<Seq<char>>, Option<Seq<char>>);

    open spec fn view(&self) -> (Option<Seq<char>>, Option<Seq<char>>) {
        (
            match self.ip {
                Some(ref s) => Some(s@),
                None => None,
            },
            match self.hostname {
                Some(ref s) => Some(s@),
                None => None,
            },
        )
    }
}

/// The lease entries under `device.br-public.leases` of a JSON
/// document, or nothing when the text is not JSON or has no array
/// there.
pub uninterp spec fn leases_in(doc: Seq<char>) -> Option<
    Seq<(Option<Seq<char>>, Option<Seq<char>>)>,
>;

/// Relies on serde_json: `from_str` decodes the document, `Value::get`
/// walks `device`, `br-public`, `leases`, and `as_array` / `as_str`
/// tell the JSON value kinds apart.  The result is a function of the
/// document text alone.
#[verifier::external_body]
fn leases_of_doc(doc: &str) -> (r: Option<Vec<Lease>>)
    ensures
        match r {
            Some(v) => leases_in(doc@) == Some(v@.map_values(|l: Lease| l@)),
            None => leases_in(doc@) is None,
        },
{
    let v: serde_json::Value = match serde_json::from_str(doc) {
        Ok(v) => v,
        Err(_) => return None,
    };
    let arr = v.get("device")?.get("br-public")?.get("leases")?.as_array()?;
    Some(
        arr.iter().map(
            |l| Lease {
                ip: l.get("ip").and_then(|x| x.as_str()).map(|s| s.to_owned()),
                hostname: l.get("hostname").and_then(|x| x.as_str()).map(|s| s.to_owned()),
            },
        ).collect(),
    )
}

/// The `(ip, hostname)` pairs among the lease entries whose two fields
/// are both present, in document order.
pub open spec fn spec_lease_pairs(ls: Seq<(Option<Seq<char>>, Option<Seq<char>>)>) -> Seq<
    (Seq<char>, Seq<char>),
>
    decreases ls.len(),
{
    if ls.len() == 0 {
        Seq::empty()
    } else {
        let rest = spec_lease_pairs(ls.drop_last());
        match ls.last() {
            (Some(i), Some(h)) => rest.push((i, h)),
            _ => rest,
        }
    }
}

/// What a lease document yields: its complete `(ip, hostname)` pairs,
/// or nothing at all when the document does not decode.
pub open spec fn spec_ipleases(doc: Seq<char>) -> Seq<(Seq<char>, Seq<char>)> {
    match leases_in(doc) {
        Some(ls) => spec_lease_pairs(ls),
        None => Seq::empty(),
    }
}

/// Extracts the `(ip, hostname)` pairs of a lease document.
pub fn parse_ipleases(output: &str) -> (r: Vec<(String, String)>)
    ensures
        r@.map_values(|p: (String, String)| (p.0@, p.1@)) == spec_ipleases(output@),
{
    let mut result: Vec<(String, String)> = Vec::new();
    let leases = match leases_of_doc(output) {
        Some(l) => l,
        None => {
            proof {
                assert(result@.map_values(|p: (String, String)| (p.0@, p.1@)) =~= spec_ipleases(
                    output@,
                ));
            }
            return result;
        },
    };
    let ghost all = leases@.map_values(|l: Lease| l@);
    let mut i: usize = 0;
    while i < leases.len()
        invariant
            all == leases@.map_values(|l: Lease| l@),
            i <= leases.len(),
            result@.map_values(|p: (String, String)| (p.0@, p.1@)) == spec_lease_pairs(
                all.take(i as int),
            ),
        decreases leases.len() - i,
    {
        let ghost prefix = all.take(i as int);
        let ghost next = all.take(i + 1);
        proof {
            assert(next.drop_last() =~= prefix);
            assert(next.last() == all[i as int]);
        }
        let lease = &leases[i];
        match (&lease.ip, &lease.hostname) {
            (Some(ipv), Some(hostv)) => {
                let ghost old_r = result@.map_values(|p: (String, String)| (p.0@, p.1@));
                result.push((ipv.clone(), hostv.clone()));
                proof {
                    assert(result@.map_values(|p: (String, String)| (p.0@, p.1@)) =~= old_r.push(
                        (ipv@, hostv@),
                    ));
                }
            },
            _ => {},
        }
        i += 1;
    }
    proof {
        assert(all.take(leases@.len() as int) =~= all);
    }
    result
}

/// The first hostname among the pairs whose address equals `ip`.
pub open spec fn spec_first_hostname(pairs: Seq<(Seq<char>, Seq<char>)>, ip: Seq<char>) -> Option<
    Seq<char>,
>
    decreases pairs.len(),
{
    if pairs.len() == 0 {
        None
    } else if pairs[0].0 == ip {
        Some(pairs[0].1)
    } else {
        spec_first_hostname(pairs.skip(1), ip)
    }
}

/// The hostname the resolver owes for `ip` given the two lease
/// documents: the first match in the IPv4 document, else the first
/// match in the IPv6 document, else nothing.
pub open spec fn spec_hostname_lookup(
    ip: Seq<char>,
    v4: Option<Seq<char>>,
    v6: Option<Seq<char>>,
) -> Option<Seq<char>> {
    let a = match v4 {
        Some(d) => spec_first_hostname(spec_ipleases(d), ip),
        None => None,
    };
    match a {
        Some(h) => Some(h),
        None => match v6 {
            Some(d) => spec_first_hostname(spec_ipleases(d), ip),
            None => None,
        },
    }
}

fn first_hostname_in(doc: &str, ip: &str) -> (r: Option<String>)
    ensures
        match r {
            Some(h) => spec_first_hostname(spec_ipleases(doc@), ip@) == Some(h@),
            None => spec_first_hostname(spec_ipleases(doc@), ip@) is None,
        },
{
    let pairs = parse_ipleases(doc);
    let ghost all = pairs@.map_values(|p: (String, String)| (p.0@, p.1@));
    let mut i: usize = 0;
    proof {
        assert(all.skip(0) =~= all);
    }
    while i < pairs.len()
        invariant
            all == pairs@.map_values(|p: (String, String)| (p.0@, p.1@)),
            all == spec_ipleases(doc@),
            i <= pairs.len(),
            spec_first_hostname(all, ip@) == spec_first_hostname(all.skip(i as int), ip@),
        decreases pairs.len() - i,
    {
        proof {
            assert(all.skip(i as int)[0] == all[i as int]);
        }
        if str_eq(pairs[i].0.as_str(), ip) {
            proof {
                let tail = all.skip(i as int);
                assert(all[i as int] == (pairs@[i as int].0@, pairs@[i as int].1@));
                assert(spec_first_hostname(tail, ip@) == Some(pairs@[i as int].1@));
            }
            return Some(pairs[i].1.clone());
        }
        proof {
            assert(all.skip(i as int).skip(1) =~= all.skip(i + 1));
        }
        i += 1;
    }
    proof {
        assert(all.skip(i as int).len() == 0);
    }
    None
}

/// Finds the hostname for `ip` in the IPv4 lease document, then in the
/// IPv6 one.  Undecodable documents yield nothing, never an error.
pub fn get_hostname_for_ip(ip: &str, v4_doc: Option<&str>, v6_doc: Option<&str>) -> (r: Option<
    String,
>)
    ensures
        match r {
            Some(h) => spec_hostname_lookup(
                ip@,
                match v4_doc {
                    Some(d) => Some(d@),
                    None => None,
                },
                match v6_doc {
                    Some(d) => Some(d@),
                    None => None,
                },
            ) == Some(h@),
            None => spec_hostname_lookup(
                ip@,
                match v4_doc {
                    Some(d) => Some(d@),
                    None => None,
                },
                match v6_doc {
                    Some(d) => Some(d@),
                    None => None,
                },
            ) is None,
        },
{
    if let Some(d) = v4_doc {
        if let Some(h) = first_hostname_in(d, ip) {
            return Some(h);
        }
    }
    if let Some(d) = v6_doc {
        if let Some(h) = first_hostname_in(d, ip) {
            return Some(h);
        }
    }
    None
}

} // verus!
