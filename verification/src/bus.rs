//! The acceptance event published on the local message bus: a JSON
//! object `{ip, mac, timestamp}` with string-typed fields.
use vstd::prelude::*;
use vstd::string::*;

use crate::text::{spec_idec, i64_to_string};

verus! {

/// The uppercase hexadecimal digit character for a value below sixteen.
pub open spec fn hex_char(d: int) -> char {
    if d == 0 { '0' }
    else if d == 1 { '1' }
    else if d == 2 { '2' }
    else if d == 3 { '3' }
    else if d == 4 { '4' }
    else if d == 5 { '5' }
    else if d == 6 { '6' }
    else if d == 7 { '7' }
    else if d == 8 { '8' }
    else if d == 9 { '9' }
    else if d == 10 { 'A' }
    else if d == 11 { 'B' }
    else if d == 12 { 'C' }
    else if d == 13 { 'D' }
    else if d == 14 { 'E' }
    else { 'F' }
}

/// The JSON string escape of one character: quotes and backslashes get
/// a backslash, control characters become `\u00XX`, everything else
/// stands for itself.
pub open spec fn esc_char(c: char) -> Seq<char> {
    if c == '"' {
        seq!['\\', '"']
    } else if c == '\\' {
        seq!['\\', '\\']
    } else if (c as int) < 32 {
        seq!['\\', 'u', '0', '0', hex_char(c as int / 16), hex_char(c as int % 16)]
    } else {
        seq![c]
    }
}

/// The JSON string escape of a text.
pub open spec fn spec_json_escape(s: Seq<char>) -> Seq<char>
    decreases s.len(),
{
    if s.len() == 0 {
        Seq::empty()
    } else {
        spec_json_escape(s.drop_last()) + esc_char(s.last())
    }
}

proof fn lemma_escape_plain_run(s: Seq<char>, lo: int, hi: int)
    requires
        0 <= lo <= hi <= s.len(),
        forall|k: int| lo <= k < hi ==> esc_char(#[trigger] s[k]) == seq![s[k]],
    ensures
        spec_json_escape(s.take(hi)) == spec_json_escape(s.take(lo)) + s.subrange(lo, hi),
    decreases hi - lo,
{
    if lo == hi {
        assert(s.subrange(lo, hi) =~= Seq::<char>::empty());
        assert(spec_json_escape(s.take(lo)) + s.subrange(lo, hi) =~= spec_json_escape(s.take(lo)));
    } else {
        lemma_escape_plain_run(s, lo, hi - 1);
        assert(s.take(hi).drop_last() =~= s.take(hi - 1));
        assert(s.take(hi).last() == s[hi - 1]);
        assert(spec_json_escape(s.take(hi)) == spec_json_escape(s.take(hi - 1)) + esc_char(
            s[hi - 1],
        ));
        assert(s.subrange(lo, hi - 1) + seq![s[hi - 1]] =~= s.subrange(lo, hi));
        assert((spec_json_escape(s.take(lo)) + s.subrange(lo, hi - 1)) + seq![s[hi - 1]]
            =~= spec_json_escape(s.take(lo)) + s.subrange(lo, hi));
    }
}

fn hex_char_str(d: u32) -> (r: &'static str)
    requires
        d < 16,
    ensures
        r@ == seq![hex_char(d as int)],
{
    proof {
        reveal_strlit("0");
        reveal_strlit("1");
        reveal_strlit("2");
        reveal_strlit("3");
        reveal_strlit("4");
        reveal_strlit("5");
        reveal_strlit("6");
        reveal_strlit("7");
        reveal_strlit("8");
        reveal_strlit("9");
        reveal_strlit("A");
        reveal_strlit("B");
        reveal_strlit("C");
        reveal_strlit("D");
        reveal_strlit("E");
        reveal_strlit("F");
    }
    let r = if d == 0 { "0" }
    else if d == 1 { "1" }
    else if d == 2 { "2" }
    else if d == 3 { "3" }
    else if d == 4 { "4" }
    else if d == 5 { "5" }
    else if d == 6 { "6" }
    else if d == 7 { "7" }
    else if d == 8 { "8" }
    else if d == 9 { "9" }
    else if d == 10 { "A" }
    else if d == 11 { "B" }
    else if d == 12 { "C" }
    else if d == 13 { "D" }
    else if d == 14 { "E" }
    else { "F" };
    proof {
        assert(r@ =~= seq![hex_char(d as int)]);
    }
    r
}

/// Escapes a text for use inside a JSON string literal.
pub fn json_escape(s: &str) -> (r: String)
    ensures
        r@ == spec_json_escape(s@),
{
    let n = s.unicode_len();
    let mut out = String::new();
    let mut lit: usize = 0;
    let mut i: usize = 0;
    while i < n
        invariant
            n == s@.len(),
            lit <= i <= n,
            forall|k: int| lit <= k < i ==> esc_char(#[trigger] s@[k]) == seq![s@[k]],
            out@ == spec_json_escape(s@.take(lit as int)),
        decreases n - i,
    {
        let c = s.get_char(i);
        let code = c as u32;
        if c == '"' || c == '\\' || code < 32 {
            proof {
                lemma_escape_plain_run(s@, lit as int, i as int);
            }
            let run = s.substring_char(lit, i);
            out.append(run);
            proof {
                assert(out@ =~= spec_json_escape(s@.take(i as int)));
            }
            if c == '"' {
                out.append("\\\"");
                proof {
                    reveal_strlit("\\\"");
                    assert(out@ =~= spec_json_escape(s@.take(i as int)) + esc_char(c));
                }
            } else if c == '\\' {
                out.append("\\\\");
                proof {
                    reveal_strlit("\\\\");
                    assert(out@ =~= spec_json_escape(s@.take(i as int)) + esc_char(c));
                }
            } else {
                out.append("\\u00");
                out.append(hex_char_str(code / 16));
                out.append(hex_char_str(code % 16));
                proof {
                    reveal_strlit("\\u00");
                    assert(out@ =~= spec_json_escape(s@.take(i as int)) + esc_char(c));
                }
            }
            proof {
                assert(s@.take(i + 1).drop_last() =~= s@.take(i as int));
                assert(s@.take(i + 1).last() == s@[i as int]);
                assert(out@ == spec_json_escape(s@.take(i + 1)));
            }
            lit = i + 1;
        }
        i += 1;
    }
    proof {
        lemma_escape_plain_run(s@, lit as int, n as int);
        assert(s@.take(n as int) =~= s@);
    }
    let run = s.substring_char(lit, n);
    out.append(run);
    proof {
        assert(out@ =~= spec_json_escape(s@));
    }
    out
}

/// The acceptance event's payload: a JSON object with the client's
/// address and MAC and the rule's timestamp, all as strings.
pub open spec fn spec_accept_payload(ip: Seq<char>, mac: Seq<char>, ts: int) -> Seq<char> {
    "{\"ip\":\""@ + spec_json_escape(ip) + "\",\"mac\":\""@ + spec_json_escape(mac)
        + "\",\"timestamp\":\""@ + spec_idec(ts) + "\"}"@
}

/// Renders the payload published on the bus after a successful
/// authorization.
pub fn accept_event_payload(ip: &str, mac: &str, timestamp: i64) -> (r: String)
    ensures
        r@ == spec_accept_payload(ip@, mac@, timestamp as int),
{
    let mut out = String::new();
    out.append("{\"ip\":\"");
    let e_ip = json_escape(ip);
    out.append(e_ip.as_str());
    out.append("\",\"mac\":\"");
    let e_mac = json_escape(mac);
    out.append(e_mac.as_str());
    out.append("\",\"timestamp\":\"");
    let ts = i64_to_string(timestamp);
    out.append(ts.as_str());
    out.append("\"}");
    proof {
        assert(out@ =~= spec_accept_payload(ip@, mac@, timestamp as int));
    }
    out
}

} // verus!
