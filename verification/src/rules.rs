//! Firewall ACCEPT-rule codec and expiry sweeping.
//!
//! A rule written by the authorizer has the canonical body
//! `-m mac --mac-source <MAC> -m comment --comment timestamp=<TS> -j ACCEPT`.
//! The firewall lists it back with a `-A <chain> ` prefix and with the
//! comment quoted.  The parser extracts `(mac, timestamp)` from a listed
//! line iff the line holds `--mac-source` followed by one whitespace
//! character and exactly 17 characters of `[A-Fa-f0-9:]`, and a
//! `"timestamp=<digits>"` group whose digits fit a signed 64-bit integer.
use vstd::prelude::*;
use vstd::string::*;

use crate::text::{digits_val, is_digit, spec_idec, spec_udec, i64_to_string, str_eq_at, lemma_udec_digits, lemma_udec_val};

verus! {

pub open spec fn is_mac_char(c: char) -> bool {
    ('0' <= c && c <= '9') || ('a' <= c && c <= 'f') || ('A' <= c && c <= 'F') || c == ':'
}

/// ASCII whitespace, as matched between `--mac-source` and the MAC.
pub open spec fn is_space_char(c: char) -> bool {
    c == ' ' || c == '\t' || c == '\n' || c == '\r' || c == '\u{0b}' || c == '\u{0c}'
}

pub open spec fn mac_tag() -> Seq<char> {
    "--mac-source"@
}

pub open spec fn ts_tag() -> Seq<char> {
    "\"timestamp="@
}

/// The MAC pattern matches at index `i`: the tag, one whitespace
/// character, then 17 characters of the MAC alphabet.
pub open spec fn mac_match_at(s: Seq<char>, i: int) -> bool {
    &&& 0 <= i
    &&& i + 30 <= s.len()
    &&& s.subrange(i, i + 12) == mac_tag()
    &&& is_space_char(s[i + 12])
    &&& forall|j: int| i + 13 <= j < i + 30 ==> is_mac_char(s[j])
}

/// The MAC string captured by a match at `i`.
pub open spec fn mac_capture(s: Seq<char>, i: int) -> Seq<char> {
    s.subrange(i + 13, i + 30)
}

/// Length of the run of decimal digits starting at `j`.
pub open spec fn digit_run(s: Seq<char>, j: int) -> int
    decreases s.len() - j when 0 <= j <= s.len()
{
    if j < s.len() && is_digit(s[j]) {
        1 + digit_run(s, j + 1)
    } else {
        0
    }
}

/// The timestamp pattern matches at index `i`: a double quote, the word
/// `timestamp=`, at least one digit, and a closing double quote right
/// after the digit run.
pub open spec fn ts_match_at(s: Seq<char>, i: int) -> bool {
    &&& 0 <= i
    &&& i + 13 <= s.len()
    &&& s.subrange(i, i + 11) == ts_tag()
    &&& digit_run(s, i + 11) >= 1
    &&& i + 11 + digit_run(s, i + 11) < s.len()
    &&& s[i + 11 + digit_run(s, i + 11)] == '"'
}

/// The digit string captured by a timestamp match at `i`.
pub open spec fn ts_capture(s: Seq<char>, i: int) -> Seq<char> {
    s.subrange(i + 11, i + 11 + digit_run(s, i + 11))
}

/// Index of the leftmost MAC match at or after `i`.
pub open spec fn find_mac_from(s: Seq<char>, i: int) -> Option<int>
    decreases s.len() - i when 0 <= i
{
    if i + 30 > s.len() {
        None
    } else if mac_match_at(s, i) {
        Some(i)
    } else {
        find_mac_from(s, i + 1)
    }
}

/// Index of the leftmost timestamp match at or after `i`.
pub open spec fn find_ts_from(s: Seq<char>, i: int) -> Option<int>
    decreases s.len() - i when 0 <= i
{
    if i + 13 > s.len() {
        None
    } else if ts_match_at(s, i) {
        Some(i)
    } else {
        find_ts_from(s, i + 1)
    }
}

/// What the parser yields on a listed line: the captured MAC and the
/// timestamp value, or nothing when either pattern is missing or the
/// digits overflow a signed 64-bit integer.
pub open spec fn spec_parse(s: Seq<char>) -> Option<(Seq<char>, int)> {
    match find_mac_from(s, 0) {
        Some(mi) => match find_ts_from(s, 0) {
            Some(ti) => {
                let v = digits_val(ts_capture(s, ti));
                if v <= i64::MAX as int {
                    Some((mac_capture(s, mi), v))
                } else {
                    None
                }
            },
            None => None,
        },
        None => None,
    }
}

pub proof fn lemma_find_mac_from(s: Seq<char>, i: int)
    requires
        0 <= i,
    ensures
        match find_mac_from(s, i) {
            Some(m) => i <= m && mac_match_at(s, m) && forall|k: int| i <= k < m ==> !mac_match_at(s, k),
            None => forall|k: int| i <= k ==> !mac_match_at(s, k),
        },
    decreases s.len() - i + 30,
{
    if i + 30 > s.len() {
        assert(forall|k: int| i <= k ==> !mac_match_at(s, k));
    } else if mac_match_at(s, i) {
    } else {
        lemma_find_mac_from(s, i + 1);
    }
}

pub proof fn lemma_find_ts_from(s: Seq<char>, i: int)
    requires
        0 <= i,
    ensures
        match find_ts_from(s, i) {
            Some(m) => i <= m && ts_match_at(s, m) && forall|k: int| i <= k < m ==> !ts_match_at(s, k),
            None => forall|k: int| i <= k ==> !ts_match_at(s, k),
        },
    decreases s.len() - i + 13,
{
    if i + 13 > s.len() {
        assert(forall|k: int| i <= k ==> !ts_match_at(s, k));
    } else if ts_match_at(s, i) {
    } else {
        lemma_find_ts_from(s, i + 1);
    }
}

fn is_mac_char_x(c: char) -> (r: bool)
    ensures
        r == is_mac_char(c),
{
    ('0' <= c && c <= '9') || ('a' <= c && c <= 'f') || ('A' <= c && c <= 'F') || c == ':'
}

pub(crate) fn is_space_char_x(c: char) -> (r: bool)
    ensures
        r == is_space_char(c),
{
    c == ' ' || c == '\t' || c == '\n' || c == '\r' || c == '\u{0b}' || c == '\u{0c}'
}

fn is_digit_x(c: char) -> (r: bool)
    ensures
        r == is_digit(c),
{
    '0' <= c && c <= '9'
}

fn check_mac_at(s: &str, n: usize, i: usize) -> (r: bool)
    requires
        n == s@.len(),
        i + 30 <= n,
    ensures
        r == mac_match_at(s@, i as int),
{
    let tag = "--mac-source";
    proof {
        reveal_strlit("--mac-source");
    }
    if !str_eq_at(s, n, tag, 12, i) {
        return false;
    }
    if !is_space_char_x(s.get_char(i + 12)) {
        return false;
    }
    let mut j: usize = i + 13;
    while j < i + 30
        invariant
            n == s@.len(),
            i + 30 <= n,
            i + 13 <= j <= i + 30,
            forall|k: int| i + 13 <= k < j ==> is_mac_char(s@[k]),
        decreases i + 30 - j,
    {
        if !is_mac_char_x(s.get_char(j)) {
            return false;
        }
        j += 1;
    }
    true
}

fn check_ts_at(s: &str, n: usize, i: usize) -> (r: bool)
    requires
        n == s@.len(),
        i + 13 <= n,
    ensures
        r == ts_match_at(s@, i as int),
{
    let tag = "\"timestamp=";
    proof {
        reveal_strlit("\"timestamp=");
    }
    if !str_eq_at(s, n, tag, 11, i) {
        return false;
    }
    let run = digit_run_len(s, n, i + 11);
    if run == 0 {
        return false;
    }
    if i + 11 + run >= n {
        return false;
    }
    s.get_char(i + 11 + run) == '"'
}

proof fn lemma_digit_run_nonneg(s: Seq<char>, j: int)
    requires
        0 <= j <= s.len(),
    ensures
        digit_run(s, j) >= 0,
    decreases s.len() - j,
{
    if j < s.len() && is_digit(s[j]) {
        lemma_digit_run_nonneg(s, j + 1);
    }
}

fn digit_run_len(s: &str, n: usize, j: usize) -> (r: usize)
    requires
        n == s@.len(),
        j <= n,
    ensures
        r == digit_run(s@, j as int),
        j + r <= n,
        forall|t: int| j <= t < j + r ==> is_digit(s@[t]),
        j + r < n ==> !is_digit(s@[j + r]),
{
    let mut k: usize = j;
    let mut done = false;
    while !done && k < n
        invariant
            n == s@.len(),
            j <= k <= n,
            digit_run(s@, j as int) == (k - j) + digit_run(s@, k as int),
            forall|t: int| j <= t < k ==> is_digit(s@[t]),
            done ==> digit_run(s@, k as int) == 0,
        decreases n - k + (if done { 0int } else { 1int }),
    {
        if is_digit_x(s.get_char(k)) {
            k += 1;
        } else {
            done = true;
        }
    }
    proof {
        assert(digit_run(s@, k as int) == 0);
        if (k as int) < s@.len() && is_digit(s@[k as int]) {
            lemma_digit_run_nonneg(s@, k + 1);
        }
    }
    k - j
}

fn find_mac(s: &str, n: usize) -> (r: Option<usize>)
    requires
        n == s@.len(),
    ensures
        match r {
            Some(i) => find_mac_from(s@, 0) == Some(i as int),
            None => find_mac_from(s@, 0) is None,
        },
{
    if n < 30 {
        return None;
    }
    let mut i: usize = 0;
    while i <= n - 30
        invariant
            n == s@.len(),
            30 <= n,
            i <= n - 29,
            find_mac_from(s@, 0) == find_mac_from(s@, i as int),
        decreases n - i,
    {
        if check_mac_at(s, n, i) {
            return Some(i);
        }
        i += 1;
    }
    None
}

fn find_ts(s: &str, n: usize) -> (r: Option<usize>)
    requires
        n == s@.len(),
    ensures
        match r {
            Some(i) => find_ts_from(s@, 0) == Some(i as int),
            None => find_ts_from(s@, 0) is None,
        },
{
    if n < 13 {
        return None;
    }
    let mut i: usize = 0;
    while i <= n - 13
        invariant
            n == s@.len(),
            13 <= n,
            i <= n - 12,
            find_ts_from(s@, 0) == find_ts_from(s@, i as int),
        decreases n - i,
    {
        if check_ts_at(s, n, i) {
            return Some(i);
        }
        i += 1;
    }
    None
}

proof fn lemma_digits_val_nonneg(s: Seq<char>)
    requires
        forall|t: int| 0 <= t < s.len() ==> is_digit(s[t]),
    ensures
        digits_val(s) >= 0,
    decreases s.len(),
{
    if s.len() > 0 {
        lemma_digits_val_nonneg(s.drop_last());
    }
}

proof fn lemma_digits_val_prefix(s: Seq<char>, m: int)
    requires
        forall|t: int| 0 <= t < s.len() ==> is_digit(s[t]),
        0 <= m <= s.len(),
    ensures
        digits_val(s.take(m)) <= digits_val(s),
    decreases s.len(),
{
    if m == s.len() {
        assert(s.take(m) =~= s);
    } else {
        assert(s.take(m) =~= s.drop_last().take(m));
        lemma_digits_val_prefix(s.drop_last(), m);
        lemma_digits_val_nonneg(s.drop_last());
    }
}

/// Reads a digit run as a `u64` no larger than `bound`, or reports that
/// its value lies above `bound`.
fn digits_to_u64(s: &str, n: usize, j: usize, k: usize, bound: u64) -> (r: Option<u64>)
    requires
        n == s@.len(),
        j + k <= n,
        forall|t: int| j <= t < j + k ==> is_digit(s@[t]),
    ensures
        match r {
            Some(v) => v <= bound && v as int == digits_val(s@.subrange(j as int, j + k)),
            None => digits_val(s@.subrange(j as int, j + k)) > bound as int,
        },
{
    let ghost whole: Seq<char> = s@.subrange(j as int, j + k);
    proof {
        assert(forall|t: int| 0 <= t < whole.len() ==> is_digit(whole[t]));
    }
    let mut acc: u64 = 0;
    let mut t: usize = j;
    while t < j + k
        invariant
            n == s@.len(),
            j + k <= n,
            j <= t <= j + k,
            forall|tt: int| j <= tt < j + k ==> is_digit(s@[tt]),
            whole == s@.subrange(j as int, j + k),
            acc <= bound,
            acc as int == digits_val(s@.subrange(j as int, t as int)),
        decreases j + k - t,
    {
        let c = s.get_char(t);
        let d: u64 = ((c as u32) - ('0' as u32)) as u64;
        proof {
            assert(is_digit(s@[t as int]));
            assert(d <= 9);
        }
        if d > bound || acc > (bound - d) / 10 {
            proof {
                let pre = s@.subrange(j as int, t + 1);
                assert(pre.drop_last() =~= s@.subrange(j as int, t as int));
                assert(pre.last() == s@[t as int]);
                assert(digits_val(pre) == acc as int * 10 + d as int);
                if d > bound {
                    assert(acc as int * 10 >= 0) by (nonlinear_arith)
                        requires
                            0 <= acc,
                    ;
                } else {
                    assert(acc as int * 10 + d as int > bound as int) by (nonlinear_arith)
                        requires
                            acc as int > (bound as int - d as int) / 10,
                            0 <= d <= 9,
                            0 <= acc,
                            d as int <= bound as int,
                    ;
                }
                assert(whole.take((t + 1 - j) as int) =~= pre);
                lemma_digits_val_prefix(whole, t + 1 - j);
            }
            return None;
        }
        proof {
            assert(acc as int * 10 + d as int <= bound as int) by (nonlinear_arith)
                requires
                    acc as int <= (bound as int - d as int) / 10,
                    0 <= d <= 9,
                    0 <= acc,
                    d as int <= bound as int,
            ;
            let pre = s@.subrange(j as int, t + 1);
            assert(pre.drop_last() =~= s@.subrange(j as int, t as int));
            assert(pre.last() == s@[t as int]);
        }
        acc = acc * 10 + d;
        t += 1;
    }
    Some(acc)
}

/// A decoded ACCEPT rule: the MAC the rule matches and the moment, in
/// seconds since the epoch, at which it was written.
#[derive(Debug)]
pub struct Rule {
    pub mac_source: String,
    pub timestamp: i64,
}

impl View for Rule {
    type V = (Seq<char>, int);

    open spec fn view(&self) -> (Seq<char>, int) {
        (self.mac_source@, self.timestamp as int)
    }
}

impl PartialEq for Rule {
    fn eq(&self, other: &Rule) -> (r: bool) {
        self.mac_source == other.mac_source && self.timestamp == other.timestamp
    }
}

impl vstd::std_specs::cmp::PartialEqSpecImpl for Rule {
    open spec fn obeys_eq_spec() -> bool {
        true
    }

    open spec fn eq_spec(&self, other: &Rule) -> bool {
        self.mac_source@ == other.mac_source@ && self.timestamp == other.timestamp
    }
}

/// The canonical body the authorizer appends and the sweeper deletes.
pub open spec fn spec_encode(mac: Seq<char>, ts: int) -> Seq<char> {
    "-m mac --mac-source "@ + mac + " -m comment --comment timestamp="@ + spec_idec(ts) + " -j ACCEPT"@
}

impl Rule {
    /// Decodes a listed chain line, as the two rule patterns accept it.
    pub fn parse(rule: &str) -> (r: Option<Rule>)
        ensures
            match r {
                Some(rr) => spec_parse(rule@) == Some(rr@),
                None => spec_parse(rule@) is None,
            },
    {
        let n = rule.unicode_len();
        let mi = match find_mac(rule, n) {
            Some(i) => i,
            None => {
                return None;
            },
        };
        proof {
            lemma_find_mac_from(rule@, 0);
        }
        let ti = match find_ts(rule, n) {
            Some(i) => i,
            None => {
                return None;
            },
        };
        proof {
            lemma_find_ts_from(rule@, 0);
        }
        let run = digit_run_len(rule, n, ti + 11);
        let v: i64 = match digits_to_u64(rule, n, ti + 11, run, i64::MAX as u64) {
            Some(v) => v as i64,
            None => {
                return None;
            },
        };
        let mac = rule.substring_char(mi + 13, mi + 30).to_owned();
        Some(Rule { mac_source: mac, timestamp: v })
    }

    /// Renders the canonical rule body for this MAC and timestamp.
    pub fn to_string(&self) -> (r: String)
        ensures
            r@ == spec_encode(self.mac_source@, self.timestamp as int),
    {
        let mut s = String::new();
        s.append("-m mac --mac-source ");
        s.append(self.mac_source.as_str());
        s.append(" -m comment --comment timestamp=");
        let ts = i64_to_string(self.timestamp);
        s.append(ts.as_str());
        s.append(" -j ACCEPT");
        proof {
            assert(s@ =~= spec_encode(self.mac_source@, self.timestamp as int));
        }
        s
    }

    /// The rule is expired `valid_secs` after its timestamp.
    pub fn is_expired(&self, valid_secs: i64, now: i64) -> (r: bool)
        ensures
            r == spec_expired(self.timestamp as int, valid_secs as int, now as int),
    {
        (self.timestamp as i128) + (valid_secs as i128) < (now as i128)
    }
}

/// A rule written at `ts` is expired under window `valid` at `now`.
pub open spec fn spec_expired(ts: int, valid: int, now: int) -> bool {
    ts + valid < now
}

pub open spec fn all_digits(s: Seq<char>) -> bool {
    forall|t: int| 0 <= t < s.len() ==> is_digit(s[t])
}

/// The value of `s` read as an optionally signed decimal `i64`, as
/// `str::parse::<i64>` reads it: an optional single `+` or `-`, then at
/// least one digit and nothing else, within the `i64` range.
pub open spec fn spec_parse_i64(s: Seq<char>) -> Option<int> {
    if s.len() >= 1 && (s[0] == '+' || s[0] == '-') {
        let mag = s.subrange(1, s.len() as int);
        if mag.len() >= 1 && all_digits(mag) {
            let v = if s[0] == '-' {
                -digits_val(mag)
            } else {
                digits_val(mag)
            };
            if i64::MIN as int <= v <= i64::MAX as int {
                Some(v)
            } else {
                None
            }
        } else {
            None
        }
    } else if s.len() >= 1 && all_digits(s) {
        if digits_val(s) <= i64::MAX as int {
            Some(digits_val(s))
        } else {
            None
        }
    } else {
        None
    }
}

/// Reads a whole string as a signed decimal `i64`.
pub fn parse_i64(s: &str) -> (r: Option<i64>)
    ensures
        match r {
            Some(v) => spec_parse_i64(s@) == Some(v as int),
            None => spec_parse_i64(s@) is None,
        },
{
    let n = s.unicode_len();
    if n == 0 {
        return None;
    }
    let c0 = s.get_char(0);
    let signed = c0 == '+' || c0 == '-';
    let start: usize = if signed { 1 } else { 0 };
    let run = digit_run_len(s, n, start);
    if run == 0 || start + run < n {
        proof {
            if start + run < n {
                assert(!is_digit(s@[start + run]));
                if signed {
                    let mag = s@.subrange(1, n as int);
                    assert(!is_digit(mag[start + run - 1]));
                } else {
                    assert(!all_digits(s@));
                }
            }
        }
        return None;
    }
    if c0 == '-' {
        let mag = match digits_to_u64(s, n, 1, n - 1, 9223372036854775808u64) {
            Some(m) => m,
            None => {
                proof {
                    assert(s@.subrange(1, n as int) =~= s@.subrange(1, 1 + (n - 1)));
                }
                return None;
            },
        };
        proof {
            assert(s@.subrange(1, n as int) =~= s@.subrange(1, 1 + (n - 1)));
        }
        if mag == 9223372036854775808u64 {
            Some(i64::MIN)
        } else {
            Some(-(mag as i64))
        }
    } else if c0 == '+' {
        let v = match digits_to_u64(s, n, 1, n - 1, i64::MAX as u64) {
            Some(m) => m as i64,
            None => {
                proof {
                    assert(s@.subrange(1, n as int) =~= s@.subrange(1, 1 + (n - 1)));
                }
                return None;
            },
        };
        proof {
            assert(s@.subrange(1, n as int) =~= s@.subrange(1, 1 + (n - 1)));
        }
        Some(v)
    } else {
        let v = match digits_to_u64(s, n, 0, n, i64::MAX as u64) {
            Some(m) => m as i64,
            None => {
                proof {
                    assert(s@.subrange(0, n as int) =~= s@);
                }
                return None;
            },
        };
        proof {
            assert(s@.subrange(0, n as int) =~= s@);
        }
        Some(v)
    }
}

/// The sweeper's expiry window in seconds: the configured number when
/// the configuration text parses as a decimal integer, else 24 hours.
pub open spec fn spec_valid_time(text: Option<Seq<char>>) -> int {
    match text {
        Some(t) => match spec_parse_i64(t) {
            Some(v) => v,
            None => 86400,
        },
        None => 86400,
    }
}

/// Interprets the sweeper's configuration text, defaulting to 24 hours.
pub fn valid_time_from_config(text: Option<&str>) -> (r: i64)
    ensures
        r as int == spec_valid_time(
            match text {
                Some(t) => Some(t@),
                None => None,
            },
        ),
{
    match text {
        Some(t) => match parse_i64(t) {
            Some(v) => v,
            None => 86400,
        },
        None => 86400,
    }
}

/// The bodies the sweeper deletes: for every listed line that decodes to
/// `(mac, ts)` with `ts` expired, the re-encoded canonical body, in
/// listing order.
pub open spec fn spec_sweep(lines: Seq<Seq<char>>, valid: int, now: int) -> Seq<Seq<char>>
    decreases lines.len(),
{
    if lines.len() == 0 {
        Seq::empty()
    } else {
        let rest = spec_sweep(lines.drop_last(), valid, now);
        match line_target(lines.last(), valid, now) {
            Some(b) => rest.push(b),
            None => rest,
        }
    }
}

/// What the sweeper owes one listed line: the re-encoded canonical body
/// when the line decodes to an expired rule, nothing otherwise.
pub open spec fn line_target(l: Seq<char>, valid: int, now: int) -> Option<Seq<char>> {
    match spec_parse(l) {
        Some(p) => if spec_expired(p.1, valid, now) {
            Some(spec_encode(p.0, p.1))
        } else {
            None
        },
        None => None,
    }
}

/// Decides which listed rules the sweeper must delete.
pub fn sweep_targets(lines: &Vec<String>, valid_secs: i64, now: i64) -> (r: Vec<String>)
    ensures
        r.deep_view() == spec_sweep(lines.deep_view(), valid_secs as int, now as int),
{
    let mut out: Vec<String> = Vec::new();
    let mut idx: usize = 0;
    proof {
        assert(lines.deep_view().take(0) =~= Seq::<Seq<char>>::empty());
    }
    while idx < lines.len()
        invariant
            idx <= lines.len(),
            out.deep_view() == spec_sweep(lines.deep_view().take(idx as int), valid_secs as int, now as int),
        decreases lines.len() - idx,
    {
        let ghost prefix = lines.deep_view().take(idx as int);
        let ghost next = lines.deep_view().take(idx + 1);
        proof {
            assert(next.drop_last() =~= prefix);
            assert(next.last() == lines.deep_view()[idx as int]);
        }
        match Rule::parse(lines[idx].as_str()) {
            Some(rule) => {
                if rule.is_expired(valid_secs, now) {
                    let body = rule.to_string();
                    out.push(body);
                }
            },
            None => {},
        }
        proof {
            assert(out.deep_view() =~= spec_sweep(next, valid_secs as int, now as int));
        }
        idx += 1;
    }
    proof {
        assert(lines.deep_view().take(lines@.len() as int) =~= lines.deep_view());
    }
    out
}

/// The sweeper deletes a body iff some listed line decodes to an expired
/// rule that re-encodes to that body.  In particular every deleted body
/// stems from a line the parser accepted: a line it does not accept, or
/// one whose timestamp is not yet expired, contributes nothing.
pub proof fn lemma_sweep_exact(lines: Seq<Seq<char>>, valid: int, now: int)
    ensures
        forall|b: Seq<char>|
            #[trigger] spec_sweep(lines, valid, now).contains(b) <==> exists|l: int|
                0 <= l < lines.len() && line_target(#[trigger] lines[l], valid, now) == Some(b),
    decreases lines.len(),
{
    let sw = spec_sweep(lines, valid, now);
    if lines.len() == 0 {
        assert forall|b: Seq<char>| #[trigger] sw.contains(b) implies false by {
        }
    } else {
        let pre = lines.drop_last();
        let swp = spec_sweep(pre, valid, now);
        lemma_sweep_exact(pre, valid, now);
        assert forall|b: Seq<char>| #[trigger] sw.contains(b) implies exists|l: int|
            0 <= l < lines.len() && line_target(#[trigger] lines[l], valid, now) == Some(b) by {
            match line_target(lines.last(), valid, now) {
                Some(t) => {
                    if b == t {
                        assert(lines[lines.len() - 1] == lines.last());
                        assert(line_target(lines[lines.len() - 1], valid, now) == Some(b));
                    } else {
                        let i = choose|i: int| 0 <= i < sw.len() && sw[i] == b;
                        assert(swp[i] == b);
                        assert(swp.contains(b));
                        let l = choose|l: int|
                            0 <= l < pre.len() && line_target(pre[l], valid, now) == Some(b);
                        assert(lines[l] == pre[l]);
                        assert(line_target(lines[l], valid, now) == Some(b));
                    }
                },
                None => {
                    assert(swp.contains(b));
                    let l = choose|l: int|
                        0 <= l < pre.len() && line_target(pre[l], valid, now) == Some(b);
                    assert(lines[l] == pre[l]);
                    assert(line_target(lines[l], valid, now) == Some(b));
                },
            }
        }
        assert forall|b: Seq<char>|
            (exists|l: int| 0 <= l < lines.len() && line_target(#[trigger] lines[l], valid, now)
                == Some(b)) implies sw.contains(b) by {
            let l = choose|l: int|
                0 <= l < lines.len() && line_target(lines[l], valid, now) == Some(b);
            if l == lines.len() - 1 {
                match line_target(lines.last(), valid, now) {
                    Some(t) => {
                        assert(sw == swp.push(t));
                        assert(sw[swp.len() as int] == b);
                        assert(sw.contains(b));
                    },
                    None => {
                        assert(false);
                    },
                }
            } else {
                assert(pre[l] == lines[l]);
                assert(swp.contains(b));
                let i = choose|i: int| 0 <= i < swp.len() && swp[i] == b;
                match line_target(lines.last(), valid, now) {
                    Some(t) => {
                        assert(sw == swp.push(t));
                        assert(sw[i] == b);
                    },
                    None => {
                        assert(sw == swp);
                    },
                }
                assert(sw.contains(b));
            }
        }
    }
}

/// A decoded MAC is always exactly 17 characters.
pub proof fn lemma_parse_mac_len(s: Seq<char>)
    ensures
        spec_parse(s) matches Some(p) ==> p.0.len() == 17,
{
    if spec_parse(s) is Some {
        lemma_find_mac_from(s, 0);
    }
}

proof fn lemma_udec_injective(n1: nat, n2: nat)
    requires
        spec_udec(n1) == spec_udec(n2),
    ensures
        n1 == n2,
{
    lemma_udec_val(n1);
    lemma_udec_val(n2);
}

proof fn lemma_idec_injective(t1: int, t2: int)
    requires
        spec_idec(t1) == spec_idec(t2),
    ensures
        t1 == t2,
{
    if t1 < 0 && t2 < 0 {
        assert(spec_idec(t1).skip(1) =~= spec_udec((-t1) as nat));
        assert(spec_idec(t2).skip(1) =~= spec_udec((-t2) as nat));
        lemma_udec_injective((-t1) as nat, (-t2) as nat);
    } else if t1 >= 0 && t2 >= 0 {
        lemma_udec_injective(t1 as nat, t2 as nat);
    } else if t1 < 0 {
        lemma_udec_digits((-t1) as nat);
        lemma_udec_digits(t2 as nat);
        assert(spec_idec(t1)[0] == '-');
        assert(is_digit(spec_idec(t2)[0]));
        assert(false);
    } else {
        lemma_udec_digits(t1 as nat);
        lemma_udec_digits((-t2) as nat);
        assert(spec_idec(t2)[0] == '-');
        assert(is_digit(spec_idec(t1)[0]));
        assert(false);
    }
}

/// Two canonical bodies agree only for the same MAC and timestamp.
pub proof fn lemma_encode_injective(m1: Seq<char>, t1: int, m2: Seq<char>, t2: int)
    requires
        m1.len() == 17,
        m2.len() == 17,
        spec_encode(m1, t1) == spec_encode(m2, t2),
    ensures
        m1 == m2,
        t1 == t2,
{
    reveal_strlit("-m mac --mac-source ");
    reveal_strlit(" -m comment --comment timestamp=");
    reveal_strlit(" -j ACCEPT");
    let e = spec_encode(m1, t1);
    let d1 = spec_idec(t1);
    let d2 = spec_idec(t2);
    assert(e.len() == 79 + d1.len());
    assert(e.len() == 79 + d2.len());
    assert(m1 =~= e.subrange(20, 37));
    assert(m2 =~= e.subrange(20, 37));
    assert(d1 =~= e.subrange(69, e.len() - 10));
    assert(d2 =~= e.subrange(69, e.len() - 10));
    lemma_idec_injective(t1, t2);
}

/// A listed rule whose timestamp is not yet expired is preserved: its
/// re-encoded body is not among the bodies the sweeper deletes.
pub proof fn lemma_sweep_preserves(lines: Seq<Seq<char>>, valid: int, now: int, l: int)
    requires
        0 <= l < lines.len(),
        spec_parse(lines[l]) is Some,
        !spec_expired(spec_parse(lines[l])->Some_0.1, valid, now),
    ensures
        !spec_sweep(lines, valid, now).contains(
            spec_encode(spec_parse(lines[l])->Some_0.0, spec_parse(lines[l])->Some_0.1),
        ),
{
    let p = spec_parse(lines[l])->Some_0;
    let b = spec_encode(p.0, p.1);
    lemma_sweep_exact(lines, valid, now);
    if spec_sweep(lines, valid, now).contains(b) {
        let lx = choose|lx: int|
            0 <= lx < lines.len() && line_target(lines[lx], valid, now) == Some(b);
        let px = spec_parse(lines[lx])->Some_0;
        lemma_parse_mac_len(lines[lx]);
        lemma_parse_mac_len(lines[l]);
        lemma_encode_injective(px.0, px.1, p.0, p.1);
        assert(false);
    }
}

/// A syntactically valid MAC capture: 17 characters of `[A-Fa-f0-9:]`.
pub open spec fn valid_mac(mac: Seq<char>) -> bool {
    mac.len() == 17 && forall|j: int| 0 <= j < 17 ==> is_mac_char(#[trigger] mac[j])
}

/// The firewall's listing of a canonical rule: the chain prefix, then
/// the appended body with the comment quoted.
pub open spec fn spec_listing(mac: Seq<char>, ts: int) -> Seq<char> {
    "-A prerouting_public_rule -m mac --mac-source "@ + mac
        + " -m comment --comment \"timestamp="@ + spec_udec(ts as nat) + "\" -j ACCEPT"@
}

proof fn lemma_digit_run_exact(s: Seq<char>, j: int, k: int)
    requires
        0 <= j,
        0 <= k,
        j + k <= s.len(),
        forall|t: int| j <= t < j + k ==> is_digit(s[t]),
        j + k == s.len() || !is_digit(s[j + k]),
    ensures
        digit_run(s, j) == k,
    decreases k,
{
    if k > 0 {
        lemma_digit_run_exact(s, j + 1, k - 1);
    }
}

/// Round trip: a rule appended with a valid MAC and a nonnegative
/// timestamp is decoded from the firewall's listing of it as exactly
/// that MAC and timestamp.
pub proof fn lemma_parse_of_listing(mac: Seq<char>, ts: i64)
    requires
        valid_mac(mac),
        0 <= ts,
    ensures
        spec_parse(spec_listing(mac, ts as int)) == Some((mac, ts as int)),
{
    reveal_strlit("-A prerouting_public_rule -m mac --mac-source ");
    reveal_strlit(" -m comment --comment \"timestamp=");
    reveal_strlit("\" -j ACCEPT");
    reveal_strlit("--mac-source");
    reveal_strlit("\"timestamp=");
    let p = "-A prerouting_public_rule -m mac --mac-source "@;
    let mid = " -m comment --comment \"timestamp="@;
    let suf = "\" -j ACCEPT"@;
    let d = spec_udec(ts as nat);
    let dl = d.len() as int;
    let s = spec_listing(mac, ts as int);
    lemma_udec_digits(ts as nat);
    lemma_udec_val(ts as nat);
    assert(p.len() == 46);
    assert(mid.len() == 33);
    assert(suf.len() == 11);
    assert(s.len() == 107 + dl);
    assert(forall|i: int| 0 <= i < 46 ==> s[i] == p[i]);
    assert(forall|i: int| 46 <= i < 63 ==> s[i] == mac[i - 46]);
    assert(forall|i: int| 63 <= i < 96 ==> s[i] == mid[i - 63]);
    assert(forall|i: int| 96 <= i < 96 + dl ==> s[i] == d[i - 96]);
    assert(forall|i: int| 96 + dl <= i < s.len() ==> s[i] == suf[i - 96 - dl]);
    // The MAC pattern matches at 33 and nowhere earlier.
    assert(s.subrange(33, 45) =~= mac_tag());
    assert(is_space_char(s[45]));
    assert(mac_match_at(s, 33));
    assert forall|i: int| 0 <= i < 33 implies !mac_match_at(s, i) by {
        if mac_match_at(s, i) {
            assert(s.subrange(i, i + 12)[0] == s[i]);
            assert(s.subrange(i, i + 12)[1] == s[i + 1]);
            assert(s[i] == '-' && s[i + 1] == '-');
            assert(false);
        }
    }
    lemma_find_mac_from(s, 0);
    match find_mac_from(s, 0) {
        Some(m) => {
            if m < 33 {
                assert(false);
            } else if m > 33 {
                assert(!mac_match_at(s, 33));
                assert(false);
            }
        },
        None => {
            assert(!mac_match_at(s, 33));
            assert(false);
        },
    }
    assert(find_mac_from(s, 0) == Some(33int));
    assert(mac_capture(s, 33) =~= mac);
    // The timestamp pattern matches at 85 and nowhere earlier.
    assert(s.subrange(85, 96) =~= ts_tag());
    lemma_digit_run_exact(s, 96, dl);
    assert(s[96 + dl] == '"');
    assert(ts_match_at(s, 85));
    assert forall|i: int| 0 <= i < 85 implies !ts_match_at(s, i) by {
        if ts_match_at(s, i) {
            assert(s.subrange(i, i + 11)[0] == s[i]);
            assert(s[i] == '"');
            if 46 <= i < 63 {
                assert(is_mac_char(mac[i - 46]));
            }
            assert(false);
        }
    }
    lemma_find_ts_from(s, 0);
    match find_ts_from(s, 0) {
        Some(m) => {
            if m < 85 {
                assert(false);
            } else if m > 85 {
                assert(!ts_match_at(s, 85));
                assert(false);
            }
        },
        None => {
            assert(!ts_match_at(s, 85));
            assert(false);
        },
    }
    assert(find_ts_from(s, 0) == Some(85int));
    assert(ts_capture(s, 85) =~= d);
    assert(digits_val(ts_capture(s, 85)) == ts as int);
    assert(mac_capture(s, 33) == mac);
}

proof fn lemma_filter_keeps_all(s: Seq<char>)
    requires
        forall|i: int| 0 <= i < s.len() ==> s[i] != '"',
    ensures
        s.filter(|c: char| c != '"') == s,
    decreases s.len(),
{
    reveal(Seq::filter);
    if s.len() > 0 {
        lemma_filter_keeps_all(s.drop_last());
        assert(s.drop_last().push(s.last()) =~= s);
    }
}

proof fn lemma_filter_quote_then(s: Seq<char>)
    requires
        s.len() >= 1,
        s[0] == '"',
        forall|i: int| 1 <= i < s.len() ==> s[i] != '"',
    ensures
        s.filter(|c: char| c != '"') == s.skip(1),
    decreases s.len(),
{
    reveal_with_fuel(Seq::filter, 2);
    if s.len() == 1 {
        assert(s.drop_last() =~= Seq::<char>::empty());
        assert(s.skip(1) =~= Seq::<char>::empty());
        assert(Seq::<char>::empty().filter(|c: char| c != '"') == Seq::<char>::empty());
    } else {
        lemma_filter_quote_then(s.drop_last());
        assert(s.drop_last().skip(1).push(s.last()) =~= s.skip(1));
    }
}

/// Stripping the chain prefix from the listing of a canonical rule and
/// dropping the quotes the listing adds around the comment yields
/// exactly the body that encoding the decoded pair produces.
pub proof fn lemma_encode_of_parsed_listing(mac: Seq<char>, ts: i64)
    requires
        valid_mac(mac),
        0 <= ts,
    ensures
        spec_parse(spec_listing(mac, ts as int)) == Some((mac, ts as int)),
        spec_listing(mac, ts as int).skip(26).filter(|c: char| c != '"') == spec_encode(
            mac,
            ts as int,
        ),
{
    lemma_parse_of_listing(mac, ts);
    reveal_strlit("-A prerouting_public_rule -m mac --mac-source ");
    reveal_strlit(" -m comment --comment \"timestamp=");
    reveal_strlit("\" -j ACCEPT");
    reveal_strlit("-m mac --mac-source ");
    reveal_strlit(" -m comment --comment timestamp=");
    reveal_strlit(" -j ACCEPT");
    let e1 = "-m mac --mac-source "@;
    let mid = " -m comment --comment \"timestamp="@;
    let emid = " -m comment --comment timestamp="@;
    let suf = "\" -j ACCEPT"@;
    let esuf = " -j ACCEPT"@;
    let d = spec_udec(ts as nat);
    let s = spec_listing(mac, ts as int);
    lemma_udec_digits(ts as nat);
    let pred = |c: char| c != '"';
    assert(s.skip(26) =~= e1 + mac + mid + d + suf);
    broadcast use vstd::seq_lib::group_seq_lib_default;

    assert((e1 + mac + mid + d + suf).filter(pred) == (e1 + mac + mid + d).filter(pred)
        + suf.filter(pred)) by {
        Seq::filter_distributes_over_add(e1 + mac + mid + d, suf, pred);
    }
    assert((e1 + mac + mid + d).filter(pred) == (e1 + mac + mid).filter(pred) + d.filter(pred))
        by {
        Seq::filter_distributes_over_add(e1 + mac + mid, d, pred);
    }
    assert((e1 + mac + mid).filter(pred) == (e1 + mac).filter(pred) + mid.filter(pred)) by {
        Seq::filter_distributes_over_add(e1 + mac, mid, pred);
    }
    assert((e1 + mac).filter(pred) == e1.filter(pred) + mac.filter(pred)) by {
        Seq::filter_distributes_over_add(e1, mac, pred);
    }
    assert(e1.filter(pred) == e1) by {
        lemma_filter_keeps_all(e1);
    }
    assert(mac.filter(pred) == mac) by {
        lemma_filter_keeps_all(mac);
    }
    assert(d.filter(pred) == d) by {
        lemma_filter_keeps_all(d);
    }
    assert(suf.filter(pred) == esuf) by {
        lemma_filter_quote_then(suf);
        assert(suf.skip(1) =~= esuf);
    }
    assert(mid.filter(pred) == emid) by {
        let mid_a = mid.subrange(0, 22);
        let mid_b = mid.subrange(22, 33);
        assert(mid =~= mid_a + mid_b);
        Seq::filter_distributes_over_add(mid_a, mid_b, pred);
        lemma_filter_keeps_all(mid_a);
        lemma_filter_quote_then(mid_b);
        assert(mid_a + mid_b.skip(1) =~= emid);
    }
    assert(e1 + mac + emid + d + esuf =~= spec_encode(mac, ts as int));
}

/// The blanket body installed when the interceptor cannot run safely.
pub fn bypass_rule_body() -> (r: String)
    ensures
        r@ == "-j ACCEPT -m comment --comment timestamp=0"@,
{
    "-j ACCEPT -m comment --comment timestamp=0".to_owned()
}

} // verus!
