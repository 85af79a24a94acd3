//! Turning a rule into a concrete `host:port` destination, and telling
//! whether a destination has that form.

use vstd::prelude::*;
use vstd::string::*;
use crate::egress::EgressRule;
use crate::text::{contains_seq, contains_str, replace_seq, replace_str, str_eq};

verus! {

/// Template token that stands for the deployment region.
pub const REGION_TOKEN: &'static str = "{region}";

/// A rule whose name holds this, and whose destination is the wildcard,
/// targets the cluster's control plane.
pub const API_SERVER_MARKER: &'static str = "api-server";

/// The wildcard destination.
pub const WILDCARD: &'static str = "*";

/// Largest port number.
pub const MAX_PORT: u32 = 65535;

/// The host part of a rule's destination: the control-plane address for a
/// wildcard api-server rule, else the template with every `{region}` filled in.
pub open spec fn destination_host(rule: EgressRule, ccp: Seq<char>, region: Seq<char>) -> Seq<char> {
    if rule.dst@ == WILDCARD@ && contains_seq(rule.name@, API_SERVER_MARKER@) {
        ccp
    } else {
        replace_seq(rule.dst@, REGION_TOKEN@, region)
    }
}

/// A rule's destination: its host, a colon, and its port.
pub open spec fn destination(rule: EgressRule, ccp: Seq<char>, region: Seq<char>) -> Seq<char> {
    destination_host(rule, ccp, region) + seq![':'] + rule.port@
}

/// Resolves the destination of `rule` for control-plane address `ccp` and
/// deployment region `vm_region`.
pub fn build_conn_string(rule: &EgressRule, ccp: &str, vm_region: &str) -> (r: String)
    ensures
        r@ == destination(*rule, ccp@, vm_region@),
{
    let mut conn_string = if str_eq(rule.dst.as_str(), WILDCARD) && contains_str(
        rule.name.as_str(),
        API_SERVER_MARKER,
    ) {
        ccp.to_owned()
    } else {
        proof {
            reveal_strlit("{region}");
        }
        replace_str(rule.dst.as_str(), REGION_TOKEN, vm_region)
    };
    conn_string.append(":");
    conn_string.append(rule.port.as_str());
    proof {
        reveal_strlit(":");
    }
    conn_string
}

pub open spec fn is_digit(c: char) -> bool {
    '0' <= c && c <= '9'
}

pub open spec fn all_digits(s: Seq<char>) -> bool {
    forall|i: int| 0 <= i < s.len() ==> is_digit(#[trigger] s[i])
}

/// The number that a string of decimal digits writes.
pub open spec fn digits_value(s: Seq<char>) -> int
    decreases s.len(),
{
    if s.len() == 0 {
        0
    } else {
        digits_value(s.drop_last()) * 10 + (s.last() as int - '0' as int)
    }
}

/// A port: one or more decimal digits, at most `MAX_PORT`.
pub open spec fn is_port(s: Seq<char>) -> bool {
    s.len() > 0 && all_digits(s) && digits_value(s) <= MAX_PORT
}

pub open spec fn is_alnum(c: char) -> bool {
    is_digit(c) || ('a' <= c && c <= 'z') || ('A' <= c && c <= 'Z')
}

pub open spec fn is_label_char(c: char) -> bool {
    is_alnum(c) || c == '-'
}

/// A host name or IPv4 literal: non-empty labels of letters, digits and
/// hyphens, separated by single dots.
pub open spec fn is_host_name(h: Seq<char>) -> bool {
    &&& h.len() > 0
    &&& forall|i: int| 0 <= i < h.len() ==> #[trigger] h[i] == '.' || is_label_char(h[i])
    &&& h[0] != '.'
    &&& h[h.len() - 1] != '.'
    &&& forall|i: int| 0 <= i < h.len() - 1 ==> !(#[trigger] h[i] == '.' && h[i + 1] == '.')
}

pub open spec fn is_hex(c: char) -> bool {
    is_digit(c) || ('a' <= c && c <= 'f') || ('A' <= c && c <= 'F')
}

/// `::` begins at position `i` of `b`.
pub open spec fn double_colon_at(b: Seq<char>, i: int) -> bool {
    0 <= i && i + 1 < b.len() && b[i] == ':' && b[i + 1] == ':'
}

/// A group of hexadecimal digits begins at position `i` of `b`.
pub open spec fn group_start_at(b: Seq<char>, i: int) -> bool {
    0 <= i < b.len() && is_hex(b[i]) && (i == 0 || b[i - 1] == ':')
}

/// The number of groups of hexadecimal digits in `b`.
pub open spec fn group_count(b: Seq<char>) -> nat
    decreases b.len(),
{
    if b.len() == 0 {
        0
    } else {
        group_count(b.drop_last()) + if group_start_at(b, b.len() - 1) {
            1nat
        } else {
            0nat
        }
    }
}

/// Five hexadecimal digits in a row begin at position `i` of `b`.
pub open spec fn five_hex_at(b: Seq<char>, i: int) -> bool {
    0 <= i && i + 4 < b.len() && is_hex(b[i]) && is_hex(b[i + 1]) && is_hex(b[i + 2]) && is_hex(
        b[i + 3],
    ) && is_hex(b[i + 4])
}

/// The text of an IPv6 address: groups of one to four hexadecimal digits
/// separated by single colons, eight groups, or at most seven with one `::`
/// standing for the groups left out. A trailing dotted IPv4 part is not
/// accepted.
pub open spec fn is_ipv6_body(b: Seq<char>) -> bool {
    &&& b.len() >= 2
    &&& forall|i: int| 0 <= i < b.len() ==> #[trigger] is_hex(b[i]) || b[i] == ':'
    &&& forall|i: int, j: int|
        #[trigger] double_colon_at(b, i) && #[trigger] double_colon_at(b, j) ==> i == j
    &&& b[0] == ':' ==> double_colon_at(b, 0)
    &&& b[b.len() - 1] == ':' ==> double_colon_at(b, b.len() - 2)
    &&& forall|i: int| !(#[trigger] five_hex_at(b, i))
    &&& if exists|i: int| double_colon_at(b, i) {
        group_count(b) <= 7
    } else {
        group_count(b) == 8
    }
}

/// A bracketed IPv6 literal: `[`, an IPv6 address, `]`.
pub open spec fn is_bracketed_ipv6(h: Seq<char>) -> bool {
    &&& h.len() >= 4
    &&& h[0] == '['
    &&& h[h.len() - 1] == ']'
    &&& is_ipv6_body(h.subrange(1, h.len() - 1))
}

/// A host: a host name, an IPv4 literal or a bracketed IPv6 literal.
pub open spec fn is_host(h: Seq<char>) -> bool {
    is_host_name(h) || is_bracketed_ipv6(h)
}

/// A destination of the form `host:port`, split at its last colon.
pub open spec fn is_host_port(s: Seq<char>) -> bool {
    exists|k: int|
        0 < k < s.len() && s[k] == ':' && is_host(#[trigger] s.subrange(0, k)) && is_port(
            s.subrange(k + 1, s.len() as int),
        )
}

proof fn lemma_digits_value_grows(s: Seq<char>, j: int)
    requires
        0 <= j <= s.len(),
        all_digits(s),
    ensures
        0 <= digits_value(s.subrange(0, j)) <= digits_value(s),
    decreases s.len(),
{
    if j < s.len() {
        let t = s.drop_last();
        assert(t.subrange(0, j) =~= s.subrange(0, j));
        assert(is_digit(s[s.len() - 1]));
        lemma_digits_value_grows(t, j);
    } else {
        assert(s.subrange(0, j) =~= s);
        if s.len() > 0 {
            lemma_digits_value_grows(s.drop_last(), 0);
            assert(is_digit(s[s.len() - 1]));
        }
    }
}

/// Position of the last `:` in `s`, if any.
fn last_colon(s: &str) -> (r: Option<usize>)
    ensures
        match r {
            Some(k) => k < s@.len() && s@[k as int] == ':' && forall|j: int|
                k < j < s@.len() ==> s@[j] != ':',
            None => forall|j: int| 0 <= j < s@.len() ==> s@[j] != ':',
        },
{
    let n = s.unicode_len();
    let mut i: usize = n;
    while i > 0
        invariant
            n == s@.len(),
            i <= n,
            forall|j: int| i <= j < n ==> s@[j] != ':',
        decreases i,
    {
        i = i - 1;
        if s.get_char(i) == ':' {
            return Some(i);
        }
    }
    None
}

/// Whether the characters of `s` from `from` on form a port.
fn is_port_from(s: &str, from: usize) -> (r: bool)
    requires
        from <= s@.len(),
    ensures
        r == is_port(s@.subrange(from as int, s@.len() as int)),
{
    let ghost p = s@.subrange(from as int, s@.len() as int);
    let n = s.unicode_len();
    if from == n {
        return false;
    }
    let mut value: u32 = 0;
    let mut j: usize = from;
    while j < n
        invariant
            n == s@.len(),
            p == s@.subrange(from as int, n as int),
            from <= j <= n,
            all_digits(s@.subrange(from as int, j as int)),
            value == digits_value(s@.subrange(from as int, j as int)),
            value <= MAX_PORT,
        decreases n - j,
    {
        let c = s.get_char(j);
        if !('0' <= c && c <= '9') {
            assert(p[j - from] == c);
            return false;
        }
        let ghost q = s@.subrange(from as int, j + 1);
        assert(q.drop_last() =~= s@.subrange(from as int, j as int));
        assert(all_digits(q)) by {
            assert forall|i: int| 0 <= i < q.len() implies is_digit(#[trigger] q[i]) by {
                if i < q.len() - 1 {
                    assert(q[i] == q.drop_last()[i]);
                }
            }
        }
        let d = c as u32 - '0' as u32;
        value = value * 10 + d;
        j = j + 1;
        if value > MAX_PORT {
            proof {
                if all_digits(p) {
                    assert(p.subrange(0, j - from) =~= q);
                    lemma_digits_value_grows(p, j - from);
                }
            }
            return false;
        }
    }
    assert(s@.subrange(from as int, n as int) =~= p);
    true
}

/// Whether the first `k` characters of `s` form a host name.
fn is_host_name_before(s: &str, k: usize) -> (r: bool)
    requires
        0 < k <= s@.len(),
    ensures
        r == is_host_name(s@.subrange(0, k as int)),
{
    let ghost h = s@.subrange(0, k as int);
    if s.get_char(0) == '.' || s.get_char(k - 1) == '.' {
        assert(h[0] == s@[0] && h[k - 1] == s@[k - 1]);
        return false;
    }
    let mut i: usize = 0;
    while i < k
        invariant
            h == s@.subrange(0, k as int),
            0 < k <= s@.len(),
            i <= k,
            h[0] != '.',
            h[k - 1] != '.',
            forall|j: int| 0 <= j < i ==> #[trigger] h[j] == '.' || is_label_char(h[j]),
            forall|j: int| 0 <= j && j + 1 < i ==> !(#[trigger] h[j] == '.' && h[j + 1] == '.'),
        decreases k - i,
    {
        let c = s.get_char(i);
        assert(h[i as int] == c);
        if !(c == '.' || ('0' <= c && c <= '9') || ('a' <= c && c <= 'z') || ('A' <= c && c <= 'Z')
            || c == '-') {
            return false;
        }
        if i > 0 && c == '.' && s.get_char(i - 1) == '.' {
            assert(h[i - 1] == '.');
            return false;
        }
        i = i + 1;
    }
    true
}

/// Whether the characters of `s` at positions `from..to` form the text of an
/// IPv6 address.
fn is_ipv6_body_at(s: &str, from: usize, to: usize) -> (r: bool)
    requires
        from <= to <= s@.len(),
    ensures
        r == is_ipv6_body(s@.subrange(from as int, to as int)),
{
    let ghost b = s@.subrange(from as int, to as int);
    let m = to - from;
    if m < 2 {
        return false;
    }
    let mut dbl: Option<usize> = None;
    let mut count: usize = 0;
    let mut run: usize = 0;
    let mut i: usize = 0;
    while i < m
        invariant
            b == s@.subrange(from as int, to as int),
            from <= to <= s@.len(),
            m == b.len(),
            i <= m,
            forall|j: int| 0 <= j < i ==> #[trigger] is_hex(b[j]) || b[j] == ':',
            match dbl {
                Some(d) => d + 1 < i && double_colon_at(b, d as int) && forall|j: int|
                    j + 1 < i && #[trigger] double_colon_at(b, j) ==> j == d,
                None => forall|j: int| j + 1 < i ==> !#[trigger] double_colon_at(b, j),
            },
            count == group_count(b.subrange(0, i as int)),
            count <= i,
            run <= 4,
            run <= i,
            forall|j: int| i - run <= j < i ==> is_hex(#[trigger] b[j]),
            i - run > 0 ==> b[i - run - 1] == ':',
            forall|p: int| p + 4 < i ==> !#[trigger] five_hex_at(b, p),
        decreases m - i,
    {
        let c = s.get_char(from + i);
        assert(b[i as int] == c);
        let hex = ('0' <= c && c <= '9') || ('a' <= c && c <= 'f') || ('A' <= c && c <= 'F');
        if !(hex || c == ':') {
            assert(!is_hex(b[i as int]) && b[i as int] != ':');
            return false;
        }
        proof {
            let q = b.subrange(0, i + 1);
            assert(q.drop_last() =~= b.subrange(0, i as int));
            assert(group_start_at(q, i as int) == group_start_at(b, i as int));
        }
        if hex {
            if run == 4 {
                assert(five_hex_at(b, i - 4));
                return false;
            }
            if i == 0 || s.get_char(from + i - 1) == ':' {
                count = count + 1;
            }
            proof {
                assert forall|p: int| p + 4 < i + 1 implies !#[trigger] five_hex_at(b, p) by {
                    if p + 4 == i && five_hex_at(b, p) {
                        let q = i - run - 1;
                        assert(p <= q < i);
                        assert(b[q] == ':');
                        assert(q == p || q == p + 1 || q == p + 2 || q == p + 3);
                    }
                }
            }
            run = run + 1;
        } else {
            if i > 0 && s.get_char(from + i - 1) == ':' {
                let ghost d = (i - 1) as int;
                assert(double_colon_at(b, d));
                match dbl {
                    Some(_) => {
                        return false;
                    },
                    None => {
                        dbl = Some(i - 1);
                    },
                }
            }
            proof {
                assert forall|p: int| p + 4 < i + 1 implies !#[trigger] five_hex_at(b, p) by {
                    if p + 4 == i {
                        assert(!is_hex(b[i as int]));
                    }
                }
            }
            run = 0;
        }
        i = i + 1;
    }
    assert(b.subrange(0, m as int) =~= b);
    let first = s.get_char(from);
    let second = s.get_char(from + 1);
    let last = s.get_char(to - 1);
    let before_last = s.get_char(to - 2);
    assert(b[0] == first && b[1] == second && b[m - 1] == last && b[m - 2] == before_last);
    if first == ':' && second != ':' {
        return false;
    }
    if last == ':' && before_last != ':' {
        return false;
    }
    match dbl {
        Some(d) => {
            assert(double_colon_at(b, d as int));
            count <= 7
        },
        None => count == 8,
    }
}

/// Whether the first `k` characters of `s` form a bracketed IPv6 literal.
fn is_ipv6_before(s: &str, k: usize) -> (r: bool)
    requires
        0 < k <= s@.len(),
    ensures
        r == is_bracketed_ipv6(s@.subrange(0, k as int)),
{
    let ghost h = s@.subrange(0, k as int);
    if k < 4 {
        return false;
    }
    if s.get_char(0) != '[' || s.get_char(k - 1) != ']' {
        assert(h[0] == s@[0] && h[k - 1] == s@[k - 1]);
        return false;
    }
    assert(h.subrange(1, k - 1) =~= s@.subrange(1, k - 1));
    is_ipv6_body_at(s, 1, k - 1)
}

/// Whether the first `k` characters of `s` form a host.
fn is_host_before(s: &str, k: usize) -> (r: bool)
    requires
        0 < k <= s@.len(),
    ensures
        r == is_host(s@.subrange(0, k as int)),
{
    is_host_name_before(s, k) || is_ipv6_before(s, k)
}

/// Whether `dest` has the form `host:port` (see `is_host_port`).
pub fn is_valid_destination(dest: &str) -> (r: bool)
    ensures
        r == is_host_port(dest@),
{
    let ghost s = dest@;
    let n = dest.unicode_len();
    match last_colon(dest) {
        None => {
            assert(!is_host_port(s));
            false
        },
        Some(k) => {
            let ok = k > 0 && k < n && is_host_before(dest, k) && is_port_from(dest, k + 1);
            proof {
                if ok {
                    assert(is_host(s.subrange(0, k as int)) && is_port(
                        s.subrange(k + 1, s.len() as int),
                    ));
                } else {
                    assert forall|k2: int| 0 < k2 < s.len() && s[k2] == ':' implies !(is_host(
                        #[trigger] s.subrange(0, k2),
                    ) && is_port(s.subrange(k2 + 1, s.len() as int))) by {
                        if k2 != k {
                            if k2 < k {
                                let t = s.subrange(k2 + 1, s.len() as int);
                                assert(t[k - k2 - 1] == ':');
                            }
                        }
                    }
                }
            }
            ok
        },
    }
}

} // verus!
