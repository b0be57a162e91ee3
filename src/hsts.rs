//! The HSTS list: hosts that must be reached over `https`, recorded from
//! `Strict-Transport-Security` headers of secure responses.

use vstd::prelude::*;
use crate::headers::{eq_ignore_case, bytes_eq_ignore_case};
use crate::url::{find_from, find_byte, copy_range, bytes_eq};

verus! {

pub open spec fn is_ws(c: u8) -> bool {
    c == 32 || c == 9
}

/// The first index in `[a, b)` that is not white space, or `b`.
pub open spec fn skip_ws(s: Seq<u8>, a: int, b: int) -> int
    decreases b - a,
{
    if a < b && is_ws(s[a]) {
        skip_ws(s, a + 1, b)
    } else {
        a
    }
}

/// The end of `s[a..b]` once trailing white space is dropped.
pub open spec fn back_ws(s: Seq<u8>, a: int, b: int) -> int
    decreases b - a,
{
    if a < b && is_ws(s[b - 1]) {
        back_ws(s, a, b - 1)
    } else {
        b
    }
}

/// `s[a..b]` without leading and trailing white space.
pub open spec fn trimmed(s: Seq<u8>, a: int, b: int) -> Seq<u8> {
    s.subrange(skip_ws(s, a, b), back_ws(s, skip_ws(s, a, b), b))
}

pub open spec fn is_digit(c: u8) -> bool {
    48 <= c <= 57
}

/// The number that a string of decimal digits spells.
pub open spec fn digits_value(d: Seq<u8>) -> nat
    decreases d.len(),
{
    if d.len() == 0 {
        0
    } else {
        digits_value(d.drop_last()) * 10 + (d.last() - 48) as nat
    }
}

pub open spec fn saturate(n: nat) -> u64 {
    if n > u64::MAX {
        u64::MAX
    } else {
        n as u64
    }
}

/// `max-age=` in lower case.
pub open spec fn max_age_key() -> Seq<u8> {
    seq![109u8, 97, 120, 45, 97, 103, 101, 61]
}

/// `includesubdomains` in lower case.
pub open spec fn include_subdomains_key() -> Seq<u8> {
    seq![105u8, 110, 99, 108, 117, 100, 101, 115, 117, 98, 100, 111, 109, 97, 105, 110, 115]
}

/// The seconds of a `max-age=<digits>` directive (any case in the name;
/// saturated to `u64`), or `None` for any other directive.
pub open spec fn directive_max_age(d: Seq<u8>) -> Option<u64> {
    if d.len() > 8 && eq_ignore_case(d.subrange(0, 8), max_age_key()) && (forall|i: int|
        8 <= i < d.len() ==> is_digit(#[trigger] d[i])) {
        Some(saturate(digits_value(d.subrange(8, d.len() as int))))
    } else {
        None
    }
}

pub open spec fn directive_include(d: Seq<u8>) -> bool {
    eq_ignore_case(d, include_subdomains_key())
}

/// What the directives of `s` from index `a` on say: the first `max-age`,
/// and whether any is `includeSubDomains`.
pub open spec fn directives_from(s: Seq<u8>, a: int) -> (Option<u64>, bool)
    decreases s.len() - a,
{
    if a < 0 || a > s.len() {
        (None, false)
    } else {
        let b = find_from(s, 59, a);
        let d = trimmed(s, a, b);
        let rest = if a <= b < s.len() {
            directives_from(s, b + 1)
        } else {
            (None, false)
        };
        (
            if directive_max_age(d) is Some {
                directive_max_age(d)
            } else {
                rest.0
            },
            directive_include(d) || rest.1,
        )
    }
}

/// The directive that a `Strict-Transport-Security` value carries: its
/// `max-age` (required) and whether `includeSubDomains` is present.
pub open spec fn parse_sts(value: Seq<u8>) -> Option<(u64, bool)> {
    let r = directives_from(value, 0);
    match r.0 {
        Some(m) => Some((m, r.1)),
        None => None,
    }
}

/// `h` is a strict subdomain of `d`: it ends with `.` followed by `d`.
pub open spec fn is_subdomain_of(h: Seq<u8>, d: Seq<u8>) -> bool {
    h.len() > d.len() && h[h.len() - d.len() - 1] == 46 && h.subrange(
        h.len() - d.len(),
        h.len() as int,
    ) == d
}

/// An entry `(host, include_subdomains, max_age)` covers `host`.
pub open spec fn covers(e: (Seq<u8>, bool, u64), host: Seq<u8>) -> bool {
    e.0 == host || (e.1 && is_subdomain_of(host, e.0))
}

pub open spec fn host_secure(l: Seq<(Seq<u8>, bool, u64)>, host: Seq<u8>) -> bool {
    exists|i: int| 0 <= i < l.len() && covers(#[trigger] l[i], host)
}

/// `l` with the entry for `e`'s host replaced by `e`, or `e` added.
pub open spec fn upsert(l: Seq<(Seq<u8>, bool, u64)>, e: (Seq<u8>, bool, u64)) -> Seq<
    (Seq<u8>, bool, u64),
> {
    if exists|i: int| 0 <= i < l.len() && (#[trigger] l[i]).0 == e.0 {
        l.update(choose|i: int| 0 <= i < l.len() && (#[trigger] l[i]).0 == e.0, e)
    } else {
        l.push(e)
    }
}

/// One host's directive.
#[derive(Clone, Debug)]
pub struct HstsEntry {
    pub host: Vec<u8>,
    pub include_subdomains: bool,
    pub max_age: u64,
}

impl HstsEntry {
    pub open spec fn view(&self) -> (Seq<u8>, bool, u64) {
        (self.host@, self.include_subdomains, self.max_age)
    }
}

/// The registered hosts, each at most once.
#[derive(Clone, Debug)]
pub struct HstsList {
    entries: Vec<HstsEntry>,
}

impl View for HstsList {
    type V = Seq<(Seq<u8>, bool, u64)>;

    closed spec fn view(&self) -> Seq<(Seq<u8>, bool, u64)> {
        self.entries@.map_values(|e: HstsEntry| e.view())
    }
}

/// Hosts are unique in `l`.
pub open spec fn hosts_unique(l: Seq<(Seq<u8>, bool, u64)>) -> bool {
    forall|i: int, j: int| 0 <= i < j < l.len() ==> (#[trigger] l[i]).0 != (#[trigger] l[j]).0
}

/// Whether `h` is a strict subdomain of `d`.
pub fn is_subdomain(h: &[u8], d: &[u8]) -> (r: bool)
    ensures
        r == is_subdomain_of(h@, d@),
{
    if h.len() <= d.len() {
        return false;
    }
    let k = h.len() - d.len();
    if h[k - 1] != 46 {
        return false;
    }
    let tail = copy_range(h, k, h.len());
    bytes_eq(tail.as_slice(), d)
}

fn trim_range(s: &[u8], a: usize, b: usize) -> (r: (usize, usize))
    requires
        a <= b <= s@.len(),
    ensures
        r.0 == skip_ws(s@, a as int, b as int),
        r.1 == back_ws(s@, r.0 as int, b as int),
        a <= r.0 <= r.1 <= b,
{
    let mut i: usize = a;
    while i < b && (s[i] == 32 || s[i] == 9)
        invariant
            a <= i <= b <= s@.len(),
            skip_ws(s@, a as int, b as int) == skip_ws(s@, i as int, b as int),
        decreases b - i,
    {
        i = i + 1;
    }
    let mut j: usize = b;
    while i < j && (s[j - 1] == 32 || s[j - 1] == 9)
        invariant
            a <= i <= j <= b <= s@.len(),
            back_ws(s@, i as int, b as int) == back_ws(s@, i as int, j as int),
        decreases j - i,
    {
        j = j - 1;
    }
    (i, j)
}

proof fn lemma_saturate_step(v: nat, c: nat)
    requires
        c < 10,
    ensures
        saturate(saturate(v) as nat * 10 + c) == saturate(v * 10 + c),
{
    if v > u64::MAX {
        assert(v * 10 + c > u64::MAX) by (nonlinear_arith)
            requires
                v > u64::MAX,
        ;
        assert(u64::MAX as nat * 10 + c > u64::MAX);
    }
}

/// Reads `max-age=<digits>` in the directive `d`.
fn max_age_of(d: &[u8]) -> (r: Option<u64>)
    ensures
        r == directive_max_age(d@),
{
    if d.len() <= 8 {
        return None;
    }
    let key = copy_range(d, 0, 8);
    let expected: Vec<u8> = vec![109u8, 97, 120, 45, 97, 103, 101, 61];
    assert(expected@ =~= max_age_key());
    if !bytes_eq_ignore_case(key.as_slice(), expected.as_slice()) {
        return None;
    }
    let mut v: u64 = 0;
    let mut i: usize = 8;
    while i < d.len()
        invariant
            8 <= i <= d@.len(),
            forall|k: int| 8 <= k < i ==> is_digit(#[trigger] d@[k]),
            v == saturate(digits_value(d@.subrange(8, i as int))),
        decreases d@.len() - i,
    {
        let c = d[i];
        if !(48 <= c && c <= 57) {
            assert(!is_digit(d@[i as int]));
            return None;
        }
        let digit: u64 = (c - 48) as u64;
        proof {
            let p = d@.subrange(8, i as int + 1);
            assert(p.drop_last() =~= d@.subrange(8, i as int));
            assert(p.last() == c);
            lemma_saturate_step(digits_value(d@.subrange(8, i as int)), digit as nat);
        }
        if v > (u64::MAX - digit) / 10 {
            proof {
                assert(v as nat * 10 + digit as nat > u64::MAX) by (nonlinear_arith)
                    requires
                        v > (u64::MAX - digit) / 10,
                        digit < 10,
                ;
            }
            v = u64::MAX;
        } else {
            proof {
                assert(v as nat * 10 + digit as nat <= u64::MAX) by (nonlinear_arith)
                    requires
                        v <= (u64::MAX - digit) / 10,
                        digit < 10,
                ;
            }
            v = v * 10 + digit;
        }
        i = i + 1;
    }
    assert(d@.subrange(8, d@.len() as int) =~= d@.subrange(8, i as int));
    Some(v)
}

/// Parses the value of a `Strict-Transport-Security` header: `None` unless
/// it carries a numeric `max-age`.
pub fn parse_sts_header(value: &[u8]) -> (r: Option<(u64, bool)>)
    ensures
        r == parse_sts(value@),
{
    let s = value;
    let n = s.len();
    let mut a: usize = 0;
    let mut max_age: Option<u64> = None;
    let mut subdomains = false;
    let include_key: Vec<u8> = vec![105u8, 110, 99, 108, 117, 100, 101, 115, 117, 98, 100, 111, 109, 97, 105, 110, 115];
    assert(include_key@ =~= include_subdomains_key());
    loop
        invariant
            n == s@.len(),
            a <= n,
            include_key@ == include_subdomains_key(),
            ({
                let rest = directives_from(s@, a as int);
                directives_from(s@, 0) == (
                    if max_age is Some {
                        max_age
                    } else {
                        rest.0
                    },
                    subdomains || rest.1,
                )
            }),
        ensures
            directives_from(s@, 0) == (max_age, subdomains),
        decreases n - a,
    {
        let b = find_byte(s, 59, a);
        proof {
            crate::url::lemma_find_bounds(s@, 59, a as int);
        }
        let (x, y) = trim_range(s, a, b);
        let d = copy_range(s, x, y);
        let m = max_age_of(d.as_slice());
        let inc = bytes_eq_ignore_case(d.as_slice(), include_key.as_slice());
        if max_age.is_none() {
            max_age = m;
        }
        subdomains = subdomains || inc;
        proof {
            assert(d@ == trimmed(s@, a as int, b as int));
            let rest = if b < n {
                directives_from(s@, b + 1)
            } else {
                (None, false)
            };
            assert(directives_from(s@, 0) == (
                if max_age is Some {
                    max_age
                } else {
                    rest.0
                },
                subdomains || rest.1,
            ));
        }
        if b >= n {
            break;
        }
        a = b + 1;
    }
    match max_age {
        Some(m) => Some((m, subdomains)),
        None => None,
    }
}

impl HstsList {
    pub open spec fn wf(&self) -> bool {
        hosts_unique(self@)
    }

    /// An empty list.
    pub fn new() -> (r: HstsList)
        ensures
            r.wf(),
            r@ == Seq::<(Seq<u8>, bool, u64)>::empty(),
    {
        let r = HstsList { entries: Vec::new() };
        assert(r@ =~= Seq::<(Seq<u8>, bool, u64)>::empty());
        r
    }

    /// Whether `host`, or a domain above it registered with
    /// `includeSubDomains`, is on the list.
    pub fn is_host_secure(&self, host: &[u8]) -> (r: bool)
        ensures
            r == host_secure(self@, host@),
    {
        let mut i: usize = 0;
        while i < self.entries.len()
            invariant
                0 <= i <= self@.len(),
                self@.len() == self.entries@.len(),
                forall|j: int| 0 <= j < i ==> !covers(#[trigger] self@[j], host@),
            decreases self@.len() - i,
        {
            let e = &self.entries[i];
            if bytes_eq(e.host.as_slice(), host) || (e.include_subdomains && is_subdomain(
                host,
                e.host.as_slice(),
            )) {
                assert(covers(self@[i as int], host@));
                return true;
            }
            i = i + 1;
        }
        false
    }

    /// The index of the entry for `host`.
    fn find_host(&self, host: &[u8]) -> (r: Option<usize>)
        ensures
            match r {
                Some(i) => i < self@.len() && self@[i as int].0 == host@,
                None => forall|j: int| 0 <= j < self@.len() ==> (#[trigger] self@[j]).0 != host@,
            },
    {
        let mut i: usize = 0;
        while i < self.entries.len()
            invariant
                0 <= i <= self@.len(),
                self@.len() == self.entries@.len(),
                forall|j: int| 0 <= j < i ==> (#[trigger] self@[j]).0 != host@,
            decreases self@.len() - i,
        {
            if bytes_eq(self.entries[i].host.as_slice(), host) {
                return Some(i);
            }
            i = i + 1;
        }
        None
    }

    /// Records `entry`, replacing the entry for the same host.
    pub fn push(&mut self, entry: HstsEntry)
        requires
            old(self).wf(),
        ensures
            final(self).wf(),
            final(self)@ == upsert(old(self)@, entry.view()),
    {
        let ghost l = self@;
        let ghost e = entry.view();
        match self.find_host(entry.host.as_slice()) {
            Some(i) => {
                proof {
                    assert(0 <= i < l.len() && (#[trigger] l[i as int]).0 == e.0);
                    let k = choose|k: int| 0 <= k < l.len() && (#[trigger] l[k]).0 == e.0;
                    if k != i {
                        if k < i {
                            assert(l[k].0 != l[i as int].0);
                        } else {
                            assert(l[i as int].0 != l[k].0);
                        }
                    }
                    assert(k == i);
                }
                self.entries.set(i, entry);
                assert(self@ =~= l.update(i as int, e));
            },
            None => {
                self.entries.push(entry);
                assert(self@ =~= l.push(e));
            },
        }
    }

    /// Records the directive of a `Strict-Transport-Security` value received
    /// from `host`. Nothing changes unless the response came over `https`
    /// and the value carries a numeric `max-age`.
    pub fn record_from_header(&mut self, host: &[u8], value: &[u8], origin_secure: bool)
        requires
            old(self).wf(),
        ensures
            final(self).wf(),
            final(self)@ == match parse_sts(value@) {
                Some(d) => if origin_secure {
                    upsert(old(self)@, (host@, d.1, d.0))
                } else {
                    old(self)@
                },
                None => old(self)@,
            },
    {
        if !origin_secure {
            return;
        }
        match parse_sts_header(value) {
            Some((max_age, subdomains)) => {
                let h = copy_range(host, 0, host.len());
                assert(h@ =~= host@);
                self.push(HstsEntry { host: h, include_subdomains: subdomains, max_age });
            },
            None => {},
        }
    }
}

} // verus!
