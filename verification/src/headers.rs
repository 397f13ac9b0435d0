//! Rate-limit header detection: scans a response's header list for the
//! provider-specific spellings of the remaining / limit / reset fields,
//! case-insensitively and after normalizing names, and parses reset
//! values in the common formats.

use vstd::prelude::*;
use vstd::string::*;

use crate::bytes::{bytes_eq, contains_bytes, contains_spec, parse_i64, parse_i64_spec, parse_u32,
    parse_u32_spec, slice_to_vec_u8};

verus! {

/// One response's quota snapshot.  `remaining` and `limit` fall back to
/// fixed defaults when no header matched, so every response yields a
/// usable snapshot; `reset_at` is in Unix seconds when one was found.
#[derive(Debug, Clone, Copy, PartialEq, Eq, Structural)]
pub struct RateLimitInfo {
    pub remaining: u32,
    pub limit: u32,
    pub reset_at: Option<i64>,
}

pub open spec fn lower_byte(b: u8) -> u8 {
    if 65 <= b <= 90 {
        (b + 32) as u8
    } else {
        b
    }
}

pub open spec fn underscore_byte(b: u8) -> u8 {
    if b == 45 {
        95u8
    } else {
        b
    }
}

pub open spec fn mapped_name(s: Seq<u8>) -> Seq<u8> {
    s.map_values(|b: u8| underscore_byte(lower_byte(b)))
}

/// Drops every leading `x_` pair.
pub open spec fn strip_x_prefix(s: Seq<u8>) -> Seq<u8>
    decreases s.len(),
{
    if s.len() >= 2 && s[0] == 120 && s[1] == 95 {
        strip_x_prefix(s.skip(2))
    } else {
        s
    }
}

/// A header name normalized for comparison: ASCII-lowercased, hyphens
/// turned to underscores, and any leading `x_` pairs stripped, so that
/// `X-RateLimit-Remaining` and `ratelimit-remaining` read the same.
pub open spec fn normalized_name(s: Seq<u8>) -> Seq<u8> {
    strip_x_prefix(mapped_name(s))
}

/// Normalizes a header name for comparison.
#[verifier::loop_isolation(false)]
pub fn normalize_header_name(name: &[u8]) -> (r: Vec<u8>)
    ensures
        r@ == normalized_name(name@),
{
    let n = name.len();
    let mut mapped: Vec<u8> = Vec::new();
    let mut i: usize = 0;
    while i < n
        invariant
            0 <= i <= n,
            n == name@.len(),
            mapped@.len() == i,
            forall|j: int| 0 <= j < i ==> mapped@[j] == underscore_byte(lower_byte(name@[j])),
        decreases n - i,
    {
        let b = name[i];
        let low = if 65 <= b && b <= 90 {
            b + 32
        } else {
            b
        };
        let c = if low == 45 {
            95
        } else {
            low
        };
        mapped.push(c);
        i += 1;
    }
    proof {
        assert(mapped@ =~= mapped_name(name@));
    }
    let mut start: usize = 0;
    proof {
        assert(mapped@.skip(0) =~= mapped@);
    }
    while n - start >= 2 && mapped[start] == 120 && mapped[start + 1] == 95
        invariant
            0 <= start <= n,
            n == mapped@.len(),
            mapped@ == mapped_name(name@),
            strip_x_prefix(mapped@) == strip_x_prefix(mapped@.skip(start as int)),
        decreases n - start,
    {
        proof {
            let rest = mapped@.skip(start as int);
            assert(rest[0] == 120 && rest[1] == 95);
            assert(rest.skip(2) =~= mapped@.skip(start + 2));
        }
        start += 2;
    }
    let r = slice_to_vec_u8(vstd::slice::slice_subrange(mapped.as_slice(), start, n));
    proof {
        let rest = mapped@.skip(start as int);
        assert(rest =~= mapped@.subrange(start as int, n as int));
        assert(!(rest.len() >= 2 && rest[0] == 120 && rest[1] == 95)) by {
            if rest.len() >= 2 {
                assert(rest[0] == mapped@[start as int]);
                assert(rest[1] == mapped@[start as int + 1]);
            }
        }
        assert(strip_x_prefix(rest) == rest);
    }
    r
}

/// The views of a header pair list.
pub open spec fn header_views(hs: Seq<(Vec<u8>, Vec<u8>)>) -> Seq<(Seq<u8>, Seq<u8>)> {
    hs.map_values(|p: (Vec<u8>, Vec<u8>)| (p.0@, p.1@))
}

/// The value of the first header whose normalized name equals the
/// normalized `name`, if any.
pub open spec fn find_header_spec(hs: Seq<(Seq<u8>, Seq<u8>)>, name: Seq<u8>) -> Option<Seq<u8>>
    decreases hs.len(),
{
    if hs.len() == 0 {
        None
    } else if normalized_name(hs[0].0) == normalized_name(name) {
        Some(hs[0].1)
    } else {
        find_header_spec(hs.drop_first(), name)
    }
}

/// Finds a header by name, comparing normalized names.
#[verifier::loop_isolation(false)]
pub fn find_header(headers: &Vec<(Vec<u8>, Vec<u8>)>, name: &[u8]) -> (r: Option<Vec<u8>>)
    ensures
        (match r {
            Some(v) => Some(v@),
            None => None,
        }) == find_header_spec(header_views(headers@), name@),
{
    let target = normalize_header_name(name);
    let n = headers.len();
    let ghost hv = header_views(headers@);
    let mut i: usize = 0;
    proof {
        assert(hv.skip(0) =~= hv);
    }
    while i < n
        invariant
            0 <= i <= n,
            n == headers@.len(),
            hv == header_views(headers@),
            target@ == normalized_name(name@),
            find_header_spec(hv, name@) == find_header_spec(hv.skip(i as int), name@),
        decreases n - i,
    {
        let key_norm = normalize_header_name(headers[i].0.as_slice());
        proof {
            let rest = hv.skip(i as int);
            assert(rest[0] == hv[i as int]);
            assert(rest.drop_first() =~= hv.skip(i + 1));
        }
        if bytes_eq(key_norm.as_slice(), target.as_slice()) {
            let value = slice_to_vec_u8(headers[i].1.as_slice());
            return Some(value);
        }
        i += 1;
    }
    proof {
        assert(hv.skip(n as int) =~= Seq::<(Seq<u8>, Seq<u8>)>::empty());
    }
    None
}

/// The ordered spellings tried for the remaining-quota header.
pub open spec fn remaining_header_names() -> Seq<Seq<u8>> {
    seq![
        "x-ratelimit-remaining".spec_bytes(),
        "ratelimit-remaining".spec_bytes(),
        "x-rate-limit-remaining".spec_bytes(),
        "rate-limit-remaining".spec_bytes(),
        "x-ratelimit-requests-remaining".spec_bytes(),
        "retry-after".spec_bytes(),
    ]
}

/// The ordered spellings tried for the quota-limit header.
pub open spec fn limit_header_names() -> Seq<Seq<u8>> {
    seq![
        "x-ratelimit-limit".spec_bytes(),
        "ratelimit-limit".spec_bytes(),
        "x-rate-limit-limit".spec_bytes(),
        "rate-limit-limit".spec_bytes(),
        "x-ratelimit-requests-limit".spec_bytes(),
    ]
}

/// The ordered spellings tried for the quota-reset header.
pub open spec fn reset_header_names() -> Seq<Seq<u8>> {
    seq![
        "x-ratelimit-reset".spec_bytes(),
        "ratelimit-reset".spec_bytes(),
        "x-rate-limit-reset".spec_bytes(),
        "rate-limit-reset".spec_bytes(),
        "x-ratelimit-reset-after".spec_bytes(),
        "retry-after".spec_bytes(),
    ]
}

fn remaining_candidates() -> (r: Vec<Vec<u8>>)
    ensures
        crate::bytes::views_of(r@) == remaining_header_names(),
{
    let mut r: Vec<Vec<u8>> = Vec::new();
    r.push("x-ratelimit-remaining".as_bytes_vec());
    r.push("ratelimit-remaining".as_bytes_vec());
    r.push("x-rate-limit-remaining".as_bytes_vec());
    r.push("rate-limit-remaining".as_bytes_vec());
    r.push("x-ratelimit-requests-remaining".as_bytes_vec());
    r.push("retry-after".as_bytes_vec());
    proof {
        assert(crate::bytes::views_of(r@) =~= remaining_header_names());
    }
    r
}

fn limit_candidates() -> (r: Vec<Vec<u8>>)
    ensures
        crate::bytes::views_of(r@) == limit_header_names(),
{
    let mut r: Vec<Vec<u8>> = Vec::new();
    r.push("x-ratelimit-limit".as_bytes_vec());
    r.push("ratelimit-limit".as_bytes_vec());
    r.push("x-rate-limit-limit".as_bytes_vec());
    r.push("rate-limit-limit".as_bytes_vec());
    r.push("x-ratelimit-requests-limit".as_bytes_vec());
    proof {
        assert(crate::bytes::views_of(r@) =~= limit_header_names());
    }
    r
}

fn reset_candidates() -> (r: Vec<Vec<u8>>)
    ensures
        crate::bytes::views_of(r@) == reset_header_names(),
{
    let mut r: Vec<Vec<u8>> = Vec::new();
    r.push("x-ratelimit-reset".as_bytes_vec());
    r.push("ratelimit-reset".as_bytes_vec());
    r.push("x-rate-limit-reset".as_bytes_vec());
    r.push("rate-limit-reset".as_bytes_vec());
    r.push("x-ratelimit-reset-after".as_bytes_vec());
    r.push("retry-after".as_bytes_vec());
    proof {
        assert(crate::bytes::views_of(r@) =~= reset_header_names());
    }
    r
}

/// The first candidate name that is present and parses as a `u32` wins.
pub open spec fn detect_count_spec(hs: Seq<(Seq<u8>, Seq<u8>)>, cands: Seq<Seq<u8>>) -> Option<
    u32,
>
    decreases cands.len(),
{
    if cands.len() == 0 {
        None
    } else {
        match find_header_spec(hs, cands[0]) {
            Some(v) => match parse_u32_spec(v) {
                Some(x) => Some(x),
                None => detect_count_spec(hs, cands.drop_first()),
            },
            None => detect_count_spec(hs, cands.drop_first()),
        }
    }
}

#[verifier::loop_isolation(false)]
fn detect_count(headers: &Vec<(Vec<u8>, Vec<u8>)>, cands: &Vec<Vec<u8>>) -> (r: Option<u32>)
    ensures
        r == detect_count_spec(header_views(headers@), crate::bytes::views_of(cands@)),
{
    let n = cands.len();
    let ghost cv = crate::bytes::views_of(cands@);
    let ghost hv = header_views(headers@);
    let mut i: usize = 0;
    proof {
        assert(cv.skip(0) =~= cv);
    }
    while i < n
        invariant
            0 <= i <= n,
            n == cands@.len(),
            cv == crate::bytes::views_of(cands@),
            hv == header_views(headers@),
            detect_count_spec(hv, cv) == detect_count_spec(hv, cv.skip(i as int)),
        decreases n - i,
    {
        proof {
            let rest = cv.skip(i as int);
            assert(rest[0] == cv[i as int]);
            assert(rest.drop_first() =~= cv.skip(i + 1));
        }
        match find_header(headers, cands[i].as_slice()) {
            Some(v) => {
                match parse_u32(v.as_slice()) {
                    Some(x) => {
                        return Some(x);
                    },
                    None => {},
                }
            },
            None => {},
        }
        i += 1;
    }
    proof {
        assert(cv.skip(n as int) =~= Seq::<Seq<u8>>::empty());
    }
    None
}

/// The Unix-second timestamp an RFC 3339 string denotes, if it parses.
pub uninterp spec fn rfc3339_secs(s: Seq<u8>) -> Option<i64>;

/// The Unix-second timestamp an RFC 2822 string denotes, if it parses.
pub uninterp spec fn rfc2822_secs(s: Seq<u8>) -> Option<i64>;

/// Relies on chrono's `DateTime::parse_from_rfc3339`: the result is a
/// function of the input characters alone; the wrapper hands back its
/// Unix-second timestamp.
#[verifier::external_body]
pub(crate) fn parse_rfc3339(v: &[u8]) -> (r: Option<i64>)
    ensures
        r == rfc3339_secs(v@),
{
    match core::str::from_utf8(v) {
        Ok(s) => match chrono::DateTime::parse_from_rfc3339(s) {
            Ok(dt) => Some(dt.timestamp()),
            Err(_) => None,
        },
        Err(_) => None,
    }
}

/// Relies on chrono's `DateTime::parse_from_rfc2822`: the result is a
/// function of the input characters alone; the wrapper hands back its
/// Unix-second timestamp.
#[verifier::external_body]
fn parse_rfc2822(v: &[u8]) -> (r: Option<i64>)
    ensures
        r == rfc2822_secs(v@),
{
    match core::str::from_utf8(v) {
        Ok(s) => match chrono::DateTime::parse_from_rfc2822(s) {
            Ok(dt) => Some(dt.timestamp()),
            Err(_) => None,
        },
        Err(_) => None,
    }
}

/// `now + d`, clamped at the ends of the `i64` range.
pub open spec fn sat_add_spec(now: i64, d: i64) -> i64 {
    if now + d > i64::MAX {
        i64::MAX
    } else if now + d < i64::MIN {
        i64::MIN
    } else {
        (now + d) as i64
    }
}

fn sat_add(now: i64, d: i64) -> (r: i64)
    ensures
        r == sat_add_spec(now, d),
{
    if d >= 0 {
        if now > i64::MAX - d {
            i64::MAX
        } else {
            now + d
        }
    } else {
        if now < i64::MIN - d {
            i64::MIN
        } else {
            now + d
        }
    }
}

/// Trying the date formats on a reset value: RFC 3339 first, then
/// RFC 2822.
pub open spec fn date_fallback_spec(v: Seq<u8>) -> Option<i64> {
    match rfc3339_secs(v) {
        Some(t) => Some(t),
        None => rfc2822_secs(v),
    }
}

/// How one reset header value is read, against the current time `now`:
/// an integer above one billion is an absolute Unix-second timestamp; an
/// integer under a day, or any integer from a header whose name contains
/// `after`, counts seconds from now; otherwise the date formats are
/// tried.
pub open spec fn parse_reset_spec(v: Seq<u8>, name: Seq<u8>, now: i64) -> Option<i64> {
    match parse_i64_spec(v) {
        Some(ts) => if ts > 1_000_000_000 {
            Some(ts)
        } else if contains_spec(name, "after".spec_bytes()) || ts < 86400 {
            Some(sat_add_spec(now, ts))
        } else {
            date_fallback_spec(v)
        },
        None => date_fallback_spec(v),
    }
}

/// Parses one reset header value against the current time `now`.
fn parse_reset_value(v: &[u8], name: &[u8], now: i64) -> (r: Option<i64>)
    ensures
        r == parse_reset_spec(v@, name@, now),
{
    match parse_i64(v) {
        Some(ts) => {
            if ts > 1_000_000_000 {
                Some(ts)
            } else if contains_bytes(name, "after".as_bytes()) || ts < 86400 {
                Some(sat_add(now, ts))
            } else {
                match parse_rfc3339(v) {
                    Some(t) => Some(t),
                    None => parse_rfc2822(v),
                }
            }
        },
        None => {
            match parse_rfc3339(v) {
                Some(t) => Some(t),
                None => parse_rfc2822(v),
            }
        },
    }
}

/// The first candidate name whose value parses as a reset time wins.
pub open spec fn detect_reset_spec(
    hs: Seq<(Seq<u8>, Seq<u8>)>,
    cands: Seq<Seq<u8>>,
    now: i64,
) -> Option<i64>
    decreases cands.len(),
{
    if cands.len() == 0 {
        None
    } else {
        match find_header_spec(hs, cands[0]) {
            Some(v) => match parse_reset_spec(v, cands[0], now) {
                Some(t) => Some(t),
                None => detect_reset_spec(hs, cands.drop_first(), now),
            },
            None => detect_reset_spec(hs, cands.drop_first(), now),
        }
    }
}

#[verifier::loop_isolation(false)]
fn detect_reset(headers: &Vec<(Vec<u8>, Vec<u8>)>, now: i64) -> (r: Option<i64>)
    ensures
        r == detect_reset_spec(header_views(headers@), reset_header_names(), now),
{
    let cands = reset_candidates();
    let n = cands.len();
    let ghost cv = crate::bytes::views_of(cands@);
    let ghost hv = header_views(headers@);
    let mut i: usize = 0;
    proof {
        assert(cv.skip(0) =~= cv);
    }
    while i < n
        invariant
            0 <= i <= n,
            n == cands@.len(),
            cv == crate::bytes::views_of(cands@),
            cv == reset_header_names(),
            hv == header_views(headers@),
            detect_reset_spec(hv, cv, now) == detect_reset_spec(hv, cv.skip(i as int), now),
        decreases n - i,
    {
        proof {
            let rest = cv.skip(i as int);
            assert(rest[0] == cv[i as int]);
            assert(rest.drop_first() =~= cv.skip(i + 1));
        }
        match find_header(headers, cands[i].as_slice()) {
            Some(v) => {
                match parse_reset_value(v.as_slice(), cands[i].as_slice(), now) {
                    Some(t) => {
                        return Some(t);
                    },
                    None => {},
                }
            },
            None => {},
        }
        i += 1;
    }
    proof {
        assert(cv.skip(n as int) =~= Seq::<Seq<u8>>::empty());
    }
    None
}

/// What the detector reports of one response, against the current time
/// `now`: remaining and limit fall back to 60 where no header matched.
pub open spec fn rate_limit_info_spec(hs: Seq<(Seq<u8>, Seq<u8>)>, now: i64) -> RateLimitInfo {
    RateLimitInfo {
        remaining: match detect_count_spec(hs, remaining_header_names()) {
            Some(x) => x,
            None => 60u32,
        },
        limit: match detect_count_spec(hs, limit_header_names()) {
            Some(x) => x,
            None => 60u32,
        },
        reset_at: detect_reset_spec(hs, reset_header_names(), now),
    }
}

/// Scans a response's headers for the rate-limit fields and returns a
/// usable snapshot: unmatched categories take the default of 60.
pub fn detect_rate_limits(headers: &Vec<(Vec<u8>, Vec<u8>)>, now: i64) -> (r: RateLimitInfo)
    ensures
        r == rate_limit_info_spec(header_views(headers@), now),
{
    let remaining = detect_count(headers, &remaining_candidates());
    let limit = detect_count(headers, &limit_candidates());
    let reset_at = detect_reset(headers, now);
    RateLimitInfo {
        remaining: match remaining {
            Some(x) => x,
            None => 60,
        },
        limit: match limit {
            Some(x) => x,
            None => 60,
        },
        reset_at,
    }
}

/// Whether any rate-limit header (remaining or limit) was actually
/// found — used to tell a genuine rate-limit 403 from an unrelated 403.
pub fn has_rate_limit_headers(headers: &Vec<(Vec<u8>, Vec<u8>)>) -> (r: bool)
    ensures
        r == (detect_count_spec(header_views(headers@), remaining_header_names()) is Some
            || detect_count_spec(header_views(headers@), limit_header_names()) is Some),
{
    let remaining = detect_count(headers, &remaining_candidates());
    let limit = detect_count(headers, &limit_candidates());
    remaining.is_some() || limit.is_some()
}

} // verus!
