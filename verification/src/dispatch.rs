//! What the manifest loop decides for each line: whether a line names a
//! URL to fetch at all, and where on disk a fetched README lands.

use vstd::prelude::*;
use vstd::string::*;

use crate::bytes::{starts_with, starts_with_spec, trim, trim_spec};

verus! {

/// What a manifest line asks for: the trimmed URL, or nothing for a
/// blank line or a comment starting with `#`.  Skipped lines still
/// advance the progress counter; they are just never fetched.
pub open spec fn effective_url_spec(line: Seq<u8>) -> Option<Seq<u8>> {
    let t = trim_spec(line);
    if t.len() == 0 || t[0] == 35 {
        None
    } else {
        Some(t)
    }
}

/// Trims a manifest line and drops blanks and comments.
pub fn effective_url(line: &[u8]) -> (r: Option<Vec<u8>>)
    ensures
        (match r {
            Some(v) => Some(v@),
            None => None,
        }) == effective_url_spec(line@),
{
    let t = trim(line);
    if t.len() == 0 || t[0] == 35 {
        None
    } else {
        Some(t)
    }
}

/// Repeatedly drops a leading copy of `p` from `s`.
pub open spec fn strip_prefix_rep(s: Seq<u8>, p: Seq<u8>) -> Seq<u8>
    decreases s.len(),
{
    if p.len() > 0 && starts_with_spec(s, p) {
        strip_prefix_rep(s.skip(p.len() as int), p)
    } else {
        s
    }
}

#[verifier::loop_isolation(false)]
fn strip_prefix_all(v: &[u8], p: &[u8]) -> (r: Vec<u8>)
    ensures
        r@ == strip_prefix_rep(v@, p@),
{
    let m = p.len();
    let n = v.len();
    let mut start: usize = 0;
    proof {
        assert(v@.skip(0) =~= v@);
    }
    while m > 0 && n - start >= m && starts_with(
        vstd::slice::slice_subrange(v, start, n),
        p,
    )
        invariant
            0 <= start <= n,
            m == p@.len(),
            n == v@.len(),
            strip_prefix_rep(v@, p@) == strip_prefix_rep(v@.skip(start as int), p@),
        decreases n - start,
    {
        proof {
            let rest = v@.skip(start as int);
            assert(rest =~= v@.subrange(start as int, n as int));
            assert(rest.skip(m as int) =~= v@.skip(start + m));
        }
        start += m;
    }
    let r = crate::bytes::slice_to_vec_u8(vstd::slice::slice_subrange(v, start, n));
    proof {
        let rest = v@.skip(start as int);
        assert(rest =~= v@.subrange(start as int, n as int));
        if m > 0 && n - start >= m {
            assert(!starts_with_spec(rest, p@));
        } else {
            if m > 0 {
                assert(rest.len() < m);
            }
        }
        assert(strip_prefix_rep(rest, p@) == rest);
    }
    r
}

/// The output path a URL's README is written to: the URL with its
/// scheme prefix stripped — every leading `http://` first, then every
/// leading `https://`.
pub open spec fn url_to_path_spec(url: Seq<u8>) -> Seq<u8> {
    strip_prefix_rep(strip_prefix_rep(url, "http://".spec_bytes()), "https://".spec_bytes())
}

/// Strips the scheme off a URL to make its output path.
pub fn url_to_path(url: &[u8]) -> (r: Vec<u8>)
    ensures
        r@ == url_to_path_spec(url@),
{
    let stripped = strip_prefix_all(url, "http://".as_bytes());
    strip_prefix_all(stripped.as_slice(), "https://".as_bytes())
}

} // verus!
