//! Byte-string utilities: trimming, splitting, searching, replacing and
//! decimal parsing, each specified over `Seq<u8>`.

use vstd::prelude::*;

verus! {

/// ASCII whitespace: space, tab, line feed, carriage return.
pub open spec fn is_ascii_ws(b: u8) -> bool {
    b == 32 || b == 9 || b == 10 || b == 13
}

pub open spec fn trim_front_spec(s: Seq<u8>) -> Seq<u8>
    decreases s.len(),
{
    if s.len() > 0 && is_ascii_ws(s[0]) {
        trim_front_spec(s.drop_first())
    } else {
        s
    }
}

pub open spec fn trim_back_spec(s: Seq<u8>) -> Seq<u8>
    decreases s.len(),
{
    if s.len() > 0 && is_ascii_ws(s.last()) {
        trim_back_spec(s.drop_last())
    } else {
        s
    }
}

/// The sequence with ASCII whitespace removed from both ends.
pub open spec fn trim_spec(s: Seq<u8>) -> Seq<u8> {
    trim_back_spec(trim_front_spec(s))
}

proof fn lemma_trim_front_steps(s: Seq<u8>, i: int)
    requires
        0 <= i <= s.len(),
        forall|j: int| 0 <= j < i ==> is_ascii_ws(s[j]),
    ensures
        trim_front_spec(s) == trim_front_spec(s.subrange(i, s.len() as int)),
    decreases i,
{
    if i > 0 {
        assert(s.subrange(i - 1, s.len() as int).drop_first() =~= s.subrange(i, s.len() as int));
        lemma_trim_front_steps(s, i - 1);
        assert(trim_front_spec(s.subrange(i - 1, s.len() as int))
            == trim_front_spec(s.subrange(i, s.len() as int)));
    } else {
        assert(s.subrange(0, s.len() as int) =~= s);
    }
}

proof fn lemma_trim_back_steps(s: Seq<u8>, i: int)
    requires
        0 <= i <= s.len(),
        forall|j: int| i <= j < s.len() ==> is_ascii_ws(s[j]),
    ensures
        trim_back_spec(s) == trim_back_spec(s.subrange(0, i)),
    decreases s.len() - i,
{
    if i < s.len() {
        assert(s.subrange(0, i + 1).drop_last() =~= s.subrange(0, i));
        lemma_trim_back_steps(s, i + 1);
        assert(trim_back_spec(s.subrange(0, i + 1)) == trim_back_spec(s.subrange(0, i)));
    } else {
        assert(s.subrange(0, s.len() as int) =~= s);
    }
}

/// Copy of `v` with ASCII whitespace removed from both ends.
#[verifier::loop_isolation(false)]
pub fn trim(v: &[u8]) -> (r: Vec<u8>)
    ensures
        r@ == trim_spec(v@),
{
    let n = v.len();
    let mut lo: usize = 0;
    while lo < n && (v[lo] == 32 || v[lo] == 9 || v[lo] == 10 || v[lo] == 13)
        invariant
            0 <= lo <= n,
            n == v@.len(),
            forall|j: int| 0 <= j < lo ==> is_ascii_ws(v@[j]),
        decreases n - lo,
    {
        lo += 1;
    }
    let mut hi: usize = n;
    while hi > lo && (v[hi - 1] == 32 || v[hi - 1] == 9 || v[hi - 1] == 10 || v[hi - 1] == 13)
        invariant
            lo <= hi <= n,
            n == v@.len(),
            forall|j: int| 0 <= j < lo ==> is_ascii_ws(v@[j]),
            forall|j: int| hi <= j < n ==> is_ascii_ws(v@[j]),
        decreases hi,
    {
        hi -= 1;
    }
    let mut r: Vec<u8> = Vec::new();
    let mut i: usize = lo;
    while i < hi
        invariant
            lo <= i <= hi <= n,
            n == v@.len(),
            r@ == v@.subrange(lo as int, i as int),
        decreases hi - i,
    {
        r.push(v[i]);
        i += 1;
        assert(r@ =~= v@.subrange(lo as int, i as int));
    }
    proof {
        lemma_trim_front_steps(v@, lo as int);
        let m = v@.subrange(lo as int, n as int);
        if lo < hi {
            // m is not led by whitespace, so trim_front leaves it alone.
            assert(!is_ascii_ws(m[0]));
            assert(trim_front_spec(m) == m);
            lemma_trim_back_steps(m, hi - lo);
            assert(m.subrange(0, hi - lo) =~= v@.subrange(lo as int, hi as int));
            assert(!is_ascii_ws(v@.subrange(lo as int, hi as int).last()));
            assert(trim_back_spec(v@.subrange(lo as int, hi as int))
                == v@.subrange(lo as int, hi as int));
        } else {
            // everything was whitespace: the result is empty.
            assert(m =~= Seq::<u8>::empty().add(m));
            if m.len() > 0 {
                assert(is_ascii_ws(m[0]));
            }
            lemma_trim_all_ws(m);
        }
        assert(r@ =~= v@.subrange(lo as int, hi as int));
    }
    r
}

proof fn lemma_trim_all_ws(s: Seq<u8>)
    requires
        forall|j: int| 0 <= j < s.len() ==> is_ascii_ws(s[j]),
    ensures
        trim_front_spec(s) =~= Seq::<u8>::empty(),
        trim_back_spec(trim_front_spec(s)) =~= Seq::<u8>::empty(),
    decreases s.len(),
{
    if s.len() > 0 {
        lemma_trim_all_ws(s.drop_first());
    }
}

/// True when the two slices hold the same bytes.
#[verifier::loop_isolation(false)]
pub fn bytes_eq(a: &[u8], b: &[u8]) -> (r: bool)
    ensures
        r == (a@ == b@),
{
    if a.len() != b.len() {
        assert(a@ != b@);
        return false;
    }
    let n = a.len();
    let mut i: usize = 0;
    while i < n
        invariant
            0 <= i <= n,
            n == a@.len() == b@.len(),
            forall|j: int| 0 <= j < i ==> a@[j] == b@[j],
        decreases n - i,
    {
        if a[i] != b[i] {
            return false;
        }
        i += 1;
    }
    assert(a@ =~= b@);
    true
}

pub open spec fn starts_with_spec(s: Seq<u8>, p: Seq<u8>) -> bool {
    p.len() <= s.len() && s.subrange(0, p.len() as int) == p
}

#[verifier::loop_isolation(false)]
pub fn starts_with(v: &[u8], p: &[u8]) -> (r: bool)
    ensures
        r == starts_with_spec(v@, p@),
{
    if p.len() > v.len() {
        return false;
    }
    let n = p.len();
    let mut i: usize = 0;
    while i < n
        invariant
            0 <= i <= n,
            n == p@.len() <= v@.len(),
            forall|j: int| 0 <= j < i ==> v@[j] == p@[j],
        decreases n - i,
    {
        if v[i] != p[i] {
            assert(v@.subrange(0, n as int)[i as int] != p@[i as int]);
            return false;
        }
        i += 1;
    }
    assert(v@.subrange(0, n as int) =~= p@);
    true
}

/// `p` occurs in `s` at position `i`.
pub open spec fn match_at(s: Seq<u8>, p: Seq<u8>, i: int) -> bool {
    0 <= i && i + p.len() <= s.len() && s.subrange(i, i + p.len() as int) == p
}

/// `p` occurs somewhere in `s`.
pub open spec fn contains_spec(s: Seq<u8>, p: Seq<u8>) -> bool {
    exists|i: int| match_at(s, p, i)
}

/// Position of the first occurrence of `p` in `s`, if any.
pub open spec fn first_match(s: Seq<u8>, p: Seq<u8>) -> Option<int>
    decreases s.len(),
{
    if p.len() > s.len() {
        None
    } else if s.subrange(0, p.len() as int) =~= p {
        Some(0)
    } else {
        match first_match(s.drop_first(), p) {
            Some(i) => Some(i + 1),
            None => None,
        }
    }
}

proof fn lemma_first_match_properties(s: Seq<u8>, p: Seq<u8>)
    ensures
        first_match(s, p) matches Some(i) ==> match_at(s, p, i) && forall|j: int|
            0 <= j < i ==> !match_at(s, p, j),
        first_match(s, p) is None ==> forall|j: int| !match_at(s, p, j),
        first_match(s, p) is Some <==> contains_spec(s, p),
    decreases s.len(),
{
    if p.len() > s.len() {
        assert(forall|j: int| !match_at(s, p, j));
    } else if s.subrange(0, p.len() as int) =~= p {
        assert(match_at(s, p, 0));
    } else {
        assert(s.len() > 0) by {
            if s.len() == 0 {
                assert(s.subrange(0, p.len() as int) =~= p);
            }
        }
        let t = s.drop_first();
        lemma_first_match_properties(t, p);
        assert forall|j: int| 1 <= j && match_at(s, p, j) implies match_at(t, p, j - 1) by {
            assert(t.subrange(j - 1, j - 1 + p.len() as int) =~= s.subrange(
                j,
                j + p.len() as int,
            ));
        }
        assert forall|j: int| #[trigger] match_at(t, p, j) implies match_at(s, p, j + 1) by {
            assert(s.subrange(j + 1, j + 1 + p.len() as int) =~= t.subrange(
                j,
                j + p.len() as int,
            ));
        }
        assert(!match_at(s, p, 0));
        match first_match(t, p) {
            Some(i) => {
                assert(match_at(t, p, i));
                assert(match_at(s, p, i + 1));
                assert forall|j: int| 1 <= j < i + 1 implies !match_at(s, p, j) by {
                    assert(!match_at(t, p, j - 1));
                }
            },
            None => {
                assert(forall|j: int| j >= 1 ==> !match_at(s, p, j));
                assert(forall|j: int| !match_at(s, p, j));
            },
        }
    }
}

#[verifier::loop_isolation(false)]
fn match_here(v: &[u8], p: &[u8], i: usize) -> (r: bool)
    requires
        i + p@.len() <= v@.len(),
    ensures
        r == match_at(v@, p@, i as int),
{
    let n = p.len();
    let vn = v.len();
    let mut k: usize = 0;
    while k < n
        invariant
            0 <= k <= n,
            n == p@.len(),
            vn == v@.len(),
            i + n <= vn,
            forall|j: int| 0 <= j < k ==> v@[i + j] == p@[j],
        decreases n - k,
    {
        if v[i + k] != p[k] {
            assert(v@.subrange(i as int, i + n as int)[k as int] != p@[k as int]);
            return false;
        }
        k += 1;
    }
    assert(v@.subrange(i as int, i + n as int) =~= p@);
    true
}

/// True when `p` occurs somewhere in `v`.
#[verifier::loop_isolation(false)]
pub fn contains_bytes(v: &[u8], p: &[u8]) -> (r: bool)
    ensures
        r == contains_spec(v@, p@),
{
    proof {
        lemma_first_match_properties(v@, p@);
    }
    if p.len() == 0 {
        assert(v@.subrange(0, 0) =~= p@);
        assert(match_at(v@, p@, 0));
        return true;
    }
    if p.len() > v.len() {
        return false;
    }
    let bound = v.len() - p.len();
    let mut i: usize = 0;
    while i <= bound
        invariant
            0 <= i <= bound + 1,
            bound == v@.len() - p@.len(),
            0 < p@.len() <= v@.len(),
            forall|j: int| 0 <= j < i ==> !match_at(v@, p@, j),
        decreases bound + 1 - i,
    {
        if match_here(v, p, i) {
            return true;
        }
        i += 1;
    }
    assert(forall|j: int| match_at(v@, p@, j) ==> 0 <= j <= bound);
    false
}

/// Every occurrence of the non-empty pattern `p` replaced by `r`,
/// scanning left to right.
pub open spec fn replace_spec(s: Seq<u8>, p: Seq<u8>, r: Seq<u8>) -> Seq<u8>
    recommends
        p.len() > 0,
    decreases s.len(),
{
    match first_match(s, p) {
        None => s,
        Some(i) => {
            if p.len() > 0 && 0 <= i && i + p.len() <= s.len() {
                s.subrange(0, i) + r + replace_spec(s.subrange(i + p.len() as int, s.len() as int), p, r)
            } else {
                s
            }
        },
    }
}

/// Appends all of `src` to `dst`.
#[verifier::loop_isolation(false)]
pub fn append_bytes(dst: &mut Vec<u8>, src: &[u8])
    ensures
        final(dst)@ == old(dst)@ + src@,
{
    let n = src.len();
    let mut i: usize = 0;
    while i < n
        invariant
            0 <= i <= n,
            n == src@.len(),
            dst@ == old(dst)@ + src@.subrange(0, i as int),
        decreases n - i,
    {
        dst.push(src[i]);
        i += 1;
        assert(dst@ =~= old(dst)@ + src@.subrange(0, i as int));
    }
    assert(dst@ =~= old(dst)@ + src@);
}

/// Copy of `v` with every occurrence of `p` replaced by `r`.
#[verifier::loop_isolation(false)]
pub fn replace_bytes(v: &[u8], p: &[u8], r: &[u8]) -> (out: Vec<u8>)
    ensures
        out@ == replace_spec(v@, p@, r@),
    decreases v@.len(),
{
    proof {
        lemma_first_match_properties(v@, p@);
    }
    let mut out: Vec<u8> = Vec::new();
    if p.len() == 0 {
        // an empty pattern replaces nothing
        proof {
            assert(v@.subrange(0, 0) =~= p@);
            assert(first_match(v@, p@) == Some(0int));
        }
        append_bytes(&mut out, v);
        assert(out@ =~= v@);
        return out;
    }
    if p.len() > v.len() {
        append_bytes(&mut out, v);
        assert(out@ =~= v@);
        return out;
    }
    let bound = v.len() - p.len();
    let mut i: usize = 0;
    while i <= bound
        invariant
            0 <= i <= bound + 1,
            bound == v@.len() - p@.len(),
            p@.len() > 0,
            p@.len() <= v@.len(),
            out@ == Seq::<u8>::empty(),
            forall|j: int| 0 <= j < i ==> !match_at(v@, p@, j),
        decreases bound + 1 - i,
    {
        if match_here(v, p, i) {
            // the first occurrence is at i
            append_bytes(&mut out, vstd::slice::slice_subrange(v, 0, i));
            append_bytes(&mut out, r);
            let rest = replace_bytes(vstd::slice::slice_subrange(v, i + p.len(), v.len()), p, r);
            append_bytes(&mut out, rest.as_slice());
            proof {
                assert(first_match(v@, p@) == Some(i as int)) by {
                    lemma_first_match_properties(v@, p@);
                    match first_match(v@, p@) {
                        Some(k) => {
                            assert(!(k < i) && !(i < k));
                        },
                        None => {},
                    }
                }
                assert(out@ =~= v@.subrange(0, i as int) + r@ + replace_spec(
                    v@.subrange(i + p@.len() as int, v@.len() as int),
                    p@,
                    r@,
                ));
            }
            return out;
        }
        i += 1;
    }
    assert(forall|j: int| match_at(v@, p@, j) ==> 0 <= j <= bound);
    assert(first_match(v@, p@) is None);
    append_bytes(&mut out, v);
    assert(out@ =~= v@);
    out
}

/// Position of the first `sep` byte in `s`, if any.
pub open spec fn first_byte(s: Seq<u8>, sep: u8) -> Option<int>
    decreases s.len(),
{
    if s.len() == 0 {
        None
    } else if s[0] == sep {
        Some(0)
    } else {
        match first_byte(s.drop_first(), sep) {
            Some(i) => Some(i + 1),
            None => None,
        }
    }
}
pub proof fn lemma_first_byte_at(s: Seq<u8>, sep: u8, k: int)
    requires
        0 <= k < s.len(),
        s[k] == sep,
        forall|j: int| 0 <= j < k ==> s[j] != sep,
    ensures
        first_byte(s, sep) == Some(k),
    decreases k,
{
    if k > 0 {
        lemma_first_byte_at(s.drop_first(), sep, k - 1);
    }
}

pub proof fn lemma_first_byte_none(s: Seq<u8>, sep: u8)
    requires
        forall|j: int| 0 <= j < s.len() ==> s[j] != sep,
    ensures
        first_byte(s, sep) is None,
    decreases s.len(),
{
    if s.len() > 0 {
        lemma_first_byte_none(s.drop_first(), sep);
    }
}

/// The segments of `s` between `sep` bytes; always at least one segment.
pub open spec fn split_spec(s: Seq<u8>, sep: u8) -> Seq<Seq<u8>>
    decreases s.len(),
{
    match first_byte(s, sep) {
        None => seq![s],
        Some(i) => {
            if 0 <= i < s.len() {
                seq![s.subrange(0, i)] + split_spec(s.subrange(i + 1, s.len() as int), sep)
            } else {
                seq![s]
            }
        },
    }
}

/// The views of a vector of byte vectors.
pub open spec fn views_of(vs: Seq<Vec<u8>>) -> Seq<Seq<u8>> {
    vs.map_values(|v: Vec<u8>| v@)
}

/// Splits `v` at each `sep` byte; empty segments are kept.
#[verifier::loop_isolation(false)]
pub fn split_byte(v: &[u8], sep: u8) -> (r: Vec<Vec<u8>>)
    ensures
        views_of(r@) == split_spec(v@, sep),
{
    let n = v.len();
    let mut r: Vec<Vec<u8>> = Vec::new();
    let mut start: usize = 0;
    let mut i: usize = 0;
    proof {
        assert(v@.subrange(0, n as int) =~= v@);
        assert(views_of(r@) =~= Seq::<Seq<u8>>::empty());
        assert(views_of(r@) + split_spec(v@.subrange(0, n as int), sep) =~= split_spec(v@, sep));
    }
    while i < n
        invariant
            0 <= start <= i <= n,
            n == v@.len(),
            forall|j: int| start <= j < i ==> v@[j] != sep,
            views_of(r@) + split_spec(v@.subrange(start as int, n as int), sep) =~~= split_spec(
                v@,
                sep,
            ),
        decreases n - i,
    {
        if v[i] == sep {
            let seg = vstd::slice::slice_subrange(v, start, i);
            let seg_vec = slice_to_vec_u8(seg);
            proof {
                let rest = v@.subrange(start as int, n as int);
                assert forall|j: int| 0 <= j < i - start implies rest[j] != sep by {
                    assert(rest[j] == v@[start + j]);
                }
                assert(rest[i - start] == sep);
                lemma_first_byte_at(rest, sep, i - start);
                assert(rest.subrange(0, i - start) =~= v@.subrange(start as int, i as int));
                assert(rest.subrange(i - start + 1, rest.len() as int) =~= v@.subrange(
                    i + 1,
                    n as int,
                ));
                assert(split_spec(rest, sep) == seq![v@.subrange(start as int, i as int)]
                    + split_spec(v@.subrange(i + 1, n as int), sep));
            }
            let ghost prev = r@;
            r.push(seg_vec);
            proof {
                assert(views_of(r@) =~= views_of(prev).push(seg_vec@));
            }
            start = i + 1;
            proof {
                assert(views_of(r@) + split_spec(v@.subrange(start as int, n as int), sep)
                    =~~= split_spec(v@, sep));
            }
        }
        i += 1;
    }
    let seg = vstd::slice::slice_subrange(v, start, n);
    let seg_vec = slice_to_vec_u8(seg);
    proof {
        let rest = v@.subrange(start as int, n as int);
        assert forall|j: int| 0 <= j < rest.len() implies rest[j] != sep by {
            assert(rest[j] == v@[start + j]);
        }
        lemma_first_byte_none(rest, sep);
    }
    r.push(seg_vec);
    proof {
        assert(views_of(r@) =~~= split_spec(v@, sep));
    }
    r
}

/// Copies a byte slice into a vector.
#[verifier::loop_isolation(false)]
pub fn slice_to_vec_u8(v: &[u8]) -> (r: Vec<u8>)
    ensures
        r@ == v@,
{
    let mut r: Vec<u8> = Vec::new();
    append_bytes(&mut r, v);
    assert(r@ =~= v@);
    r
}

/// The sequence with every trailing `c` byte removed.
pub open spec fn trim_trailing_spec(s: Seq<u8>, c: u8) -> Seq<u8>
    decreases s.len(),
{
    if s.len() > 0 && s.last() == c {
        trim_trailing_spec(s.drop_last(), c)
    } else {
        s
    }
}

proof fn lemma_trim_trailing_steps(s: Seq<u8>, c: u8, i: int)
    requires
        0 <= i <= s.len(),
        forall|j: int| i <= j < s.len() ==> s[j] == c,
    ensures
        trim_trailing_spec(s, c) == trim_trailing_spec(s.subrange(0, i), c),
    decreases s.len() - i,
{
    if i < s.len() {
        assert(s.subrange(0, i + 1).drop_last() =~= s.subrange(0, i));
        lemma_trim_trailing_steps(s, c, i + 1);
        assert(trim_trailing_spec(s.subrange(0, i + 1), c) == trim_trailing_spec(
            s.subrange(0, i),
            c,
        ));
    } else {
        assert(s.subrange(0, s.len() as int) =~= s);
    }
}

/// Copy of `v` with every trailing `c` byte removed.
#[verifier::loop_isolation(false)]
pub fn trim_trailing(v: &[u8], c: u8) -> (r: Vec<u8>)
    ensures
        r@ == trim_trailing_spec(v@, c),
{
    let n = v.len();
    let mut hi: usize = n;
    while hi > 0 && v[hi - 1] == c
        invariant
            0 <= hi <= n,
            n == v@.len(),
            forall|j: int| hi <= j < n ==> v@[j] == c,
        decreases hi,
    {
        hi -= 1;
    }
    let r = slice_to_vec_u8(vstd::slice::slice_subrange(v, 0, hi));
    proof {
        lemma_trim_trailing_steps(v@, c, hi as int);
        if hi > 0 {
            assert(v@.subrange(0, hi as int).last() != c);
        }
    }
    r
}

pub open spec fn is_digit(b: u8) -> bool {
    48 <= b <= 57
}

pub open spec fn all_digits(s: Seq<u8>) -> bool {
    forall|i: int| 0 <= i < s.len() ==> is_digit(#[trigger] s[i])
}

/// The value of a string of decimal digits.
pub open spec fn dec_val(s: Seq<u8>) -> nat
    decreases s.len(),
{
    if s.len() == 0 {
        0
    } else {
        dec_val(s.drop_last()) * 10 + (if s.last() >= 48 {
            (s.last() - 48) as nat
        } else {
            0
        })
    }
}

proof fn lemma_dec_val_prefix_le(s: Seq<u8>, k: int)
    requires
        0 <= k <= s.len(),
    ensures
        dec_val(s.subrange(0, k)) <= dec_val(s),
    decreases s.len() - k,
{
    if k < s.len() {
        lemma_dec_val_prefix_le(s, k + 1);
        assert(s.subrange(0, k + 1).drop_last() =~= s.subrange(0, k));
        assert(dec_val(s.subrange(0, k)) <= dec_val(s.subrange(0, k + 1)));
    } else {
        assert(s.subrange(0, s.len() as int) =~= s);
    }
}

/// The decimal value of a digit string if it is one and fits below `cap`.
pub open spec fn parse_dec_spec(s: Seq<u8>, cap: nat) -> Option<nat> {
    if s.len() > 0 && all_digits(s) && dec_val(s) <= cap {
        Some(dec_val(s))
    } else {
        None
    }
}

/// Parses an unsigned decimal numeral no greater than `cap`.
#[verifier::loop_isolation(false)]
pub fn parse_dec(v: &[u8], cap: u64) -> (r: Option<u64>)
    ensures
        r matches Some(x) ==> parse_dec_spec(v@, cap as nat) == Some(x as nat),
        r is None ==> parse_dec_spec(v@, cap as nat) is None,
{
    let n = v.len();
    if n == 0 {
        return None;
    }
    let mut acc: u128 = 0;
    let mut i: usize = 0;
    while i < n
        invariant
            0 <= i <= n,
            n == v@.len(),
            all_digits(v@.subrange(0, i as int)),
            acc == dec_val(v@.subrange(0, i as int)),
            acc <= cap,
        decreases n - i,
    {
        let b = v[i];
        if b < 48 || b > 57 {
            assert(!is_digit(v@[i as int]));
            return None;
        }
        let d = (b - 48) as u128;
        let next = acc * 10 + d;
        proof {
            assert(v@.subrange(0, i + 1).drop_last() =~= v@.subrange(0, i as int));
            assert(dec_val(v@.subrange(0, i + 1)) == acc * 10 + d);
        }
        if next > cap as u128 {
            proof {
                lemma_dec_val_prefix_le(v@, i + 1);
                assert(dec_val(v@) >= dec_val(v@.subrange(0, i + 1)));
            }
            return None;
        }
        acc = next;
        i += 1;
    }
    proof {
        assert(v@.subrange(0, n as int) =~= v@);
    }
    Some(acc as u64)
}

/// What `parse_u32` accepts: a non-empty all-digit numeral within `u32`.
pub open spec fn parse_u32_spec(s: Seq<u8>) -> Option<u32> {
    match parse_dec_spec(s, u32::MAX as nat) {
        Some(x) => Some(x as u32),
        None => None,
    }
}

/// Parses an unsigned decimal numeral into a `u32`.
pub fn parse_u32(v: &[u8]) -> (r: Option<u32>)
    ensures
        r == parse_u32_spec(v@),
{
    match parse_dec(v, 0xffff_ffff) {
        Some(x) => Some(x as u32),
        None => None,
    }
}

/// What `parse_i64` accepts: an optional minus sign followed by digits,
/// within the range of `i64`.
pub open spec fn parse_i64_spec(s: Seq<u8>) -> Option<i64> {
    if s.len() >= 1 && s[0] == 45 {
        match parse_dec_spec(s.subrange(1, s.len() as int), 0x8000_0000_0000_0000) {
            Some(m) => Some((-(m as int)) as i64),
            None => None,
        }
    } else {
        match parse_dec_spec(s, i64::MAX as nat) {
            Some(m) => Some(m as i64),
            None => None,
        }
    }
}

/// Parses a signed decimal numeral into an `i64`.
pub fn parse_i64(v: &[u8]) -> (r: Option<i64>)
    ensures
        r == parse_i64_spec(v@),
{
    if v.len() >= 1 && v[0] == 45 {
        let rest = vstd::slice::slice_subrange(v, 1, v.len());
        match parse_dec(rest, 0x8000_0000_0000_0000) {
            Some(m) => {
                if m == 0x8000_0000_0000_0000 {
                    Some(i64::MIN)
                } else {
                    Some(-(m as i64))
                }
            },
            None => None,
        }
    } else {
        match parse_dec(v, 0x7fff_ffff_ffff_ffff) {
            Some(m) => Some(m as i64),
            None => None,
        }
    }
}

} // verus!
