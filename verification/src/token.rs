//! Per-domain credential pool: round-robin token selection with quota
//! bookkeeping, lazy quota resets and permanent invalidation.

use vstd::prelude::*;

use crate::bytes::{bytes_eq, slice_to_vec_u8, split_byte, split_spec, trim, trim_spec, views_of};

verus! {

/// One credential in a domain's rotation pool.
///
/// `valid` is tri-state: `None` means the token has never been observed in
/// a response (validity unknown), `Some(true)` that it worked at least
/// once, `Some(false)` that the server rejected it (permanent for the
/// process).  `remaining`/`limit` are the last quota snapshot; `reset_at`
/// is the Unix-second timestamp at which the quota window reopens.
#[derive(Debug, Clone)]
pub struct Token {
    pub value: Vec<u8>,
    pub valid: Option<bool>,
    pub remaining: Option<u32>,
    pub limit: u32,
    pub reset_at: Option<i64>,
}

/// A token may be used: it is not known-invalid, and it has quota left
/// (an unknown remaining count is treated as available).
pub open spec fn token_available(t: Token) -> bool {
    t.valid == Some(true) && match t.remaining {
        Some(r) => r > 0,
        None => true,
    }
}

/// The lazy reset pass applied to one token: once `now` has passed the
/// reset time, the quota is restored to the limit and the reset time
/// cleared.  Validity is never touched, so an invalid token stays invalid.
pub open spec fn token_after_reset(t: Token, now: i64) -> Token {
    match t.reset_at {
        Some(r) => if now > r {
            Token { remaining: Some(t.limit), reset_at: None, ..t }
        } else {
            t
        },
        None => t,
    }
}

pub open spec fn all_after_reset(ts: Seq<Token>, now: i64) -> Seq<Token> {
    ts.map_values(|t: Token| token_after_reset(t, now))
}

/// Every token's validity is still unknown: no selection may happen yet.
pub open spec fn all_validity_unknown(ts: Seq<Token>) -> bool {
    forall|i: int| 0 <= i < ts.len() ==> (#[trigger] ts[i]).valid is None
}

/// No token passes the availability predicate (vacuously true of an
/// empty pool).
pub open spec fn all_exhausted_spec(ts: Seq<Token>) -> bool {
    forall|i: int| 0 <= i < ts.len() ==> !token_available(#[trigger] ts[i])
}

/// The values of a token sequence, as byte sequences.
pub open spec fn token_views(ts: Seq<Token>) -> Seq<Seq<u8>> {
    ts.map_values(|t: Token| t.value@)
}

/// Index of the first token whose value reads `v`, if any.
pub open spec fn find_token(ts: Seq<Token>, v: Seq<u8>) -> Option<int>
    decreases ts.len(),
{
    if ts.len() == 0 {
        None
    } else if ts[0].value@ == v {
        Some(0)
    } else {
        match find_token(ts.drop_first(), v) {
            Some(i) => Some(i + 1),
            None => None,
        }
    }
}

pub proof fn lemma_find_token_properties(ts: Seq<Token>, v: Seq<u8>)
    ensures
        find_token(ts, v) matches Some(i) ==> 0 <= i < ts.len() && ts[i].value@ == v
            && forall|j: int| 0 <= j < i ==> ts[j].value@ != v,
        find_token(ts, v) is None ==> forall|j: int| 0 <= j < ts.len() ==> ts[j].value@ != v,
    decreases ts.len(),
{
    if ts.len() == 0 {
    } else if ts[0].value@ == v {
    } else {
        let t = ts.drop_first();
        lemma_find_token_properties(t, v);
        assert(forall|j: int| 0 <= j < t.len() ==> t[j] == ts[j + 1]);
        match find_token(t, v) {
            Some(i) => {
                assert(ts[i + 1] == t[i]);
                assert forall|j: int| 0 <= j < i + 1 implies ts[j].value@ != v by {
                    if j > 0 {
                        assert(ts[j] == t[j - 1]);
                    }
                }
            },
            None => {
                assert forall|j: int| 0 <= j < ts.len() implies ts[j].value@ != v by {
                    if j > 0 {
                        assert(ts[j] == t[j - 1]);
                    }
                }
            },
        }
    }
}

/// The comma-separated entries of `raw`, each trimmed, blanks dropped.
pub open spec fn cleaned_tokens(segs: Seq<Seq<u8>>) -> Seq<Seq<u8>>
    decreases segs.len(),
{
    if segs.len() == 0 {
        Seq::empty()
    } else {
        let t = trim_spec(segs[0]);
        let rest = cleaned_tokens(segs.drop_first());
        if t.len() == 0 {
            rest
        } else {
            seq![t] + rest
        }
    }
}

/// The token values a raw environment string yields: split on commas,
/// trimmed, with empty entries dropped.
pub open spec fn token_values_of(raw: Seq<u8>) -> Seq<Seq<u8>> {
    cleaned_tokens(split_spec(raw, 44))
}

proof fn lemma_cleaned_singleton(x: Seq<u8>)
    ensures
        cleaned_tokens(seq![x]) == if trim_spec(x).len() == 0 {
            Seq::<Seq<u8>>::empty()
        } else {
            seq![trim_spec(x)]
        },
{
    assert(seq![x].drop_first() =~= Seq::<Seq<u8>>::empty());
    assert(cleaned_tokens(Seq::<Seq<u8>>::empty()) =~= Seq::<Seq<u8>>::empty());
    assert(seq![x][0] == x);
    if trim_spec(x).len() != 0 {
        assert(seq![trim_spec(x)] + Seq::<Seq<u8>>::empty() =~= seq![trim_spec(x)]);
    }
}

proof fn lemma_cleaned_concat(a: Seq<Seq<u8>>, b: Seq<Seq<u8>>)
    ensures
        cleaned_tokens(a + b) == cleaned_tokens(a) + cleaned_tokens(b),
    decreases a.len(),
{
    if a.len() == 0 {
        assert(a + b =~= b);
        assert(cleaned_tokens(a) + cleaned_tokens(b) =~= cleaned_tokens(b));
    } else {
        lemma_cleaned_concat(a.drop_first(), b);
        assert((a + b).drop_first() =~= a.drop_first() + b);
        assert((a + b)[0] == a[0]);
        let t = trim_spec(a[0]);
        if t.len() == 0 {
            assert(cleaned_tokens(a + b) == cleaned_tokens(a.drop_first()) + cleaned_tokens(b));
        } else {
            assert(cleaned_tokens(a + b) =~= (seq![t] + cleaned_tokens(a.drop_first()))
                + cleaned_tokens(b));
        }
    }
}

impl Token {
    /// A freshly loaded token: unknown validity, no quota snapshot.
    pub fn new(value: Vec<u8>) -> (r: Token)
        ensures
            r.value@ == value@,
            r.valid is None,
            r.remaining is None,
            r.limit == 0,
            r.reset_at is None,
    {
        Token { value, valid: None, remaining: None, limit: 0, reset_at: None }
    }

    /// Whether this token may be handed out for a request.
    pub fn is_available(&self) -> (r: bool)
        ensures
            r == token_available(*self),
    {
        match (self.valid, self.remaining) {
            (Some(true), Some(rem)) => rem > 0,
            (Some(true), None) => true,
            _ => false,
        }
    }
}

/// The credential pool for one domain: an ordered token list and a
/// rotation cursor.  The environment variable name is carried so the
/// caller knows where the raw token string comes from.
#[derive(Debug)]
pub struct TokenRateLimiter {
    pub tokens: Vec<Token>,
    pub cursor: usize,
    pub env_var: Vec<u8>,
}

impl TokenRateLimiter {
    /// An empty pool for the given environment variable name.
    pub fn new(env_var: Vec<u8>) -> (r: TokenRateLimiter)
        ensures
            r.tokens@.len() == 0,
            r.cursor == 0,
            r.env_var@ == env_var@,
    {
        TokenRateLimiter { tokens: Vec::new(), cursor: 0, env_var }
    }

    /// How many tokens the pool holds.
    pub fn token_count(&self) -> (r: usize)
        ensures
            r == self.tokens@.len(),
    {
        self.tokens.len()
    }

    /// Replaces the pool with fresh tokens parsed from `raw`: the value
    /// is split on commas, entries are trimmed, and blanks are dropped.
    #[verifier::loop_isolation(false)]
    pub fn load_tokens(&mut self, raw: &[u8])
        ensures
            final(self).tokens@.len() == token_values_of(raw@).len(),
            forall|i: int|
                0 <= i < final(self).tokens@.len() ==> {
                    let t = #[trigger] final(self).tokens@[i];
                    t.value@ == token_values_of(raw@)[i] && t.valid is None && t.remaining is None
                        && t.limit == 0 && t.reset_at is None
                },
            final(self).cursor == old(self).cursor,
            final(self).env_var@ == old(self).env_var@,
    {
        let segs = split_byte(raw, 44);
        let n = segs.len();
        let mut toks: Vec<Token> = Vec::new();
        let ghost seg_views = views_of(segs@);
        proof {
            assert(seg_views.subrange(0, 0) =~= Seq::<Seq<u8>>::empty());
        }
        let mut i: usize = 0;
        while i < n
            invariant
                0 <= i <= n,
                n == segs@.len(),
                seg_views == views_of(segs@),
                seg_views == split_spec(raw@, 44),
                token_views(toks@) == cleaned_tokens(seg_views.subrange(0, i as int)),
                forall|j: int|
                    0 <= j < toks@.len() ==> {
                        let t = #[trigger] toks@[j];
                        t.valid is None && t.remaining is None && t.limit == 0 && t.reset_at is None
                    },
            decreases n - i,
        {
            let trimmed = trim(segs[i].as_slice());
            proof {
                assert(seg_views.subrange(0, i + 1).drop_last() =~= seg_views.subrange(0, i as int));
                lemma_cleaned_concat(seg_views.subrange(0, i as int), seq![seg_views[i as int]]);
                assert(seg_views.subrange(0, i + 1) =~= seg_views.subrange(0, i as int) + seq![
                    seg_views[i as int],
                ]);
                lemma_cleaned_singleton(seg_views[i as int]);
            }
            if trimmed.len() > 0 {
                let ghost prev = toks@;
                toks.push(Token::new(trimmed));
                proof {
                    assert(token_views(toks@) =~= token_views(prev).push(trim_spec(seg_views[i as int])));
                    assert(token_views(toks@) =~= cleaned_tokens(seg_views.subrange(0, i as int))
                        + seq![trim_spec(seg_views[i as int])]);
                }
            }
            proof {
                assert(token_views(toks@) =~= cleaned_tokens(seg_views.subrange(0, i + 1)));
            }
            i += 1;
        }
        proof {
            assert(seg_views.subrange(0, n as int) =~= seg_views);
        }
        self.tokens = toks;
    }

    /// True when no token in the pool is currently available, which
    /// covers the empty pool and a pool of tokens never yet validated.
    #[verifier::loop_isolation(false)]
    pub fn all_tokens_exhausted(&self) -> (r: bool)
        ensures
            r == all_exhausted_spec(self.tokens@),
    {
        let n = self.tokens.len();
        let mut i: usize = 0;
        while i < n
            invariant
                0 <= i <= n,
                n == self.tokens@.len(),
                forall|j: int| 0 <= j < i ==> !token_available(#[trigger] self.tokens@[j]),
            decreases n - i,
        {
            if self.tokens[i].is_available() {
                return false;
            }
            i += 1;
        }
        true
    }
}

/// Offset (from `start`, counted modulo the pool size) of the first
/// available token at offset `k` or beyond, scanning one full cycle.
pub open spec fn first_available_offset(ts: Seq<Token>, start: int, k: int) -> Option<int>
    decreases ts.len() - k,
{
    if k < 0 || k >= ts.len() {
        None
    } else if token_available(ts[(start + k) % (ts.len() as int)]) {
        Some(k)
    } else {
        first_available_offset(ts, start, k + 1)
    }
}

/// The value the next selection returns, if any: after the lazy reset
/// pass, `None` for an empty pool, a pool of unknown validity, or a pool
/// with no available token; otherwise the first available token at or
/// after the cursor.
pub open spec fn next_token_value(ts: Seq<Token>, cursor: int, now: i64) -> Option<Seq<u8>> {
    let rs = all_after_reset(ts, now);
    let n = rs.len() as int;
    if n == 0 || all_validity_unknown(rs) {
        None
    } else {
        match first_available_offset(rs, cursor % n, 0) {
            Some(k) => Some(rs[(cursor % n + k) % n].value@),
            None => None,
        }
    }
}

/// Where the rotation cursor stands after one selection.
pub open spec fn next_cursor(ts: Seq<Token>, cursor: int, now: i64) -> int {
    let rs = all_after_reset(ts, now);
    let n = rs.len() as int;
    if n == 0 || all_validity_unknown(rs) {
        cursor
    } else {
        match first_available_offset(rs, cursor % n, 0) {
            Some(k) => (cursor % n + k + 1) % n,
            None => cursor,
        }
    }
}

impl TokenRateLimiter {
    /// The lazy reset pass: every token whose reset time has elapsed gets
    /// its remaining quota restored to its limit and its reset time
    /// cleared.
    #[verifier::loop_isolation(false)]
    fn check_reset(&mut self, now: i64)
        ensures
            final(self).tokens@ == all_after_reset(old(self).tokens@, now),
            final(self).cursor == old(self).cursor,
            final(self).env_var@ == old(self).env_var@,
    {
        let n = self.tokens.len();
        let mut i: usize = 0;
        while i < n
            invariant
                0 <= i <= n,
                n == self.tokens@.len(),
                self.tokens@.len() == old(self).tokens@.len(),
                forall|j: int|
                    0 <= j < i ==> self.tokens@[j] == token_after_reset(
                        old(self).tokens@[j],
                        now,
                    ),
                forall|j: int| i <= j < n ==> self.tokens@[j] == old(self).tokens@[j],
                self.cursor == old(self).cursor,
                self.env_var@ == old(self).env_var@,
            decreases n - i,
        {
            let needs_reset = match self.tokens[i].reset_at {
                Some(r) => now > r,
                None => false,
            };
            if needs_reset {
                let mut tmp = Token::new(Vec::new());
                self.tokens.set_and_swap(i, &mut tmp);
                tmp.remaining = Some(tmp.limit);
                tmp.reset_at = None;
                self.tokens.set_and_swap(i, &mut tmp);
            }
            i += 1;
        }
        proof {
            assert(self.tokens@ =~= all_after_reset(old(self).tokens@, now));
        }
    }

    /// Selects the next token value in rotation: runs the reset pass,
    /// fails fast on an empty or never-validated pool, then scans at most
    /// one full cycle from the cursor for the first available token.
    #[verifier::loop_isolation(false)]
    pub fn get_next_token(&mut self, now: i64) -> (r: Option<Vec<u8>>)
        ensures
            final(self).tokens@ == all_after_reset(old(self).tokens@, now),
            final(self).env_var@ == old(self).env_var@,
            (match r {
                Some(v) => Some(v@),
                None => None,
            }) == next_token_value(old(self).tokens@, old(self).cursor as int, now),
            final(self).cursor as int == next_cursor(old(self).tokens@, old(self).cursor as int, now),
    {
        self.check_reset(now);
        let ghost rs = self.tokens@;
        let n = self.tokens.len();
        if n == 0 {
            return None;
        }
        let mut all_unknown = true;
        let mut i: usize = 0;
        while i < n && all_unknown
            invariant
                0 <= i <= n,
                n == rs.len(),
                self.tokens@ == rs,
                self.cursor == old(self).cursor,
                self.env_var@ == old(self).env_var@,
                all_unknown ==> forall|j: int| 0 <= j < i ==> (#[trigger] rs[j]).valid is None,
                !all_unknown ==> !all_validity_unknown(rs),
            decreases n - i,
        {
            if self.tokens[i].valid.is_some() {
                all_unknown = false;
                assert(!((#[trigger] rs[i as int]).valid is None));
            }
            i += 1;
        }
        if all_unknown {
            assert(all_validity_unknown(rs));
            return None;
        }
        let start = self.cursor % n;
        proof {
            vstd::arithmetic::div_mod::lemma_small_mod(start as nat, n as nat);
        }
        let mut idx: usize = start;
        let mut k: usize = 0;
        while k < n
            invariant
                0 <= k <= n,
                0 <= start < n,
                0 <= idx < n,
                n == rs.len(),
                self.tokens@ == rs,
                self.cursor == old(self).cursor,
                self.env_var@ == old(self).env_var@,
                start == old(self).cursor as int % (n as int),
                idx as int == (start + k) % (n as int),
                first_available_offset(rs, start as int, 0) == first_available_offset(
                    rs,
                    start as int,
                    k as int,
                ),
            decreases n - k,
        {
            if self.tokens[idx].is_available() {
                let value = slice_to_vec_u8(self.tokens[idx].value.as_slice());
                self.cursor = if idx + 1 >= n {
                    0
                } else {
                    idx + 1
                };
                proof {
                    assert(first_available_offset(rs, start as int, k as int) == Some(k as int));
                    let a = start + k as int;
                    vstd::arithmetic::div_mod::lemma_add_mod_noop(a, 1, n as int);
                    if n > 1 {
                        vstd::arithmetic::div_mod::lemma_small_mod(1nat, n as nat);
                    } else {
                        assert(idx == 0 && start == 0);
                        vstd::arithmetic::div_mod::lemma_small_mod(0nat, n as nat);
                    }
                    assert((a + 1) % (n as int) == ((idx as int) + 1) % (n as int));
                    if idx + 1 >= n {
                        assert(idx as int + 1 == n);
                        vstd::arithmetic::div_mod::lemma_mod_self_0(n as int);
                        assert(self.cursor as int == (a + 1) % (n as int));
                    } else {
                        vstd::arithmetic::div_mod::lemma_small_mod((idx + 1) as nat, n as nat);
                        assert(self.cursor as int == (a + 1) % (n as int));
                    }
                }
                return Some(value);
            }
            proof {
                assert(first_available_offset(rs, start as int, k as int)
                    == first_available_offset(rs, start as int, k as int + 1));
                let a = start + k as int;
                vstd::arithmetic::div_mod::lemma_add_mod_noop(a, 1, n as int);
                if n > 1 {
                    vstd::arithmetic::div_mod::lemma_small_mod(1nat, n as nat);
                } else {
                    vstd::arithmetic::div_mod::lemma_small_mod(0nat, n as nat);
                }
                assert((a + 1) % (n as int) == ((idx as int) + 1) % (n as int));
                if idx + 1 >= n {
                    assert(idx as int + 1 == n);
                    vstd::arithmetic::div_mod::lemma_mod_self_0(n as int);
                } else {
                    vstd::arithmetic::div_mod::lemma_small_mod((idx + 1) as nat, n as nat);
                }
            }
            idx = if idx + 1 >= n {
                0
            } else {
                idx + 1
            };
            k += 1;
        }
        assert(first_available_offset(rs, start as int, 0) is None);
        None
    }
}

/// The pool after a quota snapshot lands on the first token named
/// `v`: it becomes valid with the given snapshot; an unknown value
/// changes nothing.
pub open spec fn pool_after_update(
    ts: Seq<Token>,
    v: Seq<u8>,
    remaining: u32,
    limit: u32,
    reset_at: Option<i64>,
) -> Seq<Token> {
    match find_token(ts, v) {
        Some(i) => ts.update(
            i,
            Token {
                value: ts[i].value,
                valid: Some(true),
                remaining: Some(remaining),
                limit,
                reset_at,
            },
        ),
        None => ts,
    }
}

/// The pool after the first token named `v` is marked invalid.
pub open spec fn pool_after_invalid(ts: Seq<Token>, v: Seq<u8>) -> Seq<Token> {
    match find_token(ts, v) {
        Some(i) => ts.update(
            i,
            Token {
                value: ts[i].value,
                valid: Some(false),
                remaining: Some(0u32),
                limit: ts[i].limit,
                reset_at: ts[i].reset_at,
            },
        ),
        None => ts,
    }
}

/// The pool after the first token named `v` is marked rate-limited:
/// still valid, no quota left, reset at the given time or a minute from
/// `now` when the server gave none.
pub open spec fn pool_after_rate_limit(
    ts: Seq<Token>,
    v: Seq<u8>,
    reset_at: Option<i64>,
    now: i64,
) -> Seq<Token> {
    match find_token(ts, v) {
        Some(i) => ts.update(
            i,
            Token {
                value: ts[i].value,
                valid: Some(true),
                remaining: Some(0u32),
                limit: ts[i].limit,
                reset_at: Some(
                    match reset_at {
                        Some(r) => r,
                        None => (now + 60) as i64,
                    },
                ),
            },
        ),
        None => ts,
    }
}

pub proof fn lemma_find_token_at(ts: Seq<Token>, v: Seq<u8>, k: int)
    requires
        0 <= k < ts.len(),
        ts[k].value@ == v,
        forall|j: int| 0 <= j < k ==> ts[j].value@ != v,
    ensures
        find_token(ts, v) == Some(k),
    decreases k,
{
    if k > 0 {
        let t = ts.drop_first();
        assert(forall|j: int| 0 <= j < t.len() ==> t[j] == ts[j + 1]);
        lemma_find_token_at(t, v, k - 1);
    }
}

pub proof fn lemma_find_token_none(ts: Seq<Token>, v: Seq<u8>)
    requires
        forall|j: int| 0 <= j < ts.len() ==> ts[j].value@ != v,
    ensures
        find_token(ts, v) is None,
    decreases ts.len(),
{
    if ts.len() > 0 {
        let t = ts.drop_first();
        assert(forall|j: int| 0 <= j < t.len() ==> t[j] == ts[j + 1]);
        lemma_find_token_none(t, v);
    }
}

impl TokenRateLimiter {
    /// Index of the first token whose value reads `token_value`.
    #[verifier::loop_isolation(false)]
    fn find_index(&self, token_value: &[u8]) -> (r: Option<usize>)
        ensures
            (match r {
                Some(i) => Some(i as int),
                None => None,
            }) == find_token(self.tokens@, token_value@),
    {
        let n = self.tokens.len();
        let mut i: usize = 0;
        while i < n
            invariant
                0 <= i <= n,
                n == self.tokens@.len(),
                forall|j: int| 0 <= j < i ==> (#[trigger] self.tokens@[j]).value@ != token_value@,
            decreases n - i,
        {
            if bytes_eq(self.tokens[i].value.as_slice(), token_value) {
                proof {
                    lemma_find_token_at(self.tokens@, token_value@, i as int);
                }
                return Some(i);
            }
            i += 1;
        }
        proof {
            lemma_find_token_none(self.tokens@, token_value@);
        }
        None
    }

    /// Records a fresh quota snapshot for the named token after a
    /// successful authenticated response: it becomes valid and takes the
    /// given remaining count, limit and reset time.  A value not in the
    /// pool changes nothing.
    pub fn update_token(
        &mut self,
        token_value: &[u8],
        remaining: u32,
        limit: u32,
        reset_at: Option<i64>,
    )
        ensures
            final(self).cursor == old(self).cursor,
            final(self).env_var@ == old(self).env_var@,
            final(self).tokens@.len() == old(self).tokens@.len(),
            final(self).tokens@ == pool_after_update(
                old(self).tokens@,
                token_value@,
                remaining,
                limit,
                reset_at,
            ),
    {
        match self.find_index(token_value) {
            Some(i) => {
                proof {
                    lemma_find_token_properties(self.tokens@, token_value@);
                }
                let mut tmp = Token::new(Vec::new());
                self.tokens.set_and_swap(i, &mut tmp);
                tmp.remaining = Some(remaining);
                tmp.limit = limit;
                tmp.reset_at = reset_at;
                tmp.valid = Some(true);
                self.tokens.set_and_swap(i, &mut tmp);
            },
            None => {},
        }
    }

    /// Marks the named token permanently invalid (a rejected credential):
    /// validity becomes `Some(false)` and the remaining quota zero.
    pub fn mark_invalid(&mut self, token_value: &[u8])
        ensures
            final(self).cursor == old(self).cursor,
            final(self).env_var@ == old(self).env_var@,
            final(self).tokens@.len() == old(self).tokens@.len(),
            final(self).tokens@ == pool_after_invalid(old(self).tokens@, token_value@),
    {
        match self.find_index(token_value) {
            Some(i) => {
                proof {
                    lemma_find_token_properties(self.tokens@, token_value@);
                }
                let mut tmp = Token::new(Vec::new());
                self.tokens.set_and_swap(i, &mut tmp);
                tmp.valid = Some(false);
                tmp.remaining = Some(0);
                self.tokens.set_and_swap(i, &mut tmp);
            },
            None => {},
        }
    }

    /// Marks the named token rate-limited (still a valid credential, just
    /// exhausted): the remaining quota becomes zero and the reset time the
    /// given one, or one minute from `now` when the server gave none.
    pub fn mark_rate_limited(&mut self, token_value: &[u8], reset_at: Option<i64>, now: i64)
        requires
            now <= i64::MAX - 60,
        ensures
            final(self).cursor == old(self).cursor,
            final(self).env_var@ == old(self).env_var@,
            final(self).tokens@.len() == old(self).tokens@.len(),
            final(self).tokens@ == pool_after_rate_limit(
                old(self).tokens@,
                token_value@,
                reset_at,
                now,
            ),
    {
        match self.find_index(token_value) {
            Some(i) => {
                proof {
                    lemma_find_token_properties(self.tokens@, token_value@);
                }
                let mut tmp = Token::new(Vec::new());
                self.tokens.set_and_swap(i, &mut tmp);
                tmp.remaining = Some(0);
                tmp.valid = Some(true);
                tmp.reset_at = match reset_at {
                    Some(r) => Some(r),
                    None => Some(now + 60),
                };
                self.tokens.set_and_swap(i, &mut tmp);
            },
            None => {},
        }
    }

    /// Applies the outcome of one validation request per token, in pool
    /// order: a quota snapshot marks the token valid and records the
    /// snapshot; a failed validation marks it invalid with no quota.
    #[verifier::loop_isolation(false)]
    pub fn apply_validation_results(&mut self, results: &Vec<Option<(u32, u32, Option<i64>)>>)
        ensures
            final(self).cursor == old(self).cursor,
            final(self).env_var@ == old(self).env_var@,
            final(self).tokens@.len() == old(self).tokens@.len(),
            forall|i: int|
                0 <= i < old(self).tokens@.len() ==> {
                    let t0 = old(self).tokens@[i];
                    let t1 = #[trigger] final(self).tokens@[i];
                    if i < results@.len() {
                        match results@[i] {
                            Some(snap) => {
                                &&& t1.value@ == t0.value@
                                &&& t1.valid == Some(true)
                                &&& t1.remaining == Some(snap.0)
                                &&& t1.limit == snap.1
                                &&& t1.reset_at == snap.2
                            },
                            None => {
                                &&& t1.value@ == t0.value@
                                &&& t1.valid == Some(false)
                                &&& t1.remaining == Some(0u32)
                                &&& t1.limit == t0.limit
                                &&& t1.reset_at == t0.reset_at
                            },
                        }
                    } else {
                        t1 == t0
                    }
                },
    {
        let n = self.tokens.len();
        let m = results.len();
        let mut i: usize = 0;
        while i < n && i < m
            invariant
                0 <= i <= n,
                i <= m,
                n == self.tokens@.len(),
                m == results@.len(),
                self.tokens@.len() == old(self).tokens@.len(),
                self.cursor == old(self).cursor,
                self.env_var@ == old(self).env_var@,
                forall|j: int| i <= j < n ==> (#[trigger] self.tokens@[j]) == old(self).tokens@[j],
                forall|j: int|
                    0 <= j < i ==> {
                        let t0 = old(self).tokens@[j];
                        let t1 = #[trigger] self.tokens@[j];
                        match results@[j] {
                            Some(snap) => {
                                &&& t1.value@ == t0.value@
                                &&& t1.valid == Some(true)
                                &&& t1.remaining == Some(snap.0)
                                &&& t1.limit == snap.1
                                &&& t1.reset_at == snap.2
                            },
                            None => {
                                &&& t1.value@ == t0.value@
                                &&& t1.valid == Some(false)
                                &&& t1.remaining == Some(0u32)
                                &&& t1.limit == t0.limit
                                &&& t1.reset_at == t0.reset_at
                            },
                        }
                    },
            decreases n - i,
        {
            let mut tmp = Token::new(Vec::new());
            self.tokens.set_and_swap(i, &mut tmp);
            match results[i] {
                Some((rem, lim, rst)) => {
                    tmp.remaining = Some(rem);
                    tmp.limit = lim;
                    tmp.reset_at = rst;
                    tmp.valid = Some(true);
                },
                None => {
                    tmp.valid = Some(false);
                    tmp.remaining = Some(0);
                },
            }
            self.tokens.set_and_swap(i, &mut tmp);
            i += 1;
        }
    }
}

pub proof fn lemma_first_available_props(ts: Seq<Token>, start: int, k: int)
    requires
        ts.len() > 0,
    ensures
        first_available_offset(ts, start, k) matches Some(j) ==> k <= j < ts.len()
            && token_available(ts[(start + j) % (ts.len() as int)]),
    decreases ts.len() - k,
{
    if k < 0 || k >= ts.len() {
    } else if token_available(ts[(start + k) % (ts.len() as int)]) {
    } else {
        lemma_first_available_props(ts, start, k + 1);
    }
}

/// With every token of a three-token pool available and no reset
/// pending, three consecutive selections return the tokens at three
/// distinct indices — each token exactly once before any repeat.
pub proof fn lemma_round_robin_no_repeat(ts: Seq<Token>, cursor: int, now: i64)
    requires
        ts.len() == 3,
        cursor >= 0,
        forall|i: int| 0 <= i < 3 ==> token_available(#[trigger] ts[i]),
        forall|i: int| 0 <= i < 3 ==> (#[trigger] ts[i]).reset_at is None,
    ensures
        all_after_reset(ts, now) == ts,
        ({
            let c0 = cursor % 3;
            let c1 = next_cursor(ts, cursor, now);
            let c2 = next_cursor(ts, c1, now);
            &&& next_token_value(ts, cursor, now) == Some(ts[c0].value@)
            &&& next_token_value(ts, c1, now) == Some(ts[(c0 + 1) % 3].value@)
            &&& next_token_value(ts, c2, now) == Some(ts[(c0 + 2) % 3].value@)
            &&& c0 != (c0 + 1) % 3
            &&& c0 != (c0 + 2) % 3
            &&& (c0 + 1) % 3 != (c0 + 2) % 3
        }),
{
    assert(all_after_reset(ts, now) =~= ts);
    let c0 = cursor % 3;
    vstd::arithmetic::div_mod::lemma_mod_pos_bound(cursor, 3);
    assert(0 <= c0 < 3);
    assert forall|s: int| 0 <= s < 3 implies first_available_offset(ts, s, 0) == Some(0int)
        && next_token_value(ts, s, now) == Some(ts[s].value@) && next_cursor(ts, s, now) == (s + 1)
        % 3 by {
        vstd::arithmetic::div_mod::lemma_small_mod(s as nat, 3nat);
        assert(token_available(ts[(s + 0) % 3]));
        assert(!all_validity_unknown(ts)) by {
            assert(ts[0].valid == Some(true));
        }
    }
    assert(next_token_value(ts, cursor, now) == Some(ts[c0].value@)) by {
        assert(!all_validity_unknown(ts)) by {
            assert(ts[0].valid == Some(true));
        }
        assert(first_available_offset(ts, c0, 0) == Some(0int)) by {
            vstd::arithmetic::div_mod::lemma_small_mod(c0 as nat, 3nat);
        }
        vstd::arithmetic::div_mod::lemma_small_mod(c0 as nat, 3nat);
    }
    let c1 = next_cursor(ts, cursor, now);
    assert(c1 == (c0 + 1) % 3) by {
        vstd::arithmetic::div_mod::lemma_small_mod(c0 as nat, 3nat);
    }
    vstd::arithmetic::div_mod::lemma_mod_pos_bound(c0 + 1, 3);
    assert(next_token_value(ts, c1, now) == Some(ts[c1].value@));
    let c2 = next_cursor(ts, c1, now);
    assert(c2 == (c1 + 1) % 3);
    vstd::arithmetic::div_mod::lemma_mod_pos_bound(c1 + 1, 3);
    assert(next_token_value(ts, c2, now) == Some(ts[c2].value@));
    assert(c2 == (c0 + 2) % 3) by {
        if c0 + 1 < 3 {
            vstd::arithmetic::div_mod::lemma_small_mod((c0 + 1) as nat, 3nat);
            if c0 + 2 < 3 {
                vstd::arithmetic::div_mod::lemma_small_mod((c0 + 2) as nat, 3nat);
            } else {
                assert(c0 + 2 == 3 || c0 + 2 == 4);
                vstd::arithmetic::div_mod::lemma_mod_self_0(3);
                vstd::arithmetic::div_mod::lemma_mod_sub_multiples_vanish(c0 + 2, 3);
                vstd::arithmetic::div_mod::lemma_small_mod((c0 + 2 - 3) as nat, 3nat);
            }
        } else {
            assert(c0 == 2);
            vstd::arithmetic::div_mod::lemma_mod_self_0(3);
            vstd::arithmetic::div_mod::lemma_mod_sub_multiples_vanish(c0 + 2, 3);
            vstd::arithmetic::div_mod::lemma_small_mod(1nat, 3nat);
        }
    }
    assert(c0 != (c0 + 1) % 3 && c0 != (c0 + 2) % 3 && (c0 + 1) % 3 != (c0 + 2) % 3) by {
        vstd::arithmetic::div_mod::lemma_mod_pos_bound(c0 + 1, 3);
        vstd::arithmetic::div_mod::lemma_mod_pos_bound(c0 + 2, 3);
        vstd::arithmetic::div_mod::lemma_fundamental_div_mod(c0 + 1, 3);
        vstd::arithmetic::div_mod::lemma_fundamental_div_mod(c0 + 2, 3);
    }
}

/// A token marked invalid stays unavailable through any reset pass, and
/// a selection never returns its value (token values being distinct).
pub proof fn lemma_invalid_token_never_selected(ts: Seq<Token>, cursor: int, now: i64, bad: int)
    requires
        0 <= bad < ts.len(),
        ts[bad].valid == Some(false),
        forall|j: int| 0 <= j < ts.len() && j != bad ==> (#[trigger] ts[j]).value@
            != ts[bad].value@,
    ensures
        !token_available(token_after_reset(ts[bad], now)),
        next_token_value(ts, cursor, now) matches Some(v) ==> v != ts[bad].value@,
{
    let rs = all_after_reset(ts, now);
    let n = ts.len() as int;
    assert(rs[bad].valid == Some(false));
    assert(!token_available(rs[bad]));
    if n == 0 || all_validity_unknown(rs) {
    } else {
        let start = cursor % n;
        match first_available_offset(rs, start, 0) {
            Some(k) => {
                lemma_first_available_props(rs, start, 0);
                let idx = (start + k) % n;
                vstd::arithmetic::div_mod::lemma_mod_pos_bound(start + k, n);
                assert(token_available(rs[idx]));
                assert(idx != bad);
                assert(rs[idx].value@ == ts[idx].value@);
            },
            None => {},
        }
    }
}

/// A rate-limited token whose reset time has passed is available again
/// on the very next selection pass, and a pool holding it alone then
/// returns it.  (A token whose quota limit is zero would stay at zero
/// remaining and not become available.)
pub proof fn lemma_rate_limited_past_reset_selectable(t: Token, cursor: int, now: i64)
    requires
        cursor >= 0,
        t.valid == Some(true),
        t.remaining == Some(0u32),
        t.limit > 0,
        t.reset_at matches Some(r) && r < now,
    ensures
        token_available(token_after_reset(t, now)),
        next_token_value(seq![t], cursor, now) == Some(t.value@),
{
    let rt = token_after_reset(t, now);
    assert(rt.remaining == Some(t.limit));
    assert(token_available(rt));
    let rs = all_after_reset(seq![t], now);
    assert(rs =~= seq![rt]);
    assert(!all_validity_unknown(rs)) by {
        assert(rs[0].valid == Some(true));
    }
    let start = cursor % 1;
    vstd::arithmetic::div_mod::lemma_mod_pos_bound(cursor, 1);
    assert(start == 0);
    vstd::arithmetic::div_mod::lemma_small_mod(0nat, 1nat);
    assert(first_available_offset(rs, 0, 0) == Some(0int));
}

/// `all_exhausted` holds of the empty pool and of any pool whose
/// tokens' validity is all still unknown.
pub proof fn lemma_all_exhausted_empty_or_unknown(ts: Seq<Token>)
    requires
        ts.len() == 0 || all_validity_unknown(ts),
    ensures
        all_exhausted_spec(ts),
{
}

} // verus!
