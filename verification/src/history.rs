//! Chat history.
//!
//! The turns of a session are a pool of nodes: every turn carries an id and the
//! id of the turn that it follows, so the pool describes a tree, and a
//! conversation that never forked is a tree with one leaf. Sessions written
//! before turns had ids are plain transcripts; `migrate` gives them ids and
//! chains them in order.

use crate::binary64::{below, is_nan, negative, of_whole, over, plus, Binary64};
use crate::order::{
    every, is_order, is_sorted_pick, lemma_distinct_bound, lemma_insert, lemma_pick_of_every, placed,
};
use crate::text::{
    alnum, chars_of, clone_opt, decimal, is_alnum, lemma_decimal_injective, number, opt_str_view,
    opt_view, same,
};
use vstd::prelude::*;

verus! {

/// Sampler settings in force when a user turn was sent.
#[derive(Debug, Clone)]
pub struct SamplerSnap {
    pub temperature: Option<Binary64>,
    pub top_k: Option<i64>,
    pub top_p: Option<Binary64>,
    pub min_p: Option<Binary64>,
    pub max_tokens: Option<i64>,
    pub system: Option<String>,
}

/// One turn of a session.
#[derive(Debug, Clone)]
pub struct StoredTurn {
    /// Stable node id. Only a session that has not been migrated lacks one.
    pub id: Option<String>,
    /// The turn that this one follows; a root follows none.
    pub parent: Option<String>,
    pub role: String,
    pub kind: Option<String>,
    pub tool_name: Option<String>,
    pub content: String,
    pub thinking: Option<String>,
    pub tokens: Option<u64>,
    pub decode_tok_s: Option<Binary64>,
    pub stopped: Option<bool>,
    /// Why the stream ended, where it said so.
    pub finish: Option<String>,
    pub error: Option<bool>,
    pub timestamp_ms: u64,
    pub sampler: Option<SamplerSnap>,
}

/// A session.
#[derive(Debug, Clone)]
pub struct Session {
    pub id: String,
    pub kind: String,
    pub title: String,
    pub model_name: Option<String>,
    pub model_path: Option<String>,
    pub binary_label: Option<String>,
    pub n_gpu_layers: Option<u32>,
    pub ctx_size: Option<u32>,
    pub workspace: Option<String>,
    pub created_ms: u64,
    pub updated_ms: u64,
    /// Leaf of the branch last selected; none means the last turn of the pool.
    pub head: Option<String>,
    pub turns: Vec<StoredTurn>,
}

/// What a listing shows of a session.
#[derive(Debug, Clone)]
pub struct SessionMeta {
    pub id: String,
    pub kind: String,
    pub title: String,
    pub model_name: Option<String>,
    pub n_gpu_layers: Option<u32>,
    pub ctx_size: Option<u32>,
    pub workspace: Option<String>,
    pub created_ms: u64,
    pub updated_ms: u64,
    /// Turns on the active branch.
    pub turn_count: usize,
    /// Leaves of the pool.
    pub branch_count: usize,
    /// Every token generated in the session, abandoned branches included.
    pub total_tokens: u64,
    pub avg_decode_tok_s: Binary64,
}

// ---------------------------------------------------------------------------
// Migration
// ---------------------------------------------------------------------------

/// No turn has an id.
pub open spec fn no_ids(turns: Seq<StoredTurn>) -> bool {
    forall|i: int| 0 <= i < turns.len() ==> (#[trigger] turns[i]).id is None
}

/// The id of the turn at index `i`, filled in where it was missing.
pub open spec fn filled_id(turns: Seq<StoredTurn>, i: int) -> Seq<char> {
    match turns[i].id {
        Some(s) => s@,
        None => "t"@ + decimal(i as nat),
    }
}

/// The parent of the turn at index `i`: in a pool without ids the turn before it,
/// and otherwise the one it had.
pub open spec fn linked_parent(turns: Seq<StoredTurn>, i: int) -> Option<Seq<char>> {
    if no_ids(turns) {
        if i == 0 {
            None
        } else {
            Some(filled_id(turns, i - 1))
        }
    } else {
        opt_view(turns[i].parent)
    }
}

/// `b` is `a` but for its links.
pub open spec fn same_but_links(a: StoredTurn, b: StoredTurn) -> bool {
    b == (StoredTurn { id: b.id, parent: b.parent, ..a })
}

/// `new` is the pool `old` with its links in place.
pub open spec fn is_migrated(old: Seq<StoredTurn>, new: Seq<StoredTurn>) -> bool {
    &&& new.len() == old.len()
    &&& forall|i: int|
        0 <= i < old.len() ==> {
            &&& same_but_links(old[i], #[trigger] new[i])
            &&& opt_view(new[i].id) == Some(filled_id(old, i))
            &&& opt_view(new[i].parent) == linked_parent(old, i)
        }
}

/// Whether no turn has an id.
fn lacks_ids(turns: &[StoredTurn]) -> (r: bool)
    ensures
        r == no_ids(turns@),
{
    for i in 0..turns.len()
        invariant
            forall|k: int| 0 <= k < i ==> (#[trigger] turns@[k]).id is None,
    {
        if turns[i].id.is_some() {
            return false;
        }
    }
    true
}

/// Gives a session the shape of a tree. A pool without any id is chained in
/// order, which is the conversation it already was. A pool with some ids only
/// has the missing ones filled in: its edges are left alone.
pub fn migrate(session: &mut Session)
    ensures
        is_migrated(old(session).turns@, final(session).turns@),
        *final(session) == (Session { turns: final(session).turns, ..*old(session) }),
{
    let legacy = lacks_ids(session.turns.as_slice());
    let ghost before = session.turns@;
    let mut prev: Option<String> = None;
    let n = session.turns.len();
    for i in 0..n
        invariant
            n == before.len(),
            legacy == no_ids(before),
            session.turns@.len() == before.len(),
            *session == (Session { turns: session.turns, ..*old(session) }),
            i == 0 ==> prev is None,
            i > 0 ==> opt_view(prev) == Some(filled_id(before, i - 1)),
            forall|k: int|
                0 <= k < i ==> {
                    &&& same_but_links(before[k], #[trigger] session.turns@[k])
                    &&& opt_view(session.turns@[k].id) == Some(filled_id(before, k))
                    &&& opt_view(session.turns@[k].parent) == linked_parent(before, k)
                },
            forall|k: int| i <= k < n ==> #[trigger] session.turns@[k] == before[k],
    {
        if session.turns[i].id.is_none() {
            let mut id = String::from_str("t");
            id.append(number(i as u64).as_str());
            session.turns[i].id = Some(id);
        }
        if legacy {
            session.turns[i].parent = prev;
        }
        prev = clone_opt(&session.turns[i].id);
    }
}

// ---------------------------------------------------------------------------
// Branches
// ---------------------------------------------------------------------------

/// The turn at index `i` has this id.
pub open spec fn named(turns: Seq<StoredTurn>, id: Seq<char>, i: int) -> bool {
    0 <= i < turns.len() && opt_view(turns[i].id) == Some(id)
}

/// `i` is the last turn with this id.
pub open spec fn is_last_named(turns: Seq<StoredTurn>, id: Seq<char>, i: int) -> bool {
    named(turns, id, i) && forall|j: int| i < j ==> !named(turns, id, j)
}

/// The index that an id stands for: of several turns with the same id, the last.
pub open spec fn index_of(turns: Seq<StoredTurn>, id: Option<Seq<char>>) -> Option<int> {
    if id is Some && exists|i: int| named(turns, id->0, i) {
        Some(choose|i: int| is_last_named(turns, id->0, i))
    } else {
        None
    }
}

/// The turn that the turn at index `i` follows, if it is in the pool.
pub open spec fn parent_of(turns: Seq<StoredTurn>, i: int) -> Option<int> {
    index_of(turns, opt_view(turns[i].parent))
}

/// The turn at which a branch ends: the head, or the last turn where there is no
/// such turn.
pub open spec fn tip(turns: Seq<StoredTurn>, head: Option<Seq<char>>) -> int {
    match index_of(turns, head) {
        Some(i) => i,
        None => turns.len() - 1,
    }
}

/// `p` is the branch that ends at `last`: every turn on it follows the one before
/// it, none stands on it twice, and it cannot be made longer at its beginning
/// without that.
pub open spec fn is_branch(turns: Seq<StoredTurn>, last: int, p: Seq<usize>) -> bool {
    &&& p.len() > 0
    &&& p.last() == last
    &&& p.no_duplicates()
    &&& forall|k: int| 0 <= k < p.len() ==> #[trigger] p[k] < turns.len()
    &&& forall|k: int|
        0 < k < p.len() ==> parent_of(turns, (#[trigger] p[k]) as int) == Some(p[k - 1] as int)
    &&& match parent_of(turns, p[0] as int) {
        Some(i) => exists|k: int| 0 <= k < p.len() && #[trigger] p[k] == i,
        None => true,
    }
}

/// `p` are the indices of the turns on the branch that ends at `head`, in the
/// order of the conversation. A pool without ids is a transcript that is in
/// order already.
pub open spec fn is_path(turns: Seq<StoredTurn>, head: Option<Seq<char>>, p: Seq<usize>) -> bool {
    if no_ids(turns) {
        &&& p.len() == turns.len()
        &&& forall|i: int| 0 <= i < p.len() ==> #[trigger] p[i] == i
    } else {
        is_branch(turns, tip(turns, head), p)
    }
}

proof fn lemma_last_named(turns: Seq<StoredTurn>, id: Seq<char>, i: int, j: int)
    requires
        is_last_named(turns, id, i),
        is_last_named(turns, id, j),
    ensures
        i == j,
{
    if i < j {
        assert(!named(turns, id, j));
    } else if j < i {
        assert(!named(turns, id, i));
    }
}

/// `index_of`, computed.
fn index_in(turns: &[StoredTurn], id: Option<&str>) -> (r: Option<usize>)
    ensures
        match r {
            Some(i) => i < turns@.len() && index_of(turns@, opt_str_view(id)) == Some(i as int),
            None => index_of(turns@, opt_str_view(id)) is None,
        },
{
    let want = match id {
        Some(s) => s,
        None => {
            return None;
        },
    };
    let mut i: usize = turns.len();
    while i > 0
        invariant
            i <= turns@.len(),
            opt_str_view(id) == Some(want@),
            forall|j: int| i <= j ==> !named(turns@, want@, j),
        decreases i,
    {
        i = i - 1;
        if let Some(s) = &turns[i].id {
            if same(s.as_str(), want) {
                proof {
                    assert(named(turns@, want@, i as int));
                    assert(is_last_named(turns@, want@, i as int));
                    let k = choose|k: int| is_last_named(turns@, want@, k);
                    lemma_last_named(turns@, want@, i as int, k);
                }
                return Some(i);
            }
        }
    }
    None
}

/// Distinct indices below `n` are at most `n`.
proof fn lemma_distinct(p: Seq<usize>, n: nat)
    requires
        p.no_duplicates(),
        forall|k: int| 0 <= k < p.len() ==> #[trigger] p[k] < n,
    ensures
        p.len() <= n,
{
    let s = p.map_values(|i: usize| i as int);
    assert forall|i: int, j: int| 0 <= i < s.len() && 0 <= j < s.len() && i != j implies s[i]
        != s[j] by {
        assert(p[i] != p[j]);
    }
    assert forall|k: int| 0 <= k < s.len() implies 0 <= #[trigger] s[k] < n by {
        assert(p[k] < n);
    }
    lemma_distinct_bound(s, n as int);
}

/// Whether `p` holds `i`.
fn on_path(p: &Vec<usize>, i: usize) -> (r: bool)
    ensures
        r == exists|k: int| 0 <= k < p@.len() && #[trigger] p@[k] == i,
{
    for k in 0..p.len()
        invariant
            forall|j: int| 0 <= j < k ==> #[trigger] p@[j] != i,
    {
        if p[k] == i {
            return true;
        }
    }
    false
}

/// The turn that the turn at index `i` follows.
fn parent_in(turns: &[StoredTurn], i: usize) -> (r: Option<usize>)
    requires
        i < turns@.len(),
    ensures
        match r {
            Some(j) => j < turns@.len() && parent_of(turns@, i as int) == Some(j as int),
            None => parent_of(turns@, i as int) is None,
        },
{
    match &turns[i].parent {
        Some(s) => index_in(turns, Some(s.as_str())),
        None => None,
    }
}

/// Indices of the turns on the branch that ends at `head`, in the order of the
/// conversation. A pool whose edges run in a circle gives a branch that stops
/// where it would repeat itself.
pub fn path_indices(turns: &[StoredTurn], head: Option<&str>) -> (p: Vec<usize>)
    ensures
        is_path(turns@, opt_str_view(head), p@),
{
    let mut out: Vec<usize> = Vec::new();
    if lacks_ids(turns) {
        for i in 0..turns.len()
            invariant
                out@.len() == i,
                forall|k: int| 0 <= k < i ==> #[trigger] out@[k] == k,
        {
            out.push(i);
        }
        return out;
    }
    assert(turns@.len() > 0);
    let last = match index_in(turns, head) {
        Some(i) => i,
        None => turns.len() - 1,
    };
    out.push(last);
    let mut next = parent_in(turns, last);
    loop
        invariant
            out@.len() > 0,
            out@[0] == last,
            out@.no_duplicates(),
            forall|k: int| 0 <= k < out@.len() ==> #[trigger] out@[k] < turns@.len(),
            forall|k: int|
                0 <= k < out@.len() - 1 ==> parent_of(turns@, (#[trigger] out@[k]) as int) == Some(
                    out@[k + 1] as int,
                ),
            match next {
                Some(j) => j < turns@.len() && parent_of(turns@, out@.last() as int) == Some(
                    j as int,
                ),
                None => parent_of(turns@, out@.last() as int) is None,
            },
        ensures
            match parent_of(turns@, out@.last() as int) {
                Some(i) => exists|k: int| 0 <= k < out@.len() && #[trigger] out@[k] == i,
                None => true,
            },
        decreases turns@.len() - out@.len(),
    {
        match next {
            Some(i) => {
                if on_path(&out, i) {
                    break;
                }
                let ghost before = out@;
                out.push(i);
                proof {
                    assert(out@.no_duplicates());
                    lemma_distinct(out@, turns@.len());
                    assert forall|k: int| 0 <= k < out@.len() - 1 implies parent_of(
                        turns@,
                        (#[trigger] out@[k]) as int,
                    ) == Some(out@[k + 1] as int) by {
                        assert(out@[k] == before[k]);
                    }
                }
                next = parent_in(turns, i);
            },
            None => {
                break;
            },
        }
    }
    let n = out.len();
    let mut p: Vec<usize> = Vec::new();
    for i in 0..n
        invariant
            n == out@.len(),
            p@.len() == i,
            forall|k: int| 0 <= k < i ==> #[trigger] p@[k] == out@[n - 1 - k],
    {
        p.push(out[n - 1 - i]);
    }
    proof {
        assert forall|k: int| 0 < k < p@.len() implies parent_of(
            turns@,
            (#[trigger] p@[k]) as int,
        ) == Some(p@[k - 1] as int) by {
            assert(p@[k] == out@[n - 1 - k]);
            assert(p@[k - 1] == out@[n - 1 - (k - 1)]);
        }
        assert forall|i: int, j: int| 0 <= i < p@.len() && 0 <= j < p@.len() && i != j implies p@[i]
            != p@[j] by {
            assert(out@[n - 1 - i] != out@[n - 1 - j]);
        }
        assert(p@[0] == out@.last());
        if let Some(i) = parent_of(turns@, p@[0] as int) {
            let k = choose|k: int| 0 <= k < out@.len() && #[trigger] out@[k] == i;
            assert(p@[n - 1 - k] == i);
        }
    }
    p
}

/// Some turn but the one at index `i` claims this id as its parent.
pub open spec fn claimed(turns: Seq<StoredTurn>, id: Seq<char>, i: int) -> bool {
    exists|j: int|
        0 <= j < turns.len() && j != i && opt_view((#[trigger] turns[j]).parent) == Some(id)
}

/// The turn at index `i` has an id that no other turn claims as its parent.
pub open spec fn is_leaf(turns: Seq<StoredTurn>, i: int) -> bool {
    turns[i].id is Some && !claimed(turns, turns[i].id->0@, i)
}

/// How many of the first `n` turns are leaves.
pub open spec fn leaves(turns: Seq<StoredTurn>, n: int) -> nat
    decreases n,
{
    if n <= 0 {
        0
    } else {
        leaves(turns, n - 1) + (if is_leaf(turns, n - 1) {
            1nat
        } else {
            0nat
        })
    }
}

/// Whether some turn but the one at index `i` claims this id as its parent.
fn is_claimed(turns: &[StoredTurn], id: &str, i: usize) -> (r: bool)
    ensures
        r == claimed(turns@, id@, i as int),
{
    for j in 0..turns.len()
        invariant
            forall|k: int|
                0 <= k < j && k != i ==> opt_view((#[trigger] turns@[k]).parent) != Some(id@),
    {
        if let Some(p) = &turns[j].parent {
            if j != i && same(p.as_str(), id) {
                assert(opt_view(turns@[j as int].parent) == Some(id@));
                return true;
            }
        }
    }
    false
}

/// The number of leaves: turns that no other turn claims as its parent.
pub fn branch_count(turns: &[StoredTurn]) -> (n: usize)
    ensures
        n as nat == leaves(turns@, turns@.len() as int),
{
    let mut n: usize = 0;
    for i in 0..turns.len()
        invariant
            n as nat == leaves(turns@, i as int),
            n <= i,
    {
        if let Some(id) = &turns[i].id {
            if !is_claimed(turns, id.as_str(), i) {
                n = n + 1;
            }
        }
    }
    n
}

// ---------------------------------------------------------------------------
// Ids
// ---------------------------------------------------------------------------

/// An id that may become a file name: up to 64 ASCII letters, digits and hyphens.
pub open spec fn valid_id(id: Seq<char>) -> bool {
    &&& 0 < id.len() <= 64
    &&& forall|i: int| 0 <= i < id.len() ==> is_alnum(#[trigger] id[i]) || id[i] == '-'
}

/// Accepts a session id that is safe as a file name.
pub fn validate_id(id: &str) -> (r: Result<(), String>)
    ensures
        r is Ok <==> valid_id(id@),
        r is Err ==> r->Err_0@ == "bad session id"@,
{
    let cs = chars_of(id);
    if cs.len() == 0 || cs.len() > 64 {
        return Err(String::from_str("bad session id"));
    }
    for i in 0..cs.len()
        invariant
            cs@ == id@,
            forall|k: int| 0 <= k < i ==> is_alnum(#[trigger] cs@[k]) || cs@[k] == '-',
    {
        if !alnum(cs[i]) && cs[i] != '-' {
            assert(!(is_alnum(id@[i as int]) || id@[i as int] == '-'));
            return Err(String::from_str("bad session id"));
        }
    }
    Ok(())
}

/// The file of a session.
pub open spec fn file_of(id: Seq<char>) -> Seq<char> {
    id + ".json"@
}

/// The file that a session is kept in.
pub fn session_file(id: &str) -> (s: String)
    ensures
        s@ == file_of(id@),
{
    let mut s = String::from_str(id);
    s.append(".json");
    s
}

// ---------------------------------------------------------------------------
// Listing
// ---------------------------------------------------------------------------

/// Tokens of the first `n` turns.
pub open spec fn tokens_of(turns: Seq<StoredTurn>, n: int) -> nat
    decreases n,
{
    if n <= 0 {
        0
    } else {
        tokens_of(turns, n - 1) + (match turns[n - 1].tokens {
            Some(k) => k as nat,
            None => 0,
        })
    }
}

/// The rate of a turn counts: it is stated and above zero.
pub open spec fn counts_rate(t: StoredTurn) -> bool {
    t.decode_tok_s is Some && below(Binary64 { bits: 0 }, t.decode_tok_s->0)
}

/// How many of the first `n` turns have a rate that counts.
pub open spec fn rates(turns: Seq<StoredTurn>, n: int) -> nat
    decreases n,
{
    if n <= 0 {
        0
    } else {
        rates(turns, n - 1) + (if counts_rate(turns[n - 1]) {
            1nat
        } else {
            0nat
        })
    }
}

/// The sum of the rates that count among the first `n` turns, added up in order.
pub open spec fn rate_sum(turns: Seq<StoredTurn>, n: int) -> Binary64
    decreases n,
{
    if n <= 0 {
        Binary64 { bits: 0 }
    } else if !counts_rate(turns[n - 1]) {
        rate_sum(turns, n - 1)
    } else if rates(turns, n - 1) == 0 {
        turns[n - 1].decode_tok_s->0
    } else {
        plus(rate_sum(turns, n - 1), turns[n - 1].decode_tok_s->0)
    }
}

/// The mean of the rates that count, 0 without any.
pub open spec fn mean_rate(turns: Seq<StoredTurn>) -> Binary64 {
    let n = turns.len() as int;
    if rates(turns, n) == 0 {
        Binary64 { bits: 0 }
    } else {
        over(rate_sum(turns, n), of_whole(rates(turns, n)))
    }
}

/// `m` is what the listing shows of `s`.
#[verifier::opaque]
pub open spec fn is_meta(m: SessionMeta, s: Session) -> bool {
    &&& m.id@ == s.id@
    &&& m.kind@ == s.kind@
    &&& m.title@ == s.title@
    &&& opt_view(m.model_name) == opt_view(s.model_name)
    &&& m.n_gpu_layers == s.n_gpu_layers
    &&& m.ctx_size == s.ctx_size
    &&& opt_view(m.workspace) == opt_view(s.workspace)
    &&& m.created_ms == s.created_ms
    &&& m.updated_ms == s.updated_ms
    &&& exists|p: Seq<usize>| #[trigger]
        is_path(s.turns@, opt_view(s.head), p) && m.turn_count == p.len()
    &&& m.branch_count == leaves(s.turns@, s.turns@.len() as int)
    &&& m.total_tokens == tokens_of(s.turns@, s.turns@.len() as int)
    &&& m.avg_decode_tok_s == mean_rate(s.turns@)
}

/// More turns never have fewer tokens.
proof fn lemma_tokens_grow(turns: Seq<StoredTurn>, i: int, n: int)
    requires
        i <= n,
    ensures
        tokens_of(turns, i) <= tokens_of(turns, n),
    decreases n - i,
{
    if i < n {
        lemma_tokens_grow(turns, i, n - 1);
    }
}

/// The mean rate.
fn mean_of(turns: &[StoredTurn]) -> (r: Binary64)
    ensures
        r == mean_rate(turns@),
{
    let mut n: u64 = 0;
    let mut sum = Binary64::zero();
    for i in 0..turns.len()
        invariant
            n as nat == rates(turns@, i as int),
            n <= i,
            sum == rate_sum(turns@, i as int),
            !negative(sum),
            !is_nan(sum),
    {
        if let Some(r) = turns[i].decode_tok_s {
            if Binary64::zero().below(r) {
                if n == 0 {
                    sum = r;
                } else {
                    sum = sum.plus(r);
                }
                n = n + 1;
            }
        }
    }
    if n == 0 {
        Binary64::zero()
    } else {
        sum.over(Binary64::of(n))
    }
}

/// What the listing shows of a session.
pub fn summarize(s: &Session) -> (m: SessionMeta)
    requires
        tokens_of(s.turns@, s.turns@.len() as int) <= u64::MAX,
    ensures
        is_meta(m, *s),
        m.updated_ms == s.updated_ms,
{
    proof {
        reveal(is_meta);
    }
    let mut total: u64 = 0;
    for i in 0..s.turns.len()
        invariant
            total as nat == tokens_of(s.turns@, i as int),
            tokens_of(s.turns@, s.turns@.len() as int) <= u64::MAX,
    {
        proof {
            lemma_tokens_grow(s.turns@, i + 1, s.turns@.len() as int);
        }
        if let Some(k) = s.turns[i].tokens {
            total = total + k;
        }
    }
    let head: Option<&str> = match &s.head {
        Some(h) => Some(h.as_str()),
        None => None,
    };
    let path = path_indices(s.turns.as_slice(), head);
    assert(is_path(s.turns@, opt_view(s.head), path@));
    SessionMeta {
        id: s.id.clone(),
        kind: s.kind.clone(),
        title: s.title.clone(),
        model_name: clone_opt(&s.model_name),
        n_gpu_layers: s.n_gpu_layers,
        ctx_size: s.ctx_size,
        workspace: clone_opt(&s.workspace),
        created_ms: s.created_ms,
        updated_ms: s.updated_ms,
        turn_count: path.len(),
        branch_count: branch_count(s.turns.as_slice()),
        total_tokens: total,
        avg_decode_tok_s: mean_of(s.turns.as_slice()),
    }
}

/// Which row shows which session.
pub open spec fn shows(sessions: Seq<Session>) -> spec_fn(SessionMeta, int) -> bool {
    |m: SessionMeta, i: int| is_meta(m, sessions[i])
}

/// The newest sessions come first.
pub open spec fn newest_first() -> spec_fn(SessionMeta, SessionMeta) -> bool {
    |a: SessionMeta, b: SessionMeta| a.updated_ms > b.updated_ms
}

/// The tokens of every session can be counted in 64 bits.
pub open spec fn listable(sessions: Seq<Session>) -> bool {
    forall|i: int|
        0 <= i < sessions.len() ==> tokens_of(
            (#[trigger] sessions[i]).turns@,
            sessions[i].turns@.len() as int,
        ) <= u64::MAX
}

/// Lists sessions, the one updated last first; sessions updated at the same time
/// stay in the order given.
pub fn list_sessions(sessions: &Vec<Session>) -> (rows: Vec<SessionMeta>)
    requires
        listable(sessions@),
    ensures
        exists|from: Seq<int>|
            is_sorted_pick(
                rows@,
                from,
                sessions@.len() as int,
                every(),
                shows(sessions@),
                newest_first(),
            ),
{
    let mut rows: Vec<SessionMeta> = Vec::new();
    let ghost mut from: Seq<int> = Seq::empty();
    for i in 0..sessions.len()
        invariant
            listable(sessions@),
            is_sorted_pick(rows@, from, i as int, every(), shows(sessions@), newest_first()),
    {
        let m = summarize(&sessions[i]);
        let mut p: usize = 0;
        while p < rows.len() && m.updated_ms <= rows[p].updated_ms
            invariant
                p <= rows@.len(),
                forall|k: int| 0 <= k < p ==> !newest_first()(m, #[trigger] rows@[k]),
            decreases rows@.len() - p,
        {
            p = p + 1;
        }
        proof {
            assert(is_order(newest_first()));
            assert(every()(i as int));
            assert(shows(sessions@)(m, i as int));
            lemma_insert(
                rows@,
                from,
                i as int,
                p as int,
                m,
                every(),
                shows(sessions@),
                newest_first(),
            );
            from = from.insert(p as int, i as int);
        }
        rows.insert(p, m);
    }
    assert(is_sorted_pick(
        rows@,
        from,
        sessions@.len() as int,
        every(),
        shows(sessions@),
        newest_first(),
    ));
    rows
}

/// Whether the tokens of a session can be counted in 64 bits.
pub fn is_listable(s: &Session) -> (r: bool)
    ensures
        r == (tokens_of(s.turns@, s.turns@.len() as int) <= u64::MAX),
{
    let mut total: u64 = 0;
    for i in 0..s.turns.len()
        invariant
            total as nat == tokens_of(s.turns@, i as int),
    {
        proof {
            lemma_tokens_grow(s.turns@, i + 1, s.turns@.len() as int);
        }
        if let Some(k) = s.turns[i].tokens {
            if k > u64::MAX - total {
                return false;
            }
            total = total + k;
        }
    }
    true
}

// ---------------------------------------------------------------------------
// Laws
// ---------------------------------------------------------------------------

/// Ids filled in at different places are different.
proof fn lemma_filled_distinct(i: nat, j: nat)
    requires
        "t"@ + decimal(i) == "t"@ + decimal(j),
    ensures
        i == j,
{
    let a = "t"@ + decimal(i);
    let b = "t"@ + decimal(j);
    let n = "t"@.len() as int;
    assert(a.skip(n) =~= decimal(i));
    assert(b.skip(n) =~= decimal(j));
    lemma_decimal_injective(i, j);
}

/// In a chained pool every id stands for its own turn.
proof fn lemma_chained_index(old: Seq<StoredTurn>, new: Seq<StoredTurn>, i: int)
    requires
        no_ids(old),
        is_migrated(old, new),
        0 <= i < old.len(),
    ensures
        index_of(new, Some(filled_id(old, i))) == Some(i),
        forall|j: int| named(new, filled_id(old, i), j) ==> j == i,
{
    let id = filled_id(old, i);
    assert(old[i].id is None);
    assert forall|j: int| named(new, id, j) implies j == i by {
        assert(opt_view(new[j].id) == Some(filled_id(old, j)));
        assert(old[j].id is None);
        lemma_filled_distinct(i as nat, j as nat);
    }
    assert(opt_view(new[i].id) == Some(id));
    assert(named(new, id, i));
    assert(is_last_named(new, id, i));
    let want = Some(id);
    let k = choose|k: int| is_last_named(new, want->0, k);
    lemma_last_named(new, id, i, k);
    assert(index_of(new, want) == Some(k));
}

/// In a chained pool every turn but the first follows the one before it.
proof fn lemma_chained_parent(old: Seq<StoredTurn>, new: Seq<StoredTurn>, i: int)
    requires
        no_ids(old),
        is_migrated(old, new),
        0 <= i < old.len(),
    ensures
        parent_of(new, i) == (if i == 0 {
            None
        } else {
            Some(i - 1)
        }),
{
    assert(opt_view(new[i].parent) == linked_parent(old, i));
    if i > 0 {
        lemma_chained_index(old, new, i - 1);
    }
}

/// Counting back from the end of a chained branch.
proof fn lemma_chained_branch(
    old: Seq<StoredTurn>,
    new: Seq<StoredTurn>,
    p: Seq<usize>,
    k: int,
)
    requires
        no_ids(old),
        is_migrated(old, new),
        old.len() > 0,
        is_branch(new, new.len() - 1, p),
        0 <= k < p.len(),
    ensures
        p[k] == new.len() - p.len() + k,
    decreases p.len() - k,
{
    if k < p.len() - 1 {
        lemma_chained_branch(old, new, p, k + 1);
        lemma_chained_parent(old, new, p[k + 1] as int);
        assert(parent_of(new, p[k + 1] as int) == Some(p[k] as int));
    }
}

/// Migrating a session without ids keeps its transcript: as long as its head names
/// no turn or the last one, it has the same turns with the same contents in the
/// same order, nothing added and nothing dropped.
pub proof fn law_migration_preserves_the_transcript(
    old: Seq<StoredTurn>,
    new: Seq<StoredTurn>,
    head: Option<Seq<char>>,
    p: Seq<usize>,
)
    requires
        no_ids(old),
        is_migrated(old, new),
        tip(new, head) == new.len() - 1,
        is_path(new, head, p),
    ensures
        p.len() == old.len(),
        forall|i: int| 0 <= i < old.len() ==> #[trigger] p[i] == i,
        forall|i: int|
            0 <= i < old.len() ==> same_but_links(old[i], new[(#[trigger] p[i]) as int]),
{
    if old.len() > 0 {
        assert(opt_view(new[0].id) == Some(filled_id(old, 0)));
        assert(!no_ids(new)) by {
            assert(new[0].id is Some);
        }
        assert(is_branch(new, new.len() - 1, p));
        lemma_distinct(p, new.len());
        lemma_chained_branch(old, new, p, 0);
        if p[0] > 0 {
            lemma_chained_parent(old, new, p[0] as int);
            let k = choose|k: int| 0 <= k < p.len() && #[trigger] p[k] == p[0] - 1;
            lemma_chained_branch(old, new, p, k);
        }
        assert forall|i: int| 0 <= i < old.len() implies #[trigger] p[i] == i by {
            lemma_chained_branch(old, new, p, i);
        }
    }
}

/// A migrated session that never forked has one leaf.
pub proof fn law_linear_session_has_one_leaf(old: Seq<StoredTurn>, new: Seq<StoredTurn>)
    requires
        no_ids(old),
        is_migrated(old, new),
        old.len() > 0,
    ensures
        leaves(new, new.len() as int) == 1,
{
    let n = new.len() as int;
    assert forall|i: int| 0 <= i < n implies is_leaf(new, i) == (i == n - 1) by {
        let id = filled_id(old, i);
        assert(opt_view(new[i].id) == Some(id));
        assert(old[i].id is None);
        if i < n - 1 {
            assert(opt_view(new[i + 1].parent) == linked_parent(old, i + 1));
            assert(claimed(new, id, i));
        } else if claimed(new, id, i) {
            let j = choose|j: int|
                0 <= j < new.len() && j != i && opt_view((#[trigger] new[j]).parent) == Some(id);
            assert(opt_view(new[j].parent) == linked_parent(old, j));
            assert(old[j - 1].id is None);
            lemma_filled_distinct((j - 1) as nat, i as nat);
        }
    }
    lemma_no_leaf_before(new, n - 1);
}

/// Without a leaf among them, the first turns count none.
proof fn lemma_no_leaf_before(turns: Seq<StoredTurn>, n: int)
    requires
        forall|i: int| 0 <= i < n ==> !is_leaf(turns, i),
    ensures
        leaves(turns, n) == 0,
    decreases n,
{
    if n > 0 {
        lemma_no_leaf_before(turns, n - 1);
    }
}

/// Migrating a session that has an id somewhere leaves every edge as it was and
/// every id that was there.
pub proof fn law_migration_leaves_existing_edges_alone(
    old: Seq<StoredTurn>,
    new: Seq<StoredTurn>,
    i: int,
)
    requires
        !no_ids(old),
        is_migrated(old, new),
        0 <= i < old.len(),
    ensures
        opt_view(new[i].parent) == opt_view(old[i].parent),
        old[i].id is Some ==> opt_view(new[i].id) == opt_view(old[i].id),
        new[i].id is Some,
{
    assert(same_but_links(old[i], new[i]));
}

/// Migrating twice is migrating once.
pub proof fn law_migration_is_idempotent(
    first: Seq<StoredTurn>,
    second: Seq<StoredTurn>,
    third: Seq<StoredTurn>,
    i: int,
)
    requires
        is_migrated(first, second),
        is_migrated(second, third),
        0 <= i < first.len(),
    ensures
        opt_view(third[i].id) == opt_view(second[i].id),
        opt_view(third[i].parent) == opt_view(second[i].parent),
        same_but_links(second[i], third[i]),
{
    assert(same_but_links(first[i], second[i]));
    assert(same_but_links(second[i], third[i]));
    assert(second[i].id is Some);
}

/// Two branches that end at the same turn agree, counted from their ends.
proof fn lemma_branches_agree(turns: Seq<StoredTurn>, last: int, p: Seq<usize>, q: Seq<usize>, k: int)
    requires
        is_branch(turns, last, p),
        is_branch(turns, last, q),
        0 <= k < p.len(),
        k < q.len(),
    ensures
        p[p.len() - 1 - k] == q[q.len() - 1 - k],
    decreases k,
{
    if k > 0 {
        lemma_branches_agree(turns, last, p, q, k - 1);
        assert(parent_of(turns, p[p.len() - k] as int) == Some(p[p.len() - k - 1] as int));
        assert(parent_of(turns, q[q.len() - k] as int) == Some(q[q.len() - k - 1] as int));
    }
}

/// Of two branches that end at the same turn, neither is longer.
proof fn lemma_branch_not_longer(turns: Seq<StoredTurn>, last: int, p: Seq<usize>, q: Seq<usize>)
    requires
        is_branch(turns, last, p),
        is_branch(turns, last, q),
    ensures
        p.len() >= q.len(),
{
    if p.len() < q.len() {
        let d = q.len() - p.len();
        lemma_branches_agree(turns, last, p, q, p.len() - 1);
        assert(q[d] == p[0]);
        assert(parent_of(turns, q[d] as int) == Some(q[d - 1] as int));
        let k = choose|k: int| 0 <= k < p.len() && #[trigger] p[k] == q[d - 1];
        lemma_branches_agree(turns, last, p, q, p.len() - 1 - k);
        assert(q[d + k] == p[k]);
        assert(q[d + k] == q[d - 1]);
    }
}

/// There is only one path to a head.
pub proof fn law_path_is_unique(
    turns: Seq<StoredTurn>,
    head: Option<Seq<char>>,
    p: Seq<usize>,
    q: Seq<usize>,
)
    requires
        is_path(turns, head, p),
        is_path(turns, head, q),
    ensures
        p == q,
{
    if !no_ids(turns) {
        let last = tip(turns, head);
        lemma_branch_not_longer(turns, last, p, q);
        lemma_branch_not_longer(turns, last, q, p);
        assert forall|i: int| 0 <= i < p.len() implies p[i] == q[i] by {
            lemma_branches_agree(turns, last, p, q, p.len() - 1 - i);
        }
    }
    assert(p =~= q);
}

/// A path stays within the pool, names no turn twice, and is empty only where the
/// pool is.
pub proof fn law_path_stays_in_the_pool(
    turns: Seq<StoredTurn>,
    head: Option<Seq<char>>,
    p: Seq<usize>,
)
    requires
        is_path(turns, head, p),
    ensures
        p.no_duplicates(),
        p.len() <= turns.len(),
        p.len() == 0 <==> turns.len() == 0,
        forall|k: int| 0 <= k < p.len() ==> #[trigger] p[k] < turns.len(),
{
    if !no_ids(turns) {
        lemma_distinct(p, turns.len());
    }
}

/// A valid id names a file in the session folder and nothing else: it holds no
/// separator, no dot and no colon.
pub proof fn law_valid_id_cannot_leave_the_folder(id: Seq<char>, i: int)
    requires
        valid_id(id),
        0 <= i < id.len(),
    ensures
        id[i] != '/',
        id[i] != '\\',
        id[i] != '.',
        id[i] != ':',
{
    assert(is_alnum(id[i]) || id[i] == '-');
}

/// A turn that lacks an id is given `t` and its place in the pool, one that has an id
/// keeps it, and a pool without any is chained: each turn follows the one before it.
pub proof fn law_missing_ids_are_numbered(old: Seq<StoredTurn>, new: Seq<StoredTurn>, i: int)
    requires
        is_migrated(old, new),
        0 <= i < old.len(),
    ensures
        old[i].id is None ==> opt_view(new[i].id) == Some("t"@ + decimal(i as nat)),
        old[i].id is Some ==> opt_view(new[i].id) == Some(old[i].id->0@),
        new[i].role == old[i].role && new[i].content == old[i].content && new[i].thinking
            == old[i].thinking && new[i].tokens == old[i].tokens,
        (forall|k: int| 0 <= k < old.len() ==> (#[trigger] old[k]).id is None) ==> (if i == 0 {
            new[i].parent is None
        } else {
            opt_view(new[i].parent) == opt_view(new[i - 1].id)
        }),
{
    assert(same_but_links(old[i], new[i]));
    assert(opt_view(new[i].parent) == linked_parent(old, i));
    if i > 0 {
        assert(same_but_links(old[i - 1], new[i - 1]));
    }
}

/// A branch runs to the turn that the head names, the last of several, or to the
/// pool's last turn where the head names none; each turn on it names the one before
/// it as its parent, and the first names none that is not on it.
pub proof fn law_branch_leads_to_the_head(
    turns: Seq<StoredTurn>,
    head: Option<Seq<char>>,
    p: Seq<usize>,
    i: int,
)
    requires
        is_path(turns, head, p),
        0 <= i < turns.len(),
        turns[i].id is Some,
    ensures
        p.len() > 0,
        head == Some(turns[i].id->0@) ==> i <= p.last() && opt_view(turns[p.last() as int].id)
            == head,
        (forall|j: int|
            0 <= j < turns.len() && (#[trigger] turns[j]).id is Some ==> head != Some(
                turns[j].id->0@,
            )) ==> p.last() == turns.len() - 1,
        forall|k: int|
            0 < k < p.len() ==> turns[(#[trigger] p[k]) as int].parent is Some && opt_view(
                turns[p[k] as int].parent,
            ) == opt_view(turns[p[k - 1] as int].id),
        turns[p[0] as int].parent is None || (forall|j: int|
            0 <= j < turns.len() ==> opt_view((#[trigger] turns[j]).id) != opt_view(
                turns[p[0] as int].parent,
            )) || (exists|k: int|
            0 <= k < p.len() && opt_view(turns[(#[trigger] p[k]) as int].id) == opt_view(
                turns[p[0] as int].parent,
            )),
{
    assert(!no_ids(turns));
    if head is Some {
        lemma_index(turns, head->0);
        if head == Some(turns[i].id->0@) {
            assert(named(turns, head->0, i));
        }
    }
    if forall|j: int|
        0 <= j < turns.len() && (#[trigger] turns[j]).id is Some ==> head != Some(
            turns[j].id->0@,
        ) {
        if head is Some && exists|j: int| named(turns, head->0, j) {
            let j = choose|j: int| named(turns, head->0, j);
            assert(turns[j].id is Some);
        }
        assert(index_of(turns, head) is None);
    }
    assert forall|k: int| 0 < k < p.len() implies turns[(#[trigger] p[k]) as int].parent is Some
        && opt_view(turns[p[k] as int].parent) == opt_view(turns[p[k - 1] as int].id) by {
        assert(parent_of(turns, p[k] as int) == Some(p[k - 1] as int));
        lemma_index(turns, opt_view(turns[p[k] as int].parent)->0);
    }
    if turns[p[0] as int].parent is Some {
        let up = opt_view(turns[p[0] as int].parent);
        lemma_index(turns, up->0);
        if exists|j: int| 0 <= j < turns.len() && opt_view((#[trigger] turns[j]).id) == up {
            let j = choose|j: int| 0 <= j < turns.len() && opt_view((#[trigger] turns[j]).id) == up;
            assert(named(turns, up->0, j));
            let l = parent_of(turns, p[0] as int)->0;
            let k = choose|k: int| 0 <= k < p.len() && #[trigger] p[k] == l;
            assert(opt_view(turns[p[k] as int].id) == up);
        }
    }
}

/// An id stands for a turn that has it, and for none only where no turn does.
proof fn lemma_index(turns: Seq<StoredTurn>, id: Seq<char>)
    ensures
        index_of(turns, Some(id)) matches Some(i) ==> is_last_named(turns, id, i),
        index_of(turns, Some(id)) is None ==> forall|i: int| !named(turns, id, i),
{
    let want = Some(id);
    if exists|i: int| named(turns, id, i) {
        let i = choose|i: int| named(turns, id, i);
        lemma_last_exists(turns, id, i, turns.len() as int);
        assert(index_of(turns, want) == Some(choose|k: int| is_last_named(turns, want->0, k)));
    }
}

/// Of several turns with an id one is the last.
proof fn lemma_last_exists(turns: Seq<StoredTurn>, id: Seq<char>, i: int, n: int)
    requires
        named(turns, id, i),
        i < n <= turns.len(),
        forall|j: int| n <= j ==> !named(turns, id, j),
    ensures
        exists|k: int| is_last_named(turns, id, k),
    decreases n,
{
    if named(turns, id, n - 1) {
        assert(is_last_named(turns, id, n - 1));
    } else {
        lemma_last_exists(turns, id, i, n - 1);
    }
}

/// The listing shows of a session what it holds: its names, its settings, when it
/// was begun and when it was last used.
pub proof fn law_listing_shows_the_session(m: SessionMeta, s: Session, p: Seq<usize>)
    requires
        is_meta(m, s),
        is_path(s.turns@, opt_view(s.head), p),
    ensures
        m.id@ == s.id@,
        m.kind@ == s.kind@,
        m.title@ == s.title@,
        opt_view(m.model_name) == opt_view(s.model_name),
        m.n_gpu_layers == s.n_gpu_layers,
        m.ctx_size == s.ctx_size,
        opt_view(m.workspace) == opt_view(s.workspace),
        m.created_ms == s.created_ms,
        m.updated_ms == s.updated_ms,
        m.turn_count == p.len(),
        m.branch_count == leaves(s.turns@, s.turns@.len() as int),
{
    reveal(is_meta);
    let q = choose|q: Seq<usize>| #[trigger]
        is_path(s.turns@, opt_view(s.head), q) && m.turn_count == q.len();
    law_path_is_unique(s.turns@, opt_view(s.head), p, q);
}

/// Two sessions whose turns differ by one more turn differ by its tokens.
pub proof fn law_every_turn_counts_its_tokens(
    m: SessionMeta,
    s: Session,
    n: SessionMeta,
    longer: Session,
    t: StoredTurn,
)
    requires
        is_meta(m, s),
        is_meta(n, longer),
        longer.turns@ == s.turns@.push(t),
    ensures
        t.tokens is None ==> n.total_tokens == m.total_tokens,
        t.tokens matches Some(k) ==> n.total_tokens == m.total_tokens + k,
        s.turns@.len() == 0 ==> m.total_tokens == 0,
{
    reveal(is_meta);
    lemma_counts_agree(s.turns@, longer.turns@, s.turns@.len() as int);
}

/// What the first turns add up to does not depend on those that follow.
proof fn lemma_counts_agree(a: Seq<StoredTurn>, b: Seq<StoredTurn>, n: int)
    requires
        n <= a.len(),
        n <= b.len(),
        forall|i: int| 0 <= i < n ==> a[i] == b[i],
    ensures
        tokens_of(a, n) == tokens_of(b, n),
        rates(a, n) == rates(b, n),
        rate_sum(a, n) == rate_sum(b, n),
    decreases n,
{
    if n > 0 {
        lemma_counts_agree(a, b, n - 1);
        assert(a[n - 1] == b[n - 1]);
    }
}

/// The speed of a session is the mean of the speeds that its turns state: a turn
/// without one changes nothing, the first speed is the mean, and each that follows is
/// added to those before it.
pub proof fn law_speed_is_the_mean_of_the_turns(
    m: SessionMeta,
    s: Session,
    n: SessionMeta,
    longer: Session,
    t: StoredTurn,
)
    requires
        is_meta(m, s),
        is_meta(n, longer),
        longer.turns@ == s.turns@.push(t),
    ensures
        t.decode_tok_s is None ==> n.avg_decode_tok_s == m.avg_decode_tok_s,
        t.decode_tok_s matches Some(r) ==> !below(Binary64 { bits: 0 }, r) ==> n.avg_decode_tok_s
            == m.avg_decode_tok_s,
        t.decode_tok_s matches Some(r) ==> below(Binary64 { bits: 0 }, r) ==> (forall|i: int|
            0 <= i < s.turns@.len() ==> (#[trigger] s.turns@[i]).decode_tok_s is None)
            ==> n.avg_decode_tok_s == over(r, of_whole(1)),
        t.decode_tok_s matches Some(r) ==> below(Binary64 { bits: 0 }, r) ==> rates(
            s.turns@,
            s.turns@.len() as int,
        ) > 0 ==> n.avg_decode_tok_s == over(
            plus(rate_sum(s.turns@, s.turns@.len() as int), r),
            of_whole(rates(s.turns@, s.turns@.len() as int) + 1),
        ),
{
    reveal(is_meta);
    let k = s.turns@.len() as int;
    lemma_counts_agree(s.turns@, longer.turns@, k);
    if forall|i: int| 0 <= i < s.turns@.len() ==> (#[trigger] s.turns@[i]).decode_tok_s is None {
        lemma_no_rates(s.turns@, k);
    }
}

/// Without a speed among the first turns none counts.
proof fn lemma_no_rates(turns: Seq<StoredTurn>, n: int)
    requires
        n <= turns.len(),
        forall|i: int| 0 <= i < n ==> (#[trigger] turns[i]).decode_tok_s is None,
    ensures
        rates(turns, n) == 0,
    decreases n,
{
    if n > 0 {
        lemma_no_rates(turns, n - 1);
    }
}

/// Every session is listed once, the one used last first, and those used at the same
/// time in the order given.
pub proof fn law_newest_sessions_come_first(
    rows: Seq<SessionMeta>,
    from: Seq<int>,
    sessions: Seq<Session>,
)
    requires
        is_sorted_pick(
            rows,
            from,
            sessions.len() as int,
            every(),
            shows(sessions),
            newest_first(),
        ),
    ensures
        rows.len() == sessions.len(),
        forall|i: int| 0 <= i < sessions.len() ==> #[trigger] from.contains(i),
        forall|k: int|
            0 <= k < rows.len() ==> 0 <= #[trigger] from[k] < sessions.len() && rows[k].id@
                == sessions[from[k]].id@ && rows[k].updated_ms == sessions[from[k]].updated_ms,
        forall|k: int, l: int|
            0 <= k < l < rows.len() ==> (#[trigger] rows[k]).updated_ms >= (
            #[trigger] rows[l]).updated_ms,
        forall|k: int, l: int|
            0 <= k < l < rows.len() && (#[trigger] rows[k]).updated_ms == (
            #[trigger] rows[l]).updated_ms ==> from[k] < from[l],
{
    reveal(is_meta);
    lemma_pick_of_every(rows, from, sessions.len() as int, shows(sessions), newest_first());
    assert forall|i: int| 0 <= i < sessions.len() implies #[trigger] from.contains(i) by {
        assert(every()(i));
    }
    assert forall|k: int| 0 <= k < rows.len() implies 0 <= #[trigger] from[k] < sessions.len()
        && is_meta(rows[k], sessions[from[k]]) by {
        assert(shows(sessions)(rows[k], from[k]));
    }
    assert forall|k: int, l: int| 0 <= k < l < rows.len() implies (
    #[trigger] rows[k]).updated_ms >= (#[trigger] rows[l]).updated_ms && (rows[k].updated_ms
        == rows[l].updated_ms ==> from[k] < from[l]) by {
        assert(placed(rows, from, newest_first(), k, l));
    }
}

/// A turn that follows none, or one that has a follower already, begins a branch.
pub proof fn law_fork_begins_a_branch(turns: Seq<StoredTurn>, t: StoredTurn)
    requires
        t.id is Some,
        forall|j: int|
            0 <= j < turns.len() ==> opt_view((#[trigger] turns[j]).parent) != opt_view(t.id),
        t.parent is Some ==> forall|j: int|
            0 <= j < turns.len() && opt_view((#[trigger] turns[j]).id) == opt_view(t.parent)
                ==> exists|k: int|
                0 <= k < turns.len() && k != j && opt_view((#[trigger] turns[k]).parent)
                    == opt_view(t.parent),
    ensures
        leaves(turns.push(t), turns.len() as int + 1) == leaves(turns, turns.len() as int) + 1,
{
    let n = turns.len() as int;
    let all = turns.push(t);
    assert forall|j: int| 0 <= j < n implies is_leaf(all, j) == is_leaf(turns, j) by {
        assert(all[j] == turns[j]);
        if turns[j].id is Some {
            let id = turns[j].id->0@;
            if claimed(turns, id, j) {
                let k = choose|k: int|
                    0 <= k < turns.len() && k != j && opt_view((#[trigger] turns[k]).parent)
                        == Some(id);
                assert(opt_view(all[k].parent) == Some(id));
            }
            if claimed(all, id, j) {
                let k = choose|k: int|
                    0 <= k < all.len() && k != j && opt_view((#[trigger] all[k]).parent) == Some(
                        id,
                    );
                if k < n {
                    assert(opt_view(turns[k].parent) == Some(id));
                } else {
                    assert(opt_view(turns[j].id) == opt_view(t.parent));
                    let l = choose|l: int|
                        0 <= l < turns.len() && l != j && opt_view((#[trigger] turns[l]).parent)
                            == opt_view(t.parent);
                    assert(opt_view(turns[l].parent) == Some(id));
                }
            }
        }
    }
    lemma_leaves_agree(turns, all, n);
    lemma_new_leaf(turns, t);
}

/// A turn that no other claims is a leaf.
proof fn lemma_new_leaf(turns: Seq<StoredTurn>, t: StoredTurn)
    requires
        t.id is Some,
        forall|j: int|
            0 <= j < turns.len() ==> opt_view((#[trigger] turns[j]).parent) != opt_view(t.id),
    ensures
        is_leaf(turns.push(t), turns.len() as int),
{
    let n = turns.len() as int;
    let all = turns.push(t);
    assert(all[n] == t);
    if claimed(all, t.id->0@, n) {
        let k = choose|k: int|
            0 <= k < all.len() && k != n && opt_view((#[trigger] all[k]).parent) == Some(t.id->0@);
        assert(opt_view(turns[k].parent) == opt_view(t.id));
    }
}

/// A turn that follows a leaf continues its branch.
pub proof fn law_reply_continues_its_branch(turns: Seq<StoredTurn>, t: StoredTurn, i: int)
    requires
        t.id is Some,
        0 <= i < turns.len(),
        is_leaf(turns, i),
        opt_view(t.parent) == opt_view(turns[i].id),
        forall|j: int|
            0 <= j < turns.len() ==> opt_view((#[trigger] turns[j]).parent) != opt_view(t.id),
        forall|j: int|
            0 <= j < turns.len() && opt_view((#[trigger] turns[j]).id) == opt_view(turns[i].id)
                ==> j == i,
    ensures
        leaves(turns.push(t), turns.len() as int + 1) == leaves(turns, turns.len() as int),
{
    let n = turns.len() as int;
    let all = turns.push(t);
    assert forall|j: int| 0 <= j < n && j != i implies is_leaf(all, j) == is_leaf(turns, j) by {
        assert(all[j] == turns[j]);
        if turns[j].id is Some {
            let id = turns[j].id->0@;
            if claimed(turns, id, j) {
                let k = choose|k: int|
                    0 <= k < turns.len() && k != j && opt_view((#[trigger] turns[k]).parent)
                        == Some(id);
                assert(opt_view(all[k].parent) == Some(id));
            }
            if claimed(all, id, j) {
                let k = choose|k: int|
                    0 <= k < all.len() && k != j && opt_view((#[trigger] all[k]).parent) == Some(
                        id,
                    );
                if k < n {
                    assert(opt_view(turns[k].parent) == Some(id));
                } else {
                    assert(opt_view(turns[j].id) == opt_view(turns[i].id));
                }
            }
        }
    }
    assert(all[n] == t && all[i] == turns[i]);
    assert(opt_view(all[n].parent) == Some(turns[i].id->0@));
    assert(claimed(all, turns[i].id->0@, i));
    assert(!is_leaf(all, i));
    lemma_leaves_but_one(turns, all, i, n);
    lemma_new_leaf(turns, t);
}

/// Pools with the same leaves have as many.
proof fn lemma_leaves_agree(a: Seq<StoredTurn>, b: Seq<StoredTurn>, n: int)
    requires
        forall|j: int| 0 <= j < n ==> is_leaf(b, j) == is_leaf(a, j),
    ensures
        leaves(b, n) == leaves(a, n),
    decreases n,
{
    if n > 0 {
        lemma_leaves_agree(a, b, n - 1);
    }
}

/// A pool that has lost one leaf has one fewer.
proof fn lemma_leaves_but_one(a: Seq<StoredTurn>, b: Seq<StoredTurn>, i: int, n: int)
    requires
        0 <= i < n,
        is_leaf(a, i),
        !is_leaf(b, i),
        forall|j: int| 0 <= j < n && j != i ==> is_leaf(b, j) == is_leaf(a, j),
    ensures
        leaves(b, n) + 1 == leaves(a, n),
    decreases n,
{
    if i == n - 1 {
        lemma_leaves_agree(a, b, n - 1);
    } else {
        lemma_leaves_but_one(a, b, i, n - 1);
    }
}

/// An id is taken for a session's name exactly when it is made of letters, digits
/// and hyphens, at least one of them and at most 64.
pub proof fn law_names_of_sessions(id: Seq<char>)
    ensures
        valid_id(id) <==> 1 <= id.len() <= 64 && forall|i: int|
            0 <= i < id.len() ==> ('0' <= #[trigger] id[i] <= '9') || ('a' <= id[i] <= 'z') || ('A'
                <= id[i] <= 'Z') || id[i] == '-',
{
    if valid_id(id) {
        assert forall|i: int| 0 <= i < id.len() implies ('0' <= #[trigger] id[i] <= '9') || ('a'
            <= id[i] <= 'z') || ('A' <= id[i] <= 'Z') || id[i] == '-' by {
            assert(is_alnum(id[i]) || id[i] == '-');
        }
    }
}

/// Every session has a file of its own, a JSON file that its id names.
pub proof fn law_sessions_have_their_own_files(a: Seq<char>, b: Seq<char>)
    ensures
        file_of(a) == file_of(b) ==> a == b,
        file_of(a) == a + ".json"@,
{
    assert(file_of(a).take(file_of(a).len() - ".json"@.len()) =~= a);
    assert(file_of(b).take(file_of(b).len() - ".json"@.len()) =~= b);
}

} // verus!
