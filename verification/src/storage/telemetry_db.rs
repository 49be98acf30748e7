//! Storage accounting and fair eviction.

use vstd::prelude::*;

verus! {

// --------------------------------------------------------------- stats types

/// Aggregate database statistics: live total row count plus on-disk size in
/// bytes (main file + WAL sidecar).
#[derive(Debug, Clone, Copy, PartialEq, Eq, Structural)]
pub struct GlobalStats {
    pub total_samples: u64,
    pub db_size_bytes: u64,
}

/// Per-target storage statistics.
#[derive(Debug, Clone, Copy, PartialEq, Eq, Structural)]
pub struct TargetStats {
    pub sample_count: u64,
    pub channel_count: u64,
    pub oldest_ms: Option<u64>,
    pub newest_ms: Option<u64>,
    pub span_seconds: Option<u64>,
    /// Rough estimate of disk bytes occupied by this target's samples: the
    /// target's row count times the database's bytes/sample ratio.
    pub byte_estimate: u64,
}

/// Result of a downsample operation.
#[derive(Debug, Clone, Copy, PartialEq, Eq, Structural)]
pub struct DownsampleResult {
    pub samples_before: u64,
    pub samples_after: u64,
    pub removed: u64,
}

/// One tier pass's accounting.
#[derive(Debug, Clone, Copy, PartialEq, Eq, Structural)]
pub struct TierPassResult {
    /// Rows consumed from lower tiers in this pass's window.
    pub source_rows: u64,
    /// Envelope bucket rows written in their place.
    pub bucket_rows: u64,
}

/// One entry in the audit log.
#[derive(Debug, Clone)]
pub struct AuditEntry {
    pub id: i64,
    pub ts_ms: u64,
    pub actor: String,
    pub action: String,
    pub target_id: Option<String>,
    pub detail: Option<String>,
    pub status: String,
    pub source_ip: Option<String>,
}

/// Tier levels of the retention ladder. Full resolution is 0.
pub const MID_TIER: u32 = 1;

pub const COARSE_TIER: u32 = 2;

// -------------------------------------------------------------- ranked order

/// Whether one byte string comes before another in dictionary order.
pub open spec fn bytes_before(a: Seq<u8>, b: Seq<u8>) -> bool
    decreases a.len(),
{
    if b.len() == 0 {
        false
    } else if a.len() == 0 {
        true
    } else {
        a[0] < b[0] || (a[0] == b[0] && bytes_before(a.skip(1), b.skip(1)))
    }
}

/// Whether a holder ranks ahead of another: more rows, or as many and the name
/// that comes first.
pub open spec fn ahead(a: (Seq<char>, u64), b: (Seq<char>, u64)) -> bool {
    a.1 > b.1 || (a.1 == b.1 && bytes_before(
        vstd::utf8::encode_utf8(a.0),
        vstd::utf8::encode_utf8(b.0),
    ))
}

/// A ranked list with one more holder.
pub open spec fn insert_ranked(s: Seq<(Seq<char>, u64)>, x: (Seq<char>, u64)) -> Seq<
    (Seq<char>, u64),
>
    decreases s.len(),
{
    if s.len() == 0 || ahead(x, s[0]) {
        seq![x] + s
    } else {
        seq![s[0]] + insert_ranked(s.skip(1), x)
    }
}

/// Holders by rank: largest first, names breaking ties.
pub open spec fn ranked(counts: Seq<(Seq<char>, u64)>) -> Seq<(Seq<char>, u64)>
    decreases counts.len(),
{
    if counts.len() == 0 {
        Seq::empty()
    } else {
        insert_ranked(ranked(counts.drop_last()), counts.last())
    }
}

// ------------------------------------------------------------------ waterline

/// How many rows the holders have together.
pub open spec fn total(counts: Seq<(Seq<char>, u64)>) -> nat
    decreases counts.len(),
{
    if counts.len() == 0 {
        0
    } else {
        total(counts.drop_last()) + counts.last().1 as nat
    }
}

/// How many rows a holder has above a level.
pub open spec fn above(count: u64, level: nat) -> nat {
    if count > level {
        (count - level) as nat
    } else {
        0
    }
}

/// How many rows the holders have above a level, together.
pub open spec fn excess(counts: Seq<(Seq<char>, u64)>, level: nat) -> nat
    decreases counts.len(),
{
    if counts.len() == 0 {
        0
    } else {
        excess(counts.drop_last(), level) + above(counts.last().1, level)
    }
}

/// Whether a level is the lowest that `to_delete` rows have to be taken from:
/// enough rows lie above it, and not enough above the next one.
pub open spec fn is_waterline(counts: Seq<(Seq<char>, u64)>, to_delete: nat, level: nat) -> bool {
    excess(counts, level) >= to_delete && excess(counts, level + 1) < to_delete
}

/// The level that an eviction takes the largest holders down to.
pub open spec fn waterline(counts: Seq<(Seq<char>, u64)>, to_delete: nat) -> nat {
    choose|level: nat| is_waterline(ranked(counts), to_delete, level)
}

/// How many holders at the front of a ranked list are above a level.
pub open spec fn holders_above(s: Seq<(Seq<char>, u64)>, level: nat) -> nat
    decreases s.len(),
{
    if s.len() == 0 {
        0
    } else if s.last().1 > level {
        s.len()
    } else {
        holders_above(s.drop_last(), level)
    }
}

/// The holders that have rows to give up.
pub open spec fn nonzero(list: Seq<(Seq<char>, u64)>) -> Seq<(Seq<char>, u64)>
    decreases list.len(),
{
    if list.len() == 0 {
        Seq::empty()
    } else if list.last().1 > 0 {
        nonzero(list.drop_last()).push(list.last())
    } else {
        nonzero(list.drop_last())
    }
}

/// What each holder above the level gives up: everything above the level, the
/// lowest-ranked ones one row less so that the sum is exact.
pub open spec fn trims(s: Seq<(Seq<char>, u64)>, to_delete: nat, level: nat) -> Seq<
    (Seq<char>, u64),
> {
    let k = holders_above(s, level);
    let spare = excess(s, level) - to_delete;
    Seq::new(
        k,
        |i: int|
            (
                s[i].0,
                (s[i].1 - level - if i >= k - spare {
                    1int
                } else {
                    0
                }) as u64,
            ),
    )
}

/// The split of an eviction across holders.
pub open spec fn evictions(counts: Seq<(Seq<char>, u64)>, to_delete: nat) -> Seq<(Seq<char>, u64)> {
    if to_delete == 0 || total(counts) == 0 {
        Seq::empty()
    } else if to_delete >= total(counts) {
        nonzero(counts)
    } else {
        nonzero(trims(ranked(counts), to_delete, waterline(counts, to_delete)))
    }
}

/// The contents of a list of named counts.
pub open spec fn named_counts(list: Seq<(String, u64)>) -> Seq<(Seq<char>, u64)> {
    Seq::new(list.len(), |i: int| (list[i].0@, list[i].1))
}

// ---------------------------------------------------------------- execution

fn byte_string_before(a: &[u8], b: &[u8]) -> (r: bool)
    ensures
        r == bytes_before(a@, b@),
{
    let mut i: usize = 0;
    assert(a@.skip(0) =~= a@);
    assert(b@.skip(0) =~= b@);
    while i < a.len() && i < b.len()
        invariant
            i <= a@.len(),
            i <= b@.len(),
            bytes_before(a@, b@) == bytes_before(a@.skip(i as int), b@.skip(i as int)),
        decreases a@.len() - i,
    {
        if a[i] < b[i] {
            return true;
        }
        if a[i] > b[i] {
            return false;
        }
        assert(a@.skip(i as int).skip(1) =~= a@.skip(i + 1));
        assert(b@.skip(i as int).skip(1) =~= b@.skip(i + 1));
        i = i + 1;
    }
    i < b.len()
}

fn ranks_ahead(a: &(String, u64), b: &(String, u64)) -> (r: bool)
    ensures
        r == ahead((a.0@, a.1), (b.0@, b.1)),
{
    a.1 > b.1 || (a.1 == b.1 && byte_string_before(
        a.0.as_str().as_bytes(),
        b.0.as_str().as_bytes(),
    ))
}

/// Where a holder goes in a ranked list.
pub open spec fn is_place(s: Seq<(Seq<char>, u64)>, x: (Seq<char>, u64), at: int) -> bool {
    &&& 0 <= at <= s.len()
    &&& forall|j: int| 0 <= j < at ==> !ahead(x, #[trigger] s[j])
    &&& at < s.len() ==> ahead(x, s[at])
}

proof fn insert_at_place(s: Seq<(Seq<char>, u64)>, x: (Seq<char>, u64), at: int)
    requires
        is_place(s, x, at),
    ensures
        insert_ranked(s, x) == s.insert(at, x),
    decreases s.len(),
{
    if at == 0 {
        assert(insert_ranked(s, x) =~= s.insert(at, x));
    } else {
        assert(!ahead(x, s[0]));
        assert forall|j: int| 0 <= j < at - 1 implies !ahead(x, #[trigger] s.skip(1)[j]) by {
            assert(s.skip(1)[j] == s[j + 1]);
        }
        insert_at_place(s.skip(1), x, at - 1);
        assert(insert_ranked(s, x) =~= s.insert(at, x));
    }
}

fn rank(counts: &[(String, u64)]) -> (out: Vec<(String, u64)>)
    ensures
        named_counts(out@) == ranked(named_counts(counts@)),
        out@.len() == counts@.len(),
{
    let ghost all = named_counts(counts@);
    let mut out: Vec<(String, u64)> = Vec::new();
    assert(named_counts(out@) =~= Seq::empty());
    for i in 0..counts.len()
        invariant
            all == named_counts(counts@),
            named_counts(out@) == ranked(all.take(i as int)),
            out@.len() == i,
    {
        assert(all.take(i + 1).drop_last() =~= all.take(i as int));
        let x = (counts[i].0.clone(), counts[i].1);
        let ghost view = (x.0@, x.1);
        let ghost s = named_counts(out@);
        let mut at: usize = 0;
        while at < out.len() && !ranks_ahead(&x, &out[at])
            invariant
                s == named_counts(out@),
                view == (x.0@, x.1),
                at <= out@.len(),
                forall|j: int| 0 <= j < at ==> !ahead(view, #[trigger] s[j]),
            decreases out@.len() - at,
        {
            at = at + 1;
        }
        proof {
            insert_at_place(s, view, at as int);
        }
        out.insert(at, x);
        assert(named_counts(out@) =~= s.insert(at as int, view));
    }
    assert(all.take(all.len() as int) =~= all);
    out
}

/// Descending counts.
pub open spec fn descending(s: Seq<(Seq<char>, u64)>) -> bool {
    forall|i: int, j: int| 0 <= i <= j < s.len() ==> (#[trigger] s[i]).1 >= (#[trigger] s[j]).1
}

proof fn find_place(s: Seq<(Seq<char>, u64)>, x: (Seq<char>, u64)) -> (at: int)
    ensures
        is_place(s, x, at),
    decreases s.len(),
{
    if s.len() == 0 || ahead(x, s[0]) {
        0
    } else {
        let at = find_place(s.skip(1), x);
        assert forall|j: int| 0 <= j < at + 1 implies !ahead(x, #[trigger] s[j]) by {
            if j > 0 {
                assert(s[j] == s.skip(1)[j - 1]);
            }
        }
        at + 1
    }
}

proof fn total_of_insert(s: Seq<(Seq<char>, u64)>, at: int, x: (Seq<char>, u64))
    requires
        0 <= at <= s.len(),
    ensures
        total(s.insert(at, x)) == total(s) + x.1,
    decreases s.len(),
{
    let r = s.insert(at, x);
    if at == s.len() {
        assert(r.drop_last() =~= s);
    } else {
        assert(r.drop_last() =~= s.drop_last().insert(at, x));
        total_of_insert(s.drop_last(), at, x);
    }
}

proof fn insert_keeps_order(s: Seq<(Seq<char>, u64)>, x: (Seq<char>, u64))
    requires
        descending(s),
    ensures
        descending(insert_ranked(s, x)),
        insert_ranked(s, x).len() == s.len() + 1,
        insert_ranked(s, x).to_multiset() == s.to_multiset().insert(x),
        total(insert_ranked(s, x)) == total(s) + x.1,
{
    let at = find_place(s, x);
    insert_at_place(s, x, at);
    let r = s.insert(at, x);
    assert forall|i: int, j: int| 0 <= i <= j < r.len() implies (#[trigger] r[i]).1 >= (
    #[trigger] r[j]).1 by {
        if i < at && j == at {
            assert(!ahead(x, s[i]));
        }
        if i == at && j > at {
            assert(s[at].1 >= s[j - 1].1);
        }
        if i < at && j > at {
            assert(s[i].1 >= s[j - 1].1);
        }
        if i > at {
            assert(s[i - 1].1 >= s[j - 1].1);
        }
        if j < at {
            assert(s[i].1 >= s[j].1);
        }
    }
    total_of_insert(s, at, x);
    vstd::seq_lib::to_multiset_insert(s, at, x);
}

/// Ranking loses nothing, adds nothing and puts the largest first.
pub proof fn ranking_rearranges(counts: Seq<(Seq<char>, u64)>)
    ensures
        descending(ranked(counts)),
        ranked(counts).len() == counts.len(),
        ranked(counts).to_multiset() == counts.to_multiset(),
        total(ranked(counts)) == total(counts),
    decreases counts.len(),
{
    if counts.len() > 0 {
        let front = counts.drop_last();
        ranking_rearranges(front);
        insert_keeps_order(ranked(front), counts.last());
        assert(front.push(counts.last()) =~= counts);
        front.to_multiset_ensures();
    } else {
        assert(ranked(counts) =~= counts);
    }
}

// ---------------------------------------------------------- waterline facts

proof fn excess_falls(s: Seq<(Seq<char>, u64)>, low: nat, high: nat)
    requires
        low <= high,
    ensures
        excess(s, low) >= excess(s, high),
    decreases s.len(),
{
    if s.len() > 0 {
        excess_falls(s.drop_last(), low, high);
    }
}

proof fn excess_ends(s: Seq<(Seq<char>, u64)>)
    ensures
        excess(s, u64::MAX as nat) == 0,
        excess(s, 0) == total(s),
    decreases s.len(),
{
    if s.len() > 0 {
        excess_ends(s.drop_last());
    }
}

proof fn find_waterline(s: Seq<(Seq<char>, u64)>, to_delete: nat, above_it: nat) -> (level: nat)
    requires
        0 < to_delete <= total(s),
        excess(s, above_it) < to_delete,
    ensures
        is_waterline(s, to_delete, level),
    decreases above_it,
{
    excess_ends(s);
    let below = (above_it - 1) as nat;
    if excess(s, below) >= to_delete {
        assert(below + 1 == above_it);
        below
    } else {
        find_waterline(s, to_delete, below)
    }
}

/// There is exactly one waterline.
pub proof fn waterline_is_unique(s: Seq<(Seq<char>, u64)>, to_delete: nat, a: nat, b: nat)
    requires
        is_waterline(s, to_delete, a),
        is_waterline(s, to_delete, b),
    ensures
        a == b,
{
    if a < b {
        excess_falls(s, a + 1, b);
    }
    if b < a {
        excess_falls(s, b + 1, a);
    }
}

/// Whether a level splits a list after its first `k` holders.
pub open spec fn splits(s: Seq<(Seq<char>, u64)>, level: nat, k: nat) -> bool {
    &&& k <= s.len()
    &&& forall|i: int| 0 <= i < k ==> (#[trigger] s[i]).1 > level
    &&& forall|i: int| k <= i < s.len() ==> (#[trigger] s[i]).1 <= level
}

proof fn split_counts(s: Seq<(Seq<char>, u64)>, level: nat, k: nat)
    requires
        splits(s, level, k),
    ensures
        holders_above(s, level) == k,
        excess(s, level) == total(s.take(k as int)) - k * level,
        excess(s, level + 1) == total(s.take(k as int)) - k * (level + 1),
    decreases s.len(),
{
    if s.len() == 0 {
        assert(s.take(0) =~= s);
        assert(k * level == 0) by (nonlinear_arith)
            requires
                k == 0,
        ;
        assert(k * (level + 1) == 0) by (nonlinear_arith)
            requires
                k == 0,
        ;
    } else {
        let front = s.drop_last();
        if k == s.len() {
            assert(splits(front, level, (k - 1) as nat));
            split_counts(front, level, (k - 1) as nat);
            assert(front.take(k - 1) =~= front);
            assert(s.take(k as int) =~= s);
            assert(k * level == (k - 1) * level + level) by (nonlinear_arith)
                requires
                    k >= 1,
            ;
            assert(k * (level + 1) == (k - 1) * (level + 1) + (level + 1)) by (nonlinear_arith)
                requires
                    k >= 1,
            ;
        } else {
            assert(splits(front, level, k));
            split_counts(front, level, k);
            assert(front.take(k as int) =~= s.take(k as int));
        }
    }
}

proof fn total_of_front(s: Seq<(Seq<char>, u64)>, i: int)
    requires
        0 <= i <= s.len(),
    ensures
        total(s.take(i)) <= total(s),
        i < s.len() ==> total(s.take(i + 1)) == total(s.take(i)) + s[i].1,
    decreases s.len(),
{
    if i < s.len() {
        assert(s.take(i + 1).drop_last() =~= s.take(i));
        total_of_front(s.drop_last(), i);
        assert(s.drop_last().take(i) =~= s.take(i));
    } else {
        assert(s.take(i) =~= s);
    }
}

fn total_count(counts: &[(String, u64)]) -> (sum: u64)
    requires
        total(named_counts(counts@)) <= u64::MAX,
    ensures
        sum == total(named_counts(counts@)),
{
    let ghost all = named_counts(counts@);
    let mut sum: u64 = 0;
    assert(total(all.take(0)) == 0);
    for i in 0..counts.len()
        invariant
            all == named_counts(counts@),
            total(all) <= u64::MAX,
            sum == total(all.take(i as int)),
    {
        proof {
            total_of_front(all, i as int);
            total_of_front(all, i + 1);
        }
        sum = sum + counts[i].1;
    }
    assert(all.take(all.len() as int) =~= all);
    sum
}

fn nonzero_counts(counts: &[(String, u64)]) -> (out: Vec<(String, u64)>)
    ensures
        named_counts(out@) == nonzero(named_counts(counts@)),
{
    let ghost all = named_counts(counts@);
    let mut out: Vec<(String, u64)> = Vec::new();
    assert(named_counts(out@) =~= Seq::empty());
    for i in 0..counts.len()
        invariant
            all == named_counts(counts@),
            named_counts(out@) == nonzero(all.take(i as int)),
    {
        assert(all.take(i + 1).drop_last() =~= all.take(i as int));
        if counts[i].1 > 0 {
            let ghost before = named_counts(out@);
            out.push((counts[i].0.clone(), counts[i].1));
            assert(named_counts(out@) =~= before.push(all[i as int]));
        }
    }
    assert(all.take(all.len() as int) =~= all);
    out
}

/// How many of the largest holders have to give rows up, and down to which
/// level.
fn find_level(s: &Vec<(String, u64)>, to_delete: u64) -> (r: (usize, u64, u64))
    requires
        descending(named_counts(s@)),
        0 < to_delete < total(named_counts(s@)) <= u64::MAX,
    ensures
        splits(named_counts(s@), r.1 as nat, r.0 as nat),
        is_waterline(named_counts(s@), to_delete as nat, r.1 as nat),
        r.2 == excess(named_counts(s@), r.1 as nat) - to_delete,
        r.2 < r.0,
{
    let ghost view = named_counts(s@);
    let mut prefix: u64 = 0;
    let mut i: usize = 0;
    let n: usize = s.len();
    assert(total(view.take(0)) == 0);
    assert(view.len() > 0);
    loop
        invariant
            view == named_counts(s@),
            n == view.len(),
            descending(view),
            0 < to_delete < total(view) <= u64::MAX,
            i < view.len(),
            prefix == total(view.take(i as int)),
            prefix < to_delete + i * view[i as int].1,
        decreases view.len() - i,
    {
        let count: u64 = s[i].1;
        proof {
            total_of_front(view, i as int);
            total_of_front(view, i + 1);
        }
        prefix = prefix + count;
        let next: u64 = if i + 1 < n {
            s[i + 1].1
        } else {
            0
        };
        let taken: u64 = i as u64 + 1;
        assert(prefix < to_delete + taken * count) by (nonlinear_arith)
            requires
                prefix - count < to_delete + i * count,
                taken == i + 1,
        ;
        proof {
            if i + 1 == view.len() {
                assert(view.take(i + 1) =~= view);
            }
        }
        if prefix >= to_delete {
            let level: u64 = (prefix - to_delete) / taken;
            let spare: u64 = (prefix - to_delete) % taken;
            proof {
                division_facts((prefix - to_delete) as nat, taken as nat);
            }
            if level >= next {
                assert(level < count) by (nonlinear_arith)
                    requires
                        taken * level <= prefix - to_delete,
                        prefix < to_delete + taken * count,
                        taken > 0,
                ;
                proof {
                    assert forall|j: int| 0 <= j < taken implies (#[trigger] view[j]).1 > level by {
                        assert(view[j].1 >= view[i as int].1);
                    }
                    assert forall|j: int| taken <= j < view.len() implies (#[trigger] view[j]).1
                        <= level by {
                        assert(view[i + 1].1 >= view[j].1);
                    }
                    assert(splits(view, level as nat, taken as nat));
                    split_counts(view, level as nat, taken as nat);
                }
                return (i + 1, level, spare);
            }
            assert(prefix < to_delete + taken * next) by (nonlinear_arith)
                requires
                    prefix - to_delete < taken * (level + 1),
                    level + 1 <= next,
                    taken > 0,
            ;
        } else {
            assert(taken * next >= 0) by (nonlinear_arith);
        }
        i = i + 1;
    }
}

proof fn division_facts(a: nat, b: nat)
    requires
        b > 0,
    ensures
        b * (a / b) <= a < b * (a / b + 1),
        a % b == a - b * (a / b),
        a % b < b,
{
    vstd::arithmetic::div_mod::lemma_fundamental_div_mod(a as int, b as int);
    vstd::arithmetic::div_mod::lemma_mod_bound(a as int, b as int);
    assert(b * (a / b + 1) == b * (a / b) + b) by (nonlinear_arith);
}

/// Splits an eviction of `to_delete` rows across holders. Quiet holders are
/// spared as long as louder ones exist: rows come off the largest holders first,
/// down to a common waterline. The amounts sum to `to_delete`, or to everything
/// there is when that is less.
pub fn allocate_evictions(counts: &[(String, u64)], to_delete: u64) -> (out: Vec<(String, u64)>)
    requires
        total(named_counts(counts@)) <= u64::MAX,
    ensures
        named_counts(out@) == evictions(named_counts(counts@), to_delete as nat),
{
    let sum: u64 = total_count(counts);
    if to_delete == 0 || sum == 0 {
        let out: Vec<(String, u64)> = Vec::new();
        assert(named_counts(out@) =~= Seq::empty());
        return out;
    }
    if to_delete >= sum {
        return nonzero_counts(counts);
    }
    let s = rank(counts);
    let ghost view = named_counts(s@);
    proof {
        ranking_rearranges(named_counts(counts@));
    }
    let (k, level, spare) = find_level(&s, to_delete);
    let ghost cut = trims(view, to_delete as nat, level as nat);
    proof {
        split_counts(view, level as nat, k as nat);
        let chosen = waterline(named_counts(counts@), to_delete as nat);
        waterline_is_unique(view, to_delete as nat, chosen, level as nat);
    }
    let mut out: Vec<(String, u64)> = Vec::new();
    assert(named_counts(out@) =~= Seq::empty());
    for i in 0..k
        invariant
            view == named_counts(s@),
            splits(view, level as nat, k as nat),
            cut == trims(view, to_delete as nat, level as nat),
            cut.len() == k,
            spare == excess(view, level as nat) - to_delete,
            spare < k,
            named_counts(out@) == nonzero(cut.take(i as int)),
    {
        assert(cut.take(i + 1).drop_last() =~= cut.take(i as int));
        assert(view[i as int].1 > level);
        let whole: u64 = s[i].1 - level;
        let amount: u64 = if i as u64 >= k as u64 - spare {
            whole - 1
        } else {
            whole
        };
        assert(cut[i as int] == (view[i as int].0, amount));
        if amount > 0 {
            let ghost before = named_counts(out@);
            out.push((s[i].0.clone(), amount));
            assert(named_counts(out@) =~= before.push(cut[i as int]));
        }
    }
    assert(cut.take(k as int) =~= cut);
    out
}

// ----------------------------------------------------------------------- laws

proof fn total_of_nonzero(list: Seq<(Seq<char>, u64)>)
    ensures
        total(nonzero(list)) == total(list),
    decreases list.len(),
{
    if list.len() > 0 {
        total_of_nonzero(list.drop_last());
        if list.last().1 > 0 {
            assert(nonzero(list).drop_last() =~= nonzero(list.drop_last()));
        }
    }
}

proof fn nonzero_is_from(list: Seq<(Seq<char>, u64)>, e: (Seq<char>, u64))
    requires
        nonzero(list).contains(e),
    ensures
        list.contains(e),
        e.1 > 0,
    decreases list.len(),
{
    if list.len() > 0 {
        let front = list.drop_last();
        let j = choose|j: int| 0 <= j < nonzero(list).len() && nonzero(list)[j] == e;
        if list.last().1 > 0 && j == nonzero(list).len() - 1 {
            assert(list[list.len() - 1] == e);
        } else {
            assert(nonzero(front)[j] == e);
            nonzero_is_from(front, e);
            let i = choose|i: int| 0 <= i < front.len() && front[i] == e;
            assert(list[i] == e);
        }
    }
}

proof fn total_of_trims(s: Seq<(Seq<char>, u64)>, to_delete: nat, level: nat, k: nat, j: int)
    requires
        splits(s, level, k),
        is_waterline(s, to_delete, level),
        0 <= j <= k,
    ensures
        ({
            let spare = excess(s, level) - to_delete;
            &&& 0 <= spare < k
            &&& total(trims(s, to_delete, level).take(j)) == total(s.take(j)) - j * level - if j
                > k - spare {
                j - (k - spare)
            } else {
                0
            }
        }),
    decreases j,
{
    split_counts(s, level, k);
    assert(k * (level + 1) == k * level + k) by (nonlinear_arith);
    let cut = trims(s, to_delete, level);
    if j > 0 {
        total_of_trims(s, to_delete, level, k, j - 1);
        total_of_front(cut, j - 1);
        total_of_front(s, j - 1);
        assert(s[j - 1].1 > level);
        assert(j * level == (j - 1) * level + level) by (nonlinear_arith);
    } else {
        assert(j * level == 0) by (nonlinear_arith)
            requires
                j == 0,
        ;
    }
}

proof fn waterline_split(s: Seq<(Seq<char>, u64)>, level: nat)
    requires
        descending(s),
    ensures
        splits(s, level, holders_above(s, level)),
    decreases s.len(),
{
    if s.len() > 0 && s.last().1 <= level {
        let front = s.drop_last();
        assert forall|i: int, j: int| 0 <= i <= j < front.len() implies (#[trigger] front[i]).1 >= (
        #[trigger] front[j]).1 by {
            assert(s[i].1 >= s[j].1);
        }
        waterline_split(front, level);
        let k = holders_above(front, level);
        assert forall|i: int| 0 <= i < k implies (#[trigger] s[i]).1 > level by {
            assert(front[i] == s[i]);
        }
        assert forall|i: int| k <= i < s.len() implies (#[trigger] s[i]).1 <= level by {
            if i < front.len() {
                assert(front[i] == s[i]);
            }
        }
    }
}

proof fn waterline_holds(counts: Seq<(Seq<char>, u64)>, to_delete: nat)
    requires
        0 < to_delete < total(counts),
    ensures
        is_waterline(ranked(counts), to_delete, waterline(counts, to_delete)),
        splits(
            ranked(counts),
            waterline(counts, to_delete),
            holders_above(ranked(counts), waterline(counts, to_delete)),
        ),
{
    let s = ranked(counts);
    ranking_rearranges(counts);
    excess_ends(s);
    let found = find_waterline(s, to_delete, u64::MAX as nat);
    assert(is_waterline(s, to_delete, found));
    waterline_split(s, waterline(counts, to_delete));
}

/// An eviction gives up exactly the rows asked for, or all there are.
pub proof fn evictions_sum_exactly(counts: Seq<(Seq<char>, u64)>, to_delete: nat)
    ensures
        total(evictions(counts, to_delete)) == if to_delete < total(counts) {
            to_delete
        } else {
            total(counts)
        },
{
    if to_delete == 0 || total(counts) == 0 {
    } else if to_delete >= total(counts) {
        total_of_nonzero(counts);
    } else {
        let s = ranked(counts);
        let level = waterline(counts, to_delete);
        waterline_holds(counts, to_delete);
        let k = holders_above(s, level);
        let cut = trims(s, to_delete, level);
        total_of_trims(s, to_delete, level, k, k as int);
        split_counts(s, level, k);
        assert(cut.take(k as int) =~= cut);
        total_of_nonzero(cut);
    }
}

/// Whatever an eviction takes, it takes from a holder that has it, and as long as
/// rows remain it leaves that holder at the waterline or one row above. A holder
/// at or below the waterline is therefore never touched.
pub proof fn quiet_holders_are_spared(
    counts: Seq<(Seq<char>, u64)>,
    to_delete: nat,
    e: (Seq<char>, u64),
)
    requires
        evictions(counts, to_delete).contains(e),
    ensures
        e.1 > 0,
        to_delete < total(counts) ==> exists|i: int|
            0 <= i < counts.len() && (#[trigger] counts[i]).0 == e.0 && counts[i].1 > waterline(
                counts,
                to_delete,
            ) && waterline(counts, to_delete) <= counts[i].1 - e.1 <= waterline(counts, to_delete)
                + 1,
        to_delete >= total(counts) ==> counts.contains(e),
{
    if to_delete == 0 || total(counts) == 0 {
    } else if to_delete >= total(counts) {
        nonzero_is_from(counts, e);
    } else {
        let s = ranked(counts);
        let level = waterline(counts, to_delete);
        waterline_holds(counts, to_delete);
        let k = holders_above(s, level);
        let cut = trims(s, to_delete, level);
        nonzero_is_from(cut, e);
        let j = choose|j: int| 0 <= j < cut.len() && cut[j] == e;
        assert(s[j].1 > level);
        ranking_rearranges(counts);
        s.to_multiset_ensures();
        counts.to_multiset_ensures();
        assert(s.contains(s[j]));
        assert(counts.to_multiset().count(s[j]) > 0);
        assert(counts.contains(s[j]));
        let i = choose|i: int| 0 <= i < counts.len() && counts[i] == s[j];
        assert(counts[i].0 == e.0);
    }
}

/// Dictionary order goes by the first byte that differs: one string comes before another
/// if and only if they agree up to some place, where the first one ends or has the smaller
/// byte.
pub proof fn dictionary_order(a: Seq<u8>, b: Seq<u8>)
    ensures
        bytes_before(a, b) <==> exists|k: int| #[trigger] differ_at(a, b, k),
    decreases a.len(),
{
    if bytes_before(a, b) {
        if a.len() == 0 || a[0] < b[0] {
            assert(differ_at(a, b, 0));
        } else {
            let (x, y) = (a.skip(1), b.skip(1));
            dictionary_order(x, y);
            let k = choose|k: int| #[trigger] differ_at(x, y, k);
            assert forall|j: int| 0 <= j < k + 1 implies #[trigger] a[j] == b[j] by {
                if j > 0 {
                    assert(x[j - 1] == y[j - 1]);
                }
            }
            assert(differ_at(a, b, k + 1));
        }
    }
    if exists|k: int| #[trigger] differ_at(a, b, k) {
        let k = choose|k: int| #[trigger] differ_at(a, b, k);
        if k > 0 {
            assert(a[0] == b[0]);
            let (x, y) = (a.skip(1), b.skip(1));
            dictionary_order(x, y);
            assert forall|j: int| 0 <= j < k - 1 implies #[trigger] x[j] == y[j] by {
                assert(a[j + 1] == b[j + 1]);
            }
            assert(differ_at(x, y, k - 1));
        }
    }
}

/// Whether two strings agree up to a place, where the first one ends or has the smaller
/// byte.
pub open spec fn differ_at(a: Seq<u8>, b: Seq<u8>, k: int) -> bool {
    &&& 0 <= k <= a.len()
    &&& k < b.len()
    &&& forall|j: int| 0 <= j < k ==> #[trigger] a[j] == b[j]
    &&& k == a.len() || a[k] < b[k]
}

proof fn order_is_strict(a: Seq<u8>, b: Seq<u8>, c: Seq<u8>)
    ensures
        bytes_before(a, b) ==> !bytes_before(b, a),
        bytes_before(a, b) && bytes_before(b, c) ==> bytes_before(a, c),
    decreases a.len(),
{
    if a.len() > 0 && b.len() > 0 {
        if c.len() > 0 {
            order_is_strict(a.skip(1), b.skip(1), c.skip(1));
        } else {
            order_is_strict(a.skip(1), b.skip(1), c);
        }
    }
}

proof fn ahead_is_strict(a: (Seq<char>, u64), b: (Seq<char>, u64), c: (Seq<char>, u64))
    ensures
        ahead(a, b) ==> !ahead(b, a),
        ahead(a, b) && ahead(b, c) ==> ahead(a, c),
{
    order_is_strict(
        vstd::utf8::encode_utf8(a.0),
        vstd::utf8::encode_utf8(b.0),
        vstd::utf8::encode_utf8(c.0),
    );
}

/// Ranking puts the larger holder first, and of two as large the one whose name comes first
/// in dictionary order: nobody stands behind a holder that is smaller, or as large with a
/// later name.
pub proof fn ranking_orders(counts: Seq<(Seq<char>, u64)>)
    ensures
        forall|i: int, j: int|
            0 <= i < j < ranked(counts).len() ==> !ahead(
                #[trigger] ranked(counts)[j],
                #[trigger] ranked(counts)[i],
            ),
        forall|i: int, j: int|
            0 <= i < j < ranked(counts).len() ==> (#[trigger] ranked(counts)[i]).1 >= (
            #[trigger] ranked(counts)[j]).1,
    decreases counts.len(),
{
    ranking_rearranges(counts);
    if counts.len() > 0 {
        let front = counts.drop_last();
        let x = counts.last();
        ranking_orders(front);
        let s = ranked(front);
        let at = find_place(s, x);
        insert_at_place(s, x, at);
        let r = ranked(counts);
        assert(r == s.insert(at, x));
        assert forall|i: int, j: int| 0 <= i < j < r.len() implies !ahead(
            #[trigger] r[j],
            #[trigger] r[i],
        ) by {
            if i < at && j == at {
                assert(r[i] == s[i] && r[j] == x);
            } else if i == at {
                assert(r[i] == x && r[j] == s[j - 1]);
                ahead_is_strict(x, s[at], x);
                if j - 1 > at {
                    assert(!ahead(s[j - 1], s[at]));
                    ahead_is_strict(s[j - 1], x, s[at]);
                } else {
                    ahead_is_strict(x, s[at], s[at]);
                }
            } else {
                let (p, q) = (
                    if i < at {
                        i
                    } else {
                        i - 1
                    },
                    if j < at {
                        j
                    } else {
                        j - 1
                    },
                );
                assert(r[i] == s[p] && r[j] == s[q]);
            }
        }
    }
}

proof fn nonzero_holds(list: Seq<(Seq<char>, u64)>, i: int)
    requires
        0 <= i < list.len(),
        list[i].1 > 0,
    ensures
        nonzero(list).contains(list[i]),
    decreases list.len(),
{
    let front = list.drop_last();
    if i < front.len() {
        nonzero_holds(front, i);
        let k = choose|k: int| 0 <= k < nonzero(front).len() && nonzero(front)[k] == front[i];
        assert(nonzero(list)[k] == list[i]);
    } else {
        assert(nonzero(list)[nonzero(list).len() - 1] == list[i]);
    }
}

/// No loud holder escapes: while rows remain, one that is more than a row above the
/// waterline is taken down to it, or to a row above.
pub proof fn loud_holders_are_taken_down(
    counts: Seq<(Seq<char>, u64)>,
    to_delete: nat,
    i: int,
)
    requires
        0 < to_delete < total(counts),
        0 <= i < counts.len(),
        counts[i].1 > waterline(counts, to_delete) + 1,
    ensures
        exists|e: (Seq<char>, u64)|
            {
                &&& #[trigger] evictions(counts, to_delete).contains(e)
                &&& e.0 == counts[i].0
                &&& waterline(counts, to_delete) <= counts[i].1 - e.1 <= waterline(
                    counts,
                    to_delete,
                ) + 1
            },
{
    let s = ranked(counts);
    let level = waterline(counts, to_delete);
    waterline_holds(counts, to_delete);
    let k = holders_above(s, level);
    let cut = trims(s, to_delete, level);
    ranking_rearranges(counts);
    s.to_multiset_ensures();
    counts.to_multiset_ensures();
    assert(counts.contains(counts[i]));
    assert(s.to_multiset().count(counts[i]) > 0);
    assert(s.contains(counts[i]));
    let r = choose|r: int| 0 <= r < s.len() && s[r] == counts[i];
    assert(r < k);
    total_of_trims(s, to_delete, level, k, 0);
    let e = cut[r];
    nonzero_holds(cut, r);
    assert(evictions(counts, to_delete).contains(e));
}

/// An eviction is fair: while rows remain, no holder that gives rows up is left more than a
/// row below what any other holder is left with.
pub proof fn evictions_are_fair(
    counts: Seq<(Seq<char>, u64)>,
    to_delete: nat,
    e: (Seq<char>, u64),
    f: (Seq<char>, u64),
    i: int,
    j: int,
)
    requires
        to_delete < total(counts),
        forall|a: int, b: int|
            0 <= a < b < counts.len() ==> (#[trigger] counts[a]).0 != (#[trigger] counts[b]).0,
        evictions(counts, to_delete).contains(e),
        0 <= i < counts.len(),
        counts[i].0 == e.0,
        0 <= j < counts.len(),
    ensures
        e.1 <= counts[i].1,
        evictions(counts, to_delete).contains(f) && f.0 == counts[j].0 ==> counts[i].1 - e.1 + 1
            >= counts[j].1 - f.1,
        (forall|g: (Seq<char>, u64)|
            #[trigger] evictions(counts, to_delete).contains(g) ==> g.0 != counts[j].0)
            ==> counts[i].1 - e.1 + 1 >= counts[j].1,
{
    let level = waterline(counts, to_delete);
    quiet_holders_are_spared(counts, to_delete, e);
    let a = choose|a: int|
        0 <= a < counts.len() && (#[trigger] counts[a]).0 == e.0 && counts[a].1 > level && level
            <= counts[a].1 - e.1 <= level + 1;
    assert(a == i) by {
        if a < i {
            assert(counts[a].0 != counts[i].0);
        }
        if i < a {
            assert(counts[i].0 != counts[a].0);
        }
    }
    assert(to_delete > 0);
    if evictions(counts, to_delete).contains(f) && f.0 == counts[j].0 {
        quiet_holders_are_spared(counts, to_delete, f);
        let b = choose|b: int|
            0 <= b < counts.len() && (#[trigger] counts[b]).0 == f.0 && counts[b].1 > level && level
                <= counts[b].1 - f.1 <= level + 1;
        assert(b == j) by {
            if b < j {
                assert(counts[b].0 != counts[j].0);
            }
            if j < b {
                assert(counts[j].0 != counts[b].0);
            }
        }
    }
    if (forall|g: (Seq<char>, u64)|
        #[trigger] evictions(counts, to_delete).contains(g) ==> g.0 != counts[j].0)
        && counts[j].1 > level + 1 {
        loud_holders_are_taken_down(counts, to_delete, j);
    }
}

/// Where the rows do not come out even, it is the lower-ranked holders that keep one more.
pub proof fn odd_rows_stay_with_the_lower_ranked(
    counts: Seq<(Seq<char>, u64)>,
    to_delete: nat,
    i: int,
    j: int,
)
    requires
        0 < to_delete < total(counts),
        0 <= i < j < trims(ranked(counts), to_delete, waterline(counts, to_delete)).len(),
    ensures
        ({
            let s = ranked(counts);
            let cut = trims(s, to_delete, waterline(counts, to_delete));
            &&& cut[i].0 == s[i].0
            &&& s[i].1 - cut[i].1 <= s[j].1 - cut[j].1
        }),
{
    let s = ranked(counts);
    let level = waterline(counts, to_delete);
    waterline_holds(counts, to_delete);
    let k = holders_above(s, level);
    total_of_trims(s, to_delete, level, k, 0);
    assert(s[i].1 > level && s[j].1 > level);
}

/// When everything has to go, every holder that has rows gives up all of them.
pub proof fn large_evictions_take_everything(
    counts: Seq<(Seq<char>, u64)>,
    to_delete: nat,
    i: int,
)
    requires
        to_delete >= total(counts),
        0 <= i < counts.len(),
        counts[i].1 > 0,
        total(counts) > 0,
    ensures
        evictions(counts, to_delete).contains(counts[i]),
{
    nonzero_holds(counts, i);
}

} // verus!
