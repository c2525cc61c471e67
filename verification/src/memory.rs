//! Memory entries and the bounded short-term memory.
use vstd::prelude::*;
use std::collections::VecDeque;
use vstd::string::StringSliceAdditionalSpecFns;

use crate::text::{chars_of, concat_str, decimal, push_decimal, push_str, str_eq, string_from, trim, trim_chars};
use crate::types::{new_uuid_string, BrainError, MemoryKind, Timestamp};

verus! {

broadcast use vstd::std_specs::vecdeque::group_vec_dequeue_axioms;

/// A single memory entry. `I` is the type of its importance score.
#[derive(Debug, Clone)]
pub struct MemoryEntry<I> {
    pub id: String,
    pub timestamp: Timestamp,
    pub kind: MemoryKind,
    pub content: String,
    pub tags: Vec<String>,
    pub importance: I,
}

impl<I> MemoryEntry<I> {
    /// A new entry with a fresh random id, the current time and no tags.
    pub fn new(kind: MemoryKind, content: String, importance: I) -> (e: Self)
        ensures
            e.kind == kind,
            e.content@ == content@,
            e.tags@.len() == 0,
            e.importance == importance,
    {
        MemoryEntry {
            id: new_uuid_string(),
            timestamp: Timestamp::now(),
            kind,
            content,
            tags: Vec::new(),
            importance,
        }
    }

    /// The same entry with the given tags.
    pub fn with_tags(self, tags: Vec<String>) -> (e: Self)
        ensures
            e.id == self.id,
            e.timestamp == self.timestamp,
            e.kind == self.kind,
            e.content == self.content,
            e.tags == tags,
            e.importance == self.importance,
    {
        MemoryEntry { tags, ..self }
    }
}

/// Query for filtering memories. `I` is the type of the importance score.
#[derive(Debug, Clone)]
pub struct MemoryQuery<I> {
    pub kind: Option<MemoryKind>,
    pub tag: Option<String>,
    pub min_importance: Option<I>,
    pub limit: Option<usize>,
}

impl<I> Default for MemoryQuery<I> {
    fn default() -> (q: Self)
        ensures
            q.kind is None,
            q.tag is None,
            q.min_importance is None,
            q.limit is None,
    {
        MemoryQuery { kind: None, tag: None, min_importance: None, limit: None }
    }
}

/// Whether an entry carries the tag.
pub open spec fn has_tag<I>(e: MemoryEntry<I>, tag: Seq<char>) -> bool {
    exists|k: int| 0 <= k < e.tags@.len() && (#[trigger] e.tags@[k])@ == tag
}

/// Whether an entry passes the query's kind and tag filters.
pub open spec fn passes_filters<I>(e: MemoryEntry<I>, q: MemoryQuery<I>) -> bool {
    &&& (q.kind matches Some(k) ==> e.kind == k)
    &&& (q.tag matches Some(t) ==> has_tag(e, t@))
}

/// Entry `i` is listed before entry `j` in a recall: it is more recent, or
/// as recent and older in the store.
pub open spec fn recalled_before<I>(entries: Seq<MemoryEntry<I>>, i: int, j: int) -> bool {
    entries[i].timestamp.0 > entries[j].timestamp.0 || (entries[i].timestamp.0
        == entries[j].timestamp.0 && i < j)
}

/// Whether `order` is a correct recall of the entries selected by `selected`,
/// most recent first (ties in store order), cut to `limit` entries.
pub open spec fn is_recall_order<I>(
    entries: Seq<MemoryEntry<I>>,
    selected: spec_fn(int) -> bool,
    limit: Option<usize>,
    order: Seq<usize>,
) -> bool {
    &&& forall|k: int| 0 <= k < order.len() ==> (#[trigger] order[k]) < entries.len() && selected(
        order[k] as int,
    )
    &&& forall|k: int, m: int|
        0 <= k < m < order.len() ==> recalled_before(
            entries,
            #[trigger] order[k] as int,
            #[trigger] order[m] as int,
        )
    &&& (limit matches Some(l) ==> order.len() <= l)
    &&& forall|x: int|
        0 <= x < entries.len() && #[trigger] selected(x) && !order.contains(x as usize) ==> {
            &&& limit matches Some(l) && order.len() == l
            &&& forall|k: int|
                0 <= k < order.len() ==> recalled_before(entries, #[trigger] order[k] as int, x)
        }
}

/// Whether `order` is a correct recall for a query, `ok` telling which
/// entries' importance the caller accepted.
pub open spec fn is_recall_of<I>(
    entries: Seq<MemoryEntry<I>>,
    query: MemoryQuery<I>,
    ok: Seq<bool>,
    order: Seq<usize>,
) -> bool {
    is_recall_order(entries, |x: int| passes_filters(entries[x], query) && ok[x], query.limit, order)
}

/// Forgetting an id leaves no entry with that id, and keeps every other
/// entry in its order.
pub proof fn lemma_forget_removes_id<I>(entries: Seq<MemoryEntry<I>>, id: Seq<char>)
    ensures
        forall|k: int|
            0 <= k < without_id(entries, id).len() ==> (#[trigger] without_id(entries, id)[k]).id@
                != id,
        forall|k: int|
            0 <= k < entries.len() && (#[trigger] entries[k]).id@ != id ==> without_id(
                entries,
                id,
            ).contains(entries[k]),
{
    broadcast use vstd::seq_lib::group_filter_ensures;
}

/// A recall without a limit lists every entry it selects.
pub proof fn lemma_unlimited_recall_is_complete<I>(
    entries: Seq<MemoryEntry<I>>,
    query: MemoryQuery<I>,
    ok: Seq<bool>,
    order: Seq<usize>,
    x: int,
)
    requires
        query.limit is None,
        is_recall_of(entries, query, ok, order),
        0 <= x < entries.len(),
        x <= usize::MAX,
        passes_filters(entries[x], query),
        ok[x],
    ensures
        order.contains(x as usize),
{
    let selected = |y: int| passes_filters(entries[y], query) && ok[y];
    assert(selected(x));
}

/// What is stored is recalled: after storing an entry, a recall without a
/// limit whose filters the entry passes (and whose importance test it
/// passes) lists it.
pub proof fn lemma_stored_entry_recalled<I>(
    before: Seq<MemoryEntry<I>>,
    capacity: nat,
    e: MemoryEntry<I>,
    query: MemoryQuery<I>,
    ok: Seq<bool>,
    order: Seq<usize>,
)
    requires
        stored(before, capacity, e).len() <= usize::MAX,
        ok.len() == stored(before, capacity, e).len(),
        ok.last(),
        passes_filters(e, query),
        query.limit is None,
        is_recall_of(stored(before, capacity, e), query, ok, order),
    ensures
        stored(before, capacity, e).last() == e,
        order.contains((stored(before, capacity, e).len() - 1) as usize),
{
    let after = stored(before, capacity, e);
    let x = after.len() - 1;
    assert(after[x] == e);
    lemma_unlimited_recall_is_complete(after, query, ok, order, x);
}

/// Whether an entry carries the tag.
pub fn entry_has_tag<I>(e: &MemoryEntry<I>, tag: &str) -> (b: bool)
    ensures
        b == has_tag(*e, tag@),
{
    let mut k: usize = 0;
    while k < e.tags.len()
        invariant
            k <= e.tags@.len(),
            forall|j: int| 0 <= j < k ==> (#[trigger] e.tags@[j])@ != tag@,
        decreases e.tags@.len() - k,
    {
        if str_eq(e.tags[k].as_str(), tag) {
            return true;
        }
        k = k + 1;
    }
    false
}

/// Whether an entry passes the query's kind and tag filters.
pub fn entry_passes_filters<I>(e: &MemoryEntry<I>, q: &MemoryQuery<I>) -> (b: bool)
    ensures
        b == passes_filters(*e, *q),
{
    match q.kind {
        Some(k) => {
            if e.kind != k {
                return false;
            }
        },
        None => {},
    }
    match &q.tag {
        Some(t) => entry_has_tag(e, t.as_str()),
        None => true,
    }
}

/// Bounded short-term memory: once full, storing evicts the oldest entry.
pub struct ShortTermMemory<I> {
    capacity: usize,
    entries: VecDeque<MemoryEntry<I>>,
}

/// The number of entries a memory of the given capacity can hold: its
/// capacity, but at least the one just stored.
pub open spec fn holding_limit(capacity: nat) -> nat {
    if capacity == 0 {
        1
    } else {
        capacity
    }
}

/// The entries after storing `e` into `s` with the given capacity.
pub open spec fn stored<I>(s: Seq<MemoryEntry<I>>, capacity: nat, e: MemoryEntry<I>) -> Seq<
    MemoryEntry<I>,
> {
    if s.len() >= capacity && s.len() > 0 {
        s.drop_first().push(e)
    } else {
        s.push(e)
    }
}

/// Storing keeps the newest entries: the new entry comes last, after the
/// latest of the entries held before; one entry, the oldest, is evicted
/// exactly when the memory was full, so a full memory stays at its limit.
pub proof fn lemma_store_keeps_newest<I>(s: Seq<MemoryEntry<I>>, capacity: nat, e: MemoryEntry<I>)
    requires
        s.len() <= holding_limit(capacity),
    ensures
        stored(s, capacity, e).len() == (if s.len() < holding_limit(capacity) {
            s.len() + 1
        } else {
            s.len()
        }),
        stored(s, capacity, e).last() == e,
        stored(s, capacity, e).drop_last() == s.skip(
            s.len() + 1 - stored(s, capacity, e).len(),
        ),
{
    let after = stored(s, capacity, e);
    if s.len() >= capacity && s.len() > 0 {
        assert(after.drop_last() =~= s.skip(1));
    } else {
        assert(after.drop_last() =~= s.skip(0));
    }
}

/// The entries after storing each of `es` in turn, oldest first.
pub open spec fn store_each<I>(s: Seq<MemoryEntry<I>>, capacity: nat, es: Seq<MemoryEntry<I>>) -> Seq<
    MemoryEntry<I>,
>
    decreases es.len(),
{
    if es.len() == 0 {
        s
    } else {
        stored(store_each(s, capacity, es.drop_last()), capacity, es.last())
    }
}

/// After storing entries one by one, the memory holds the newest of all the
/// entries it was given, in order, as many as its limit allows.
pub proof fn lemma_store_each_keeps_newest<I>(
    s: Seq<MemoryEntry<I>>,
    capacity: nat,
    es: Seq<MemoryEntry<I>>,
)
    requires
        s.len() <= holding_limit(capacity),
    ensures
        ({
            let all = s + es;
            let n = if all.len() < holding_limit(capacity) {
                all.len() as int
            } else {
                holding_limit(capacity) as int
            };
            store_each(s, capacity, es) == all.skip(all.len() - n)
        }),
    decreases es.len(),
{
    let all = s + es;
    let lim = holding_limit(capacity) as int;
    if es.len() == 0 {
        assert(all =~= s);
        assert(all.skip(0) =~= s);
    } else {
        let d = es.drop_last();
        let x = es.last();
        lemma_store_each_keeps_newest(s, capacity, d);
        let prev_all = s + d;
        let pn = if prev_all.len() < lim {
            prev_all.len() as int
        } else {
            lim
        };
        let prev = store_each(s, capacity, d);
        assert(prev == prev_all.skip(prev_all.len() - pn));
        assert(prev.len() == pn);
        lemma_store_keeps_newest(prev, capacity, x);
        let after = stored(prev, capacity, x);
        let n = if all.len() < lim {
            all.len() as int
        } else {
            lim
        };
        assert(all == prev_all.push(x));
        assert(after.len() == n);
        assert forall|i: int| 0 <= i < n implies #[trigger] after[i] == all.skip(all.len() - n)[i] by {
            if i < n - 1 {
                assert(after[i] == after.drop_last()[i]);
                assert(after.drop_last()[i] == prev.skip(prev.len() + 1 - n)[i]);
                assert(prev[prev.len() + 1 - n + i] == prev_all[prev_all.len() - pn + prev.len() + 1 - n + i]);
            } else {
                assert(after[i] == x);
            }
        }
        assert(after =~= all.skip(all.len() - n));
    }
}

/// The entries whose id differs from `id`, in order.
pub open spec fn without_id<I>(s: Seq<MemoryEntry<I>>, id: Seq<char>) -> Seq<MemoryEntry<I>> {
    s.filter(|e: MemoryEntry<I>| e.id@ != id)
}

impl<I> ShortTermMemory<I> {
    /// The stored entries, oldest first.
    pub closed spec fn contents(&self) -> Seq<MemoryEntry<I>> {
        self.entries@
    }

    /// The capacity.
    pub closed spec fn cap(&self) -> nat {
        self.capacity as nat
    }

    #[verifier::type_invariant]
    closed spec fn bounded(&self) -> bool {
        self.entries@.len() <= holding_limit(self.capacity as nat)
    }

    /// An empty memory with the given capacity.
    pub fn new(capacity: usize) -> (m: Self)
        ensures
            m.contents() == Seq::<MemoryEntry<I>>::empty(),
            m.cap() == capacity,
    {
        ShortTermMemory { capacity, entries: VecDeque::with_capacity(capacity) }
    }

    /// The number of stored entries; never above the capacity, except that a
    /// memory of capacity 0 holds the last entry stored.
    pub fn len(&self) -> (n: usize)
        ensures
            n == self.contents().len(),
            n <= holding_limit(self.cap()),
    {
        proof {
            use_type_invariant(self);
        }
        self.entries.len()
    }

    /// Whether the memory holds no entry.
    pub fn is_empty(&self) -> (b: bool)
        ensures
            b == (self.contents().len() == 0),
    {
        self.entries.len() == 0
    }

    /// The entry at position `i`, oldest first.
    pub fn entry(&self, i: usize) -> (e: &MemoryEntry<I>)
        requires
            i < self.contents().len(),
        ensures
            *e == self.contents()[i as int],
    {
        &self.entries[i]
    }

    /// Store an entry; when the memory is at capacity the oldest is evicted.
    pub fn store(&mut self, entry: MemoryEntry<I>)
        ensures
            final(self).contents() == stored(old(self).contents(), old(self).cap(), entry),
            final(self).cap() == old(self).cap(),
            final(self).contents().len() <= holding_limit(final(self).cap()),
    {
        proof {
            use_type_invariant(&*self);
        }
        let mut q: VecDeque<MemoryEntry<I>> = VecDeque::new();
        std::mem::swap(&mut q, &mut self.entries);
        let ghost before = q@;
        if q.len() >= self.capacity {
            q.pop_front();
        }
        q.push_back(entry);
        proof {
            if before.len() >= self.capacity && before.len() > 0 {
                assert(q@ =~= before.drop_first().push(entry));
            } else {
                assert(q@ =~= before.push(entry));
            }
        }
        self.entries = q;
    }

    /// Forget every entry with the given id; whether any was removed.
    pub fn forget(&mut self, id: &str) -> (removed: bool)
        ensures
            final(self).contents() == without_id(old(self).contents(), id@),
            final(self).cap() == old(self).cap(),
            removed == (final(self).contents().len() < old(self).contents().len()),
            removed == exists|i: int|
                0 <= i < old(self).contents().len() && (#[trigger] old(self).contents()[i]).id@
                    == id@,
    {
        proof {
            use_type_invariant(&*self);
        }
        let ghost pred = |e: MemoryEntry<I>| e.id@ != id@;
        let mut q: VecDeque<MemoryEntry<I>> = VecDeque::new();
        std::mem::swap(&mut q, &mut self.entries);
        let ghost before = q@;
        let n = q.len();
        let mut kept: VecDeque<MemoryEntry<I>> = VecDeque::new();
        let mut i: usize = 0;
        let mut found = false;
        while i < n
            invariant
                n == before.len(),
                i <= n,
                pred == (|e: MemoryEntry<I>| e.id@ != id@),
                q@ == before.skip(i as int),
                kept@ == before.take(i as int).filter(pred),
                found == exists|j: int| 0 <= j < i && (#[trigger] before[j]).id@ == id@,
                kept@.len() <= i,
            decreases n - i,
        {
            let e = q.pop_front().unwrap();
            proof {
                assert(e == before[i as int]);
                assert(before.skip(i as int).drop_first() =~= before.skip(i + 1));
            }
            let ghost kept_before = kept@;
            let same = str_eq(e.id.as_str(), id);
            if same {
                found = true;
            } else {
                kept.push_back(e);
            }
            proof {
                reveal(Seq::filter);
                let pre = before.take(i + 1);
                assert(pre.drop_last() =~= before.take(i as int));
                assert(pre.last() == e);
                assert(pred(e) == !same);
                assert(pre.filter(pred) == (if pred(pre.last()) {
                    pre.drop_last().filter(pred).push(pre.last())
                } else {
                    pre.drop_last().filter(pred)
                }));
                assert(kept@ == pre.filter(pred));
            }
            i = i + 1;
        }
        proof {
            assert(before.take(n as int) =~= before);
            broadcast use vstd::seq_lib::group_filter_ensures;
            if found {
                let j = choose|j: int| 0 <= j < n && (#[trigger] before[j]).id@ == id@;
                assert(!pred(before[j]));
                lemma_filter_drops(before, pred, j);
            } else {
                lemma_filter_keeps_all(before, pred);
            }
        }
        self.entries = kept;
        found
    }

    /// The positions of the entries a query recalls, in recall order: those
    /// that pass the kind and tag filters and whose importance the caller
    /// accepted (`importance_ok[i]` for entry `i`), most recent first, entries
    /// of equal time in store order, at most `limit` of them.
    pub fn recall_order(&self, query: &MemoryQuery<I>, importance_ok: &Vec<bool>) -> (order: Vec<
        usize,
    >)
        requires
            importance_ok.len() == self.contents().len(),
        ensures
            is_recall_order(
                self.contents(),
                |x: int| passes_filters(self.contents()[x], *query) && importance_ok@[x],
                query.limit,
                order@,
            ),
    {
        let ghost entries = self.entries@;
        let ghost selected = |x: int| passes_filters(entries[x], *query) && importance_ok@[x];
        let n = self.entries.len();
        let mut order: Vec<usize> = Vec::new();
        let mut i: usize = 0;
        while i < n
            invariant
                n == entries.len(),
                entries == self.entries@,
                importance_ok.len() == n,
                selected == (|x: int| passes_filters(entries[x], *query) && importance_ok@[x]),
                i <= n,
                forall|k: int|
                    0 <= k < order@.len() ==> (#[trigger] order@[k]) < i && selected(
                        order@[k] as int,
                    ),
                forall|k: int, m: int|
                    0 <= k < m < order@.len() ==> recalled_before(
                        entries,
                        #[trigger] order@[k] as int,
                        #[trigger] order@[m] as int,
                    ),
                forall|x: int| 0 <= x < i && #[trigger] selected(x) ==> order@.contains(x as usize),
            decreases n - i,
        {
            let e = &self.entries[i];
            if entry_passes_filters(e, query) && importance_ok[i] {
                let t = e.timestamp.0;
                let mut p: usize = 0;
                let mut scanning = true;
                while scanning && p < order.len()
                    invariant
                        p <= order@.len(),
                        n == entries.len(),
                        entries == self.entries@,
                        t == entries[i as int].timestamp.0,
                        i < n,
                        forall|k: int| 0 <= k < order@.len() ==> (#[trigger] order@[k]) < i,
                        forall|k: int|
                            0 <= k < p ==> entries[(#[trigger] order@[k]) as int].timestamp.0
                                >= t,
                        !scanning ==> p < order@.len() && entries[order@[p as int] as int].timestamp.0
                            < t,
                    decreases order@.len() - p + (if scanning { 1int } else { 0int }),
                {
                    let o = order[p];
                    assert(o < i);
                    if self.entries[o].timestamp.0 >= t {
                        p = p + 1;
                    } else {
                        scanning = false;
                    }
                }
                proof {
                    lemma_sorted_insert(entries, order@, i as int, p as int);
                }
                let ghost old_order = order@;
                order.insert(p, i);
                proof {
                    assert forall|x: int| 0 <= x < i + 1 && #[trigger] selected(x) implies order@.contains(
                        x as usize,
                    ) by {
                        if x == i {
                            assert(order@[p as int] == x as usize);
                        } else {
                            let k = choose|k: int|
                                0 <= k < old_order.len() && old_order[k] == x as usize;
                            if k < p {
                                assert(order@[k] == x as usize);
                            } else {
                                assert(order@[k + 1] == x as usize);
                            }
                        }
                    }
                    assert forall|k: int| 0 <= k < order@.len() implies (#[trigger] order@[k])
                        < i + 1 && selected(order@[k] as int) by {
                        if k < p {
                            assert(order@[k] == old_order[k]);
                        } else if k > p {
                            assert(order@[k] == old_order[k - 1]);
                        }
                    }
                }
            }
            i = i + 1;
        }
        let ghost full = order@;
        match query.limit {
            Some(l) => {
                order.truncate(l);
            },
            None => {},
        }
        proof {
            assert forall|x: int|
                0 <= x < entries.len() && #[trigger] selected(x) && !order@.contains(x as usize) implies {
                &&& query.limit matches Some(l) && order@.len() == l
                &&& forall|k: int|
                    0 <= k < order@.len() ==> recalled_before(
                        entries,
                        #[trigger] order@[k] as int,
                        x,
                    )
            } by {
                assert(full.contains(x as usize));
                let m = choose|m: int| 0 <= m < full.len() && full[m] == x as usize;
                if let Some(l) = query.limit {
                    if m < l {
                        assert(order@[m] == x as usize);
                    }
                    assert forall|k: int| 0 <= k < order@.len() implies recalled_before(
                        entries,
                        #[trigger] order@[k] as int,
                        x,
                    ) by {
                        assert(order@[k] == full[k]);
                    }
                } else {
                    assert(order@[m] == x as usize);
                }
            }
            assert forall|k: int, m: int|
                0 <= k < m < order@.len() implies recalled_before(
                entries,
                #[trigger] order@[k] as int,
                #[trigger] order@[m] as int,
            ) by {
                assert(order@[k] == full[k]);
                assert(order@[m] == full[m]);
            }
        }
        order
    }

    /// The entries a query recalls, in recall order (see `recall_order`).
    pub fn recall(&self, query: &MemoryQuery<I>, importance_ok: &Vec<bool>) -> (r: Vec<
        &MemoryEntry<I>,
    >)
        requires
            importance_ok.len() == self.contents().len(),
        ensures
            exists|order: Seq<usize>|
                #[trigger] is_recall_of(self.contents(), *query, importance_ok@, order) && r@.len()
                    == order.len() && forall|k: int|
                    0 <= k < order.len() ==> *#[trigger] r@[k] == self.contents()[order[k] as int],
    {
        let order = self.recall_order(query, importance_ok);
        let mut r: Vec<&MemoryEntry<I>> = Vec::new();
        let mut k: usize = 0;
        while k < order.len()
            invariant
                k <= order@.len(),
                r@.len() == k,
                forall|j: int| 0 <= j < order@.len() ==> (#[trigger] order@[j]) < self.contents().len(),
                forall|j: int| 0 <= j < k ==> *#[trigger] r@[j] == self.contents()[order@[j] as int],
            decreases order.len() - k,
        {
            let idx = order[k];
            assert(idx < self.contents().len());
            r.push(self.entry(idx));
            k = k + 1;
        }
        assert(is_recall_of(self.contents(), *query, importance_ok@, order@));
        r
    }
}

/// The name of a memory kind in storage.
pub open spec fn kind_name(kind: MemoryKind) -> Seq<char> {
    match kind {
        MemoryKind::Perception => "perception"@,
        MemoryKind::Conversation => "conversation"@,
        MemoryKind::Goal => "goal"@,
        MemoryKind::Event => "event"@,
        MemoryKind::Fact => "fact"@,
    }
}

/// The name of a memory kind in storage.
pub fn kind_to_str(kind: &MemoryKind) -> (s: &'static str)
    ensures
        s@ == kind_name(*kind),
{
    match kind {
        MemoryKind::Perception => "perception",
        MemoryKind::Conversation => "conversation",
        MemoryKind::Goal => "goal",
        MemoryKind::Event => "event",
        MemoryKind::Fact => "fact",
    }
}

/// The SQL statement that recalls memories from storage: the kind and
/// minimum-importance filters as parameters (in that order) where the query
/// has them; ordered by importance, then recency, and cut to the limit,
/// unless the recall ranks by similarity to a query embedding afterwards.
pub open spec fn recall_statement(
    has_kind: bool,
    has_min_importance: bool,
    by_similarity: bool,
    limit: Option<usize>,
) -> Seq<char> {
    "SELECT id, timestamp_ms, kind, content, tags, importance, embedding FROM memories WHERE 1=1"@
        + (if has_kind {
        " AND kind = ?"@
    } else {
        seq![]
    }) + (if has_min_importance {
        " AND importance >= ?"@
    } else {
        seq![]
    }) + (if by_similarity {
        seq![]
    } else {
        " ORDER BY importance DESC, timestamp_ms DESC"@ + match limit {
            Some(n) => " LIMIT "@ + decimal(n as nat),
            None => seq![],
        }
    })
}

/// The SQL statement that recalls the memories a query asks for.
pub fn recall_sql<I>(query: &MemoryQuery<I>, by_similarity: bool) -> (sql: String)
    ensures
        sql@ == recall_statement(
            query.kind is Some,
            query.min_importance is Some,
            by_similarity,
            query.limit,
        ),
{
    let mut sql =
        "SELECT id, timestamp_ms, kind, content, tags, importance, embedding FROM memories WHERE 1=1".to_owned();
    let ghost s0 = sql@;
    if query.kind.is_some() {
        push_str(&mut sql, " AND kind = ?");
    }
    let ghost s1 = sql@;
    assert(s1 == s0 + (if query.kind is Some {
        " AND kind = ?"@
    } else {
        seq![]
    }));
    if query.min_importance.is_some() {
        push_str(&mut sql, " AND importance >= ?");
    }
    let ghost s2 = sql@;
    assert(s2 == s1 + (if query.min_importance is Some {
        " AND importance >= ?"@
    } else {
        seq![]
    }));
    if !by_similarity {
        push_str(&mut sql, " ORDER BY importance DESC, timestamp_ms DESC");
        match query.limit {
            Some(n) => {
                push_str(&mut sql, " LIMIT ");
                push_decimal(&mut sql, n as u64);
            },
            None => {},
        }
    }
    assert(sql@ =~= recall_statement(
        query.kind is Some,
        query.min_importance is Some,
        by_similarity,
        query.limit,
    ));
    sql
}

/// The memory kind a stored name stands for; an unknown name reads as `Event`.
pub open spec fn kind_of_name(s: Seq<char>) -> MemoryKind {
    if s == "perception"@ {
        MemoryKind::Perception
    } else if s == "conversation"@ {
        MemoryKind::Conversation
    } else if s == "goal"@ {
        MemoryKind::Goal
    } else if s == "fact"@ {
        MemoryKind::Fact
    } else {
        MemoryKind::Event
    }
}

/// The memory kind a stored name stands for; an unknown name reads as `Event`.
pub fn str_to_kind(s: &str) -> (k: MemoryKind)
    ensures
        k == kind_of_name(s@),
{
    if str_eq(s, "perception") {
        MemoryKind::Perception
    } else if str_eq(s, "conversation") {
        MemoryKind::Conversation
    } else if str_eq(s, "goal") {
        MemoryKind::Goal
    } else if str_eq(s, "fact") {
        MemoryKind::Fact
    } else {
        MemoryKind::Event
    }
}

/// Reading back the stored name of a kind gives the kind.
pub proof fn lemma_kind_name_round_trip(kind: MemoryKind)
    ensures
        kind_of_name(kind_name(kind)) == kind,
{
    reveal_strlit("perception");
    reveal_strlit("conversation");
    reveal_strlit("goal");
    reveal_strlit("event");
    reveal_strlit("fact");
    assert("perception"@[0] != "conversation"@[0]);
    assert("perception"@[0] != "goal"@[0]);
    assert("perception"@[0] != "fact"@[0]);
    assert("conversation"@[0] != "goal"@[0]);
    assert("conversation"@[0] != "fact"@[0]);
    assert("goal"@[0] != "fact"@[0]);
    assert("event"@[0] != "perception"@[0]);
    assert("event"@[0] != "conversation"@[0]);
    assert("event"@[0] != "goal"@[0]);
    assert("event"@[0] != "fact"@[0]);
}

/// The name of a memory kind in a reflection prompt.
pub open spec fn kind_label(kind: MemoryKind) -> Seq<char> {
    match kind {
        MemoryKind::Perception => "Perception"@,
        MemoryKind::Conversation => "Conversation"@,
        MemoryKind::Goal => "Goal"@,
        MemoryKind::Event => "Event"@,
        MemoryKind::Fact => "Fact"@,
    }
}

fn kind_label_str(kind: &MemoryKind) -> (s: &'static str)
    ensures
        s@ == kind_label(*kind),
{
    match kind {
        MemoryKind::Perception => "Perception",
        MemoryKind::Conversation => "Conversation",
        MemoryKind::Goal => "Goal",
        MemoryKind::Event => "Event",
        MemoryKind::Fact => "Fact",
    }
}

/// Embedder that queries an Ollama server for embeddings.
pub struct OllamaEmbedder {
    pub host: String,
    pub port: u16,
    pub model: String,
}

impl OllamaEmbedder {
    pub fn new(host: &str, port: u16, model: &str) -> (e: Self)
        ensures
            e.host@ == host@,
            e.port == port,
            e.model@ == model@,
    {
        OllamaEmbedder { host: host.to_owned(), port, model: model.to_owned() }
    }

    /// The embeddings endpoint: `host:port/api/embeddings`.
    pub fn embeddings_url(&self) -> (s: String)
        ensures
            s@ == self.host@ + ":"@ + decimal(self.port as nat) + "/api/embeddings"@,
    {
        let mut s = self.host.clone();
        push_str(&mut s, ":");
        push_decimal(&mut s, self.port as u64);
        push_str(&mut s, "/api/embeddings");
        s
    }
}

/// The wrapping sum of the bytes.
pub open spec fn byte_sum(b: Seq<u8>) -> u32
    decreases b.len(),
{
    if b.len() == 0 {
        0
    } else {
        byte_sum(b.drop_last()).wrapping_add(b.last() as u32)
    }
}

/// The number of values in a mock embedding.
pub open spec fn mock_dimension() -> nat {
    384
}

/// Mock embedder: deterministic fake embeddings from a hash of the text.
pub struct MockEmbedder;

impl MockEmbedder {
    /// The hash of a text: the wrapping sum of its UTF-8 bytes.
    pub fn text_hash(&self, text: &str) -> (h: u32)
        ensures
            h == byte_sum(text.spec_bytes()),
    {
        let b = text.as_bytes();
        let mut h: u32 = 0;
        let mut i: usize = 0;
        while i < b.len()
            invariant
                i <= b@.len(),
                b@ == text.spec_bytes(),
                h == byte_sum(b@.take(i as int)),
            decreases b.len() - i,
        {
            proof {
                assert(b@.take(i + 1).drop_last() =~= b@.take(i as int));
            }
            h = h.wrapping_add(b[i] as u32);
            i = i + 1;
        }
        proof {
            assert(b@.take(b@.len() as int) =~= b@);
        }
        h
    }

    /// The integer seeds of a text's embedding: the hash times 1, 2, ...,
    /// 384, wrapping. Each value of the embedding is its seed scaled to the
    /// unit interval and shifted by one half.
    pub fn seeds(&self, text: &str) -> (v: Vec<u32>)
        ensures
            v@.len() == mock_dimension(),
            forall|i: int|
                0 <= i < v@.len() ==> #[trigger] v@[i] == byte_sum(text.spec_bytes()).wrapping_mul(
                    (i + 1) as u32,
                ),
    {
        let h = self.text_hash(text);
        let mut v: Vec<u32> = Vec::new();
        let mut i: u32 = 0;
        while i < 384
            invariant
                i <= 384,
                h == byte_sum(text.spec_bytes()),
                v@.len() == i,
                forall|k: int| 0 <= k < i ==> #[trigger] v@[k] == h.wrapping_mul((k + 1) as u32),
            decreases 384 - i,
        {
            v.push(h.wrapping_mul(i + 1));
            i = i + 1;
        }
        v
    }
}

/// Engine for self-reflection over recent memories with a model backend `B`.
pub struct ReflectionEngine<B> {
    backend: B,
    reflection_interval: usize,
}

/// The header of a reflection prompt.
pub open spec fn reflection_header() -> Seq<char> {
    "You are an introspective AI agent. Review the following recent memories and provide a brief insight or pattern you notice. Be concise (1-2 sentences).\n\nRecent memories:\n"@
}

/// The prompt line of the `k`-th memory (from 0): `k+1. [Kind] content`.
pub open spec fn memory_line<I>(k: nat, m: MemoryEntry<I>) -> Seq<char> {
    decimal(k + 1) + ". ["@ + kind_label(m.kind) + "] "@ + m.content@ + "\n"@
}

/// The prompt lines of the memories, numbered from 1.
pub open spec fn memory_lines<I>(ms: Seq<MemoryEntry<I>>) -> Seq<char>
    decreases ms.len(),
{
    if ms.len() == 0 {
        seq![]
    } else {
        memory_lines(ms.drop_last()) + memory_line((ms.len() - 1) as nat, ms.last())
    }
}

impl<B> ReflectionEngine<B> {
    /// The backend.
    pub closed spec fn model(&self) -> B {
        self.backend
    }

    /// Reflect every this many memories.
    pub closed spec fn interval(&self) -> nat {
        self.reflection_interval as nat
    }

    /// An engine that reflects every `interval` memories.
    pub fn new(backend: B, interval: usize) -> (e: Self)
        ensures
            e.model() == backend,
            e.interval() == interval,
    {
        ReflectionEngine { backend, reflection_interval: interval }
    }

    /// The backend.
    pub fn backend(&self) -> (b: &B)
        ensures
            *b == self.model(),
    {
        &self.backend
    }

    /// Whether it is time to reflect: at a positive memory count that is a
    /// multiple of the interval (never, with an interval of 0).
    pub fn should_reflect(&self, memory_count: usize) -> (b: bool)
        ensures
            b == (memory_count > 0 && self.interval() > 0 && (memory_count as nat)
                % self.interval() == 0),
    {
        memory_count > 0 && self.reflection_interval > 0 && memory_count
            % self.reflection_interval == 0
    }

    /// The prompt asking the backend for an insight into the memories.
    pub fn reflection_prompt<I>(&self, recent_memories: &[MemoryEntry<I>]) -> (p: String)
        ensures
            p@ == reflection_header() + memory_lines(recent_memories@) + "\nInsight:"@,
    {
        let mut p = "You are an introspective AI agent. Review the following recent memories and provide a brief insight or pattern you notice. Be concise (1-2 sentences).\n\nRecent memories:\n".to_owned();
        let ghost header = p@;
        let mut i: usize = 0;
        while i < recent_memories.len()
            invariant
                i <= recent_memories@.len(),
                p@ == header + memory_lines(recent_memories@.take(i as int)),
            decreases recent_memories.len() - i,
        {
            let m = &recent_memories[i];
            push_decimal(&mut p, (i as u64) + 1);
            push_str(&mut p, ". [");
            push_str(&mut p, kind_label_str(&m.kind));
            push_str(&mut p, "] ");
            push_str(&mut p, m.content.as_str());
            push_str(&mut p, "\n");
            proof {
                let pre = recent_memories@.take(i + 1);
                assert(pre.drop_last() =~= recent_memories@.take(i as int));
                assert(pre.last() == recent_memories@[i as int]);
            }
            i = i + 1;
        }
        push_str(&mut p, "\nInsight:");
        proof {
            assert(recent_memories@.take(recent_memories@.len() as int) =~= recent_memories@);
        }
        p
    }

    /// The insight entry made from the backend's response: a `Fact` holding
    /// the trimmed response, tagged `reflection` and `insight`.
    pub fn insight_entry<I>(&self, response: &str, importance: I) -> (e: MemoryEntry<I>)
        ensures
            e.kind == MemoryKind::Fact,
            e.content@ == trim(response@),
            e.tags@.len() == 2,
            e.tags@[0]@ == "reflection"@,
            e.tags@[1]@ == "insight"@,
            e.importance == importance,
    {
        let rv = chars_of(response);
        let t = trim_chars(&rv);
        let mut tags: Vec<String> = Vec::new();
        tags.push("reflection".to_owned());
        tags.push("insight".to_owned());
        MemoryEntry::new(MemoryKind::Fact, string_from(&t), importance).with_tags(tags)
    }
}

/// Inserting a new (larger) position at the point after every entry at least
/// as recent keeps a recall order sorted.
proof fn lemma_sorted_insert<I>(entries: Seq<MemoryEntry<I>>, order: Seq<usize>, x: int, p: int)
    requires
        0 <= p <= order.len(),
        0 <= x < entries.len(),
        x <= usize::MAX,
        forall|k: int| 0 <= k < order.len() ==> (#[trigger] order[k]) < x,
        forall|k: int|
            0 <= k < order.len() ==> (#[trigger] order[k]) < entries.len(),
        forall|k: int, m: int|
            0 <= k < m < order.len() ==> recalled_before(
                entries,
                #[trigger] order[k] as int,
                #[trigger] order[m] as int,
            ),
        forall|k: int|
            0 <= k < p ==> entries[(#[trigger] order[k]) as int].timestamp.0
                >= entries[x].timestamp.0,
        p < order.len() ==> entries[order[p] as int].timestamp.0 < entries[x].timestamp.0,
    ensures
        forall|k: int, m: int|
            0 <= k < m < order.insert(p, x as usize).len() ==> recalled_before(
                entries,
                #[trigger] order.insert(p, x as usize)[k] as int,
                #[trigger] order.insert(p, x as usize)[m] as int,
            ),
{
    let r = order.insert(p, x as usize);
    assert forall|k: int, m: int| 0 <= k < m < r.len() implies recalled_before(
        entries,
        #[trigger] r[k] as int,
        #[trigger] r[m] as int,
    ) by {
        if m < p {
            assert(r[k] == order[k] && r[m] == order[m]);
        } else if m == p {
            assert(r[k] == order[k]);
        } else if k < p {
            assert(r[k] == order[k] && r[m] == order[m - 1]);
        } else if k == p {
            assert(r[m] == order[m - 1]);
            assert(recalled_before(entries, order[p] as int, order[m - 1] as int) || m - 1 == p);
        } else {
            assert(r[k] == order[k - 1] && r[m] == order[m - 1]);
        }
    }
}

/// A filter that drops the entry at `j` is shorter than the sequence.
proof fn lemma_filter_drops<A>(s: Seq<A>, pred: spec_fn(A) -> bool, j: int)
    requires
        0 <= j < s.len(),
        !pred(s[j]),
    ensures
        s.filter(pred).len() < s.len(),
    decreases s.len(),
{
    reveal(Seq::filter);
    let t = s.drop_last();
    assert(s.filter(pred) == (if pred(s.last()) {
        t.filter(pred).push(s.last())
    } else {
        t.filter(pred)
    }));
    if j == s.len() - 1 {
        t.lemma_filter_len(pred);
    } else {
        assert(t[j] == s[j]);
        lemma_filter_drops(t, pred, j);
    }
}

/// A filter that keeps every entry is the sequence itself.
proof fn lemma_filter_keeps_all<A>(s: Seq<A>, pred: spec_fn(A) -> bool)
    requires
        forall|i: int| 0 <= i < s.len() ==> pred(#[trigger] s[i]),
    ensures
        s.filter(pred) == s,
    decreases s.len(),
{
    reveal(Seq::filter);
    if s.len() > 0 {
        let t = s.drop_last();
        assert forall|i: int| 0 <= i < t.len() implies pred(#[trigger] t[i]) by {
            assert(t[i] == s[i]);
        }
        lemma_filter_keeps_all(t, pred);
        assert(t.push(s.last()) =~= s);
    }
}

/// The texts of a list of strings.
pub open spec fn texts(v: Seq<String>) -> Seq<Seq<char>> {
    v.map_values(|t: String| t@)
}

/// The list of strings that `serde_json` reads from a JSON text, or `None`
/// when the text is not a JSON array of strings.
pub uninterp spec fn json_string_list(json: Seq<char>) -> Option<Seq<Seq<char>>>;

/// The JSON text that `serde_json` writes for a list of strings.
pub uninterp spec fn json_of_strings(items: Seq<Seq<char>>) -> Seq<char>;

/// Reads a JSON array of strings with `serde_json::from_str::<Vec<String>>`;
/// an error gives `None`. The contract only names the result
/// (`json_string_list`).
#[verifier::external_body]
fn read_string_list(json: &str) -> (r: Option<Vec<String>>)
    ensures
        match r {
            Some(v) => json_string_list(json@) == Some(texts(v@)),
            None => json_string_list(json@) is None,
        },
{
    serde_json::from_str::<Vec<String>>(json).ok()
}

/// Writes a list of strings as JSON with `serde_json::to_string`. The
/// contract only names the text (`json_of_strings`); the error, which
/// `serde_json` gives only for values whose serialization itself fails, is
/// passed on as its `Display` text.
#[verifier::external_body]
fn write_string_list(items: &Vec<String>) -> (r: Result<String, String>)
    ensures
        r matches Ok(j) ==> j@ == json_of_strings(texts(items@)),
{
    serde_json::to_string(items).map_err(|e| e.to_string())
}

/// The tags of a stored entry from their JSON column: the list it holds, or
/// no tags when it does not hold a JSON array of strings.
pub open spec fn stored_tags(json: Seq<char>) -> Seq<Seq<char>> {
    match json_string_list(json) {
        Some(v) => v,
        None => seq![],
    }
}

/// The entry a stored row holds: its timestamp column read as unsigned
/// milliseconds, its kind by name, and its tags from their JSON column.
pub fn entry_from_row<I>(
    id: String,
    timestamp_ms: i64,
    kind: &str,
    content: String,
    tags_json: &str,
    importance: I,
) -> (e: MemoryEntry<I>)
    ensures
        e.id == id,
        e.timestamp == Timestamp(timestamp_ms as u64),
        e.kind == kind_of_name(kind@),
        e.content == content,
        texts(e.tags@) == stored_tags(tags_json@),
        e.importance == importance,
{
    let tags = match read_string_list(tags_json) {
        Some(v) => v,
        None => {
            let empty: Vec<String> = Vec::new();
            proof {
                assert(texts(empty@) =~= seq![]);
            }
            empty
        },
    };
    MemoryEntry {
        id,
        timestamp: Timestamp(timestamp_ms as u64),
        kind: str_to_kind(kind),
        content,
        tags,
        importance,
    }
}

/// The JSON column that stores an entry's tags, or the memory error when
/// they cannot be written.
pub fn tags_column<I>(e: &MemoryEntry<I>) -> (r: Result<String, BrainError>)
    ensures
        r matches Ok(j) ==> j@ == json_of_strings(texts(e.tags@)),
        r matches Err(err) ==> err matches BrainError::Memory(m) && m@.len() >= "Serialize tags: "@.len()
            && m@.subrange(0, "Serialize tags: "@.len() as int) == "Serialize tags: "@,
{
    match write_string_list(&e.tags) {
        Ok(j) => Ok(j),
        Err(msg) => {
            let m = concat_str("Serialize tags: ", msg.as_str());
            proof {
                reveal_strlit("Serialize tags: ");
                assert(m@.subrange(0, "Serialize tags: "@.len() as int) =~= "Serialize tags: "@);
            }
            Err(BrainError::Memory(m))
        },
    }
}

} // verus!
