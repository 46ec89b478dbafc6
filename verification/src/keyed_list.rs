//! Keyed list reconciliation for animated lists.
//!
//! When a list is re-rendered, rows whose key is still present take the new
//! item (keeping their DOM node), new keys get new rows, and rows whose key
//! left the list stay mounted while they play an exit transition. A row that
//! starts leaving gets a new exit generation and a removal schedule; a row
//! already leaving is not scheduled again, and a row whose key comes back
//! stops leaving.
use vstd::prelude::*;
use std::collections::{HashMap, HashSet};

verus! {

broadcast use vstd::std_specs::hash::group_hash_axioms;

/// A row of a keyed list as rendered.
pub struct RenderedItem<T> {
    /// The item's key.
    pub key: u64,
    /// Key of the row's DOM node, kept while the row's key stays.
    pub dom_key: String,
    /// The item shown.
    pub item: T,
    /// The row is playing its exit transition.
    pub exiting: bool,
    /// Counts the exits the row has started; a removal is only carried out
    /// for the latest one.
    pub exit_generation: u64,
}

/// An item of the new list: its key, the DOM key a row gets when the key is
/// new, and the item.
pub struct KeyedItem<T> {
    /// The item's key.
    pub key: u64,
    /// DOM key for a row created for this item.
    pub dom_key: String,
    /// The item.
    pub item: T,
}

/// A row removal to carry out once the row's exit transition has run.
#[derive(Clone, Copy, Debug, PartialEq, Eq)]
pub struct ExitSchedule {
    /// Key of the leaving row.
    pub key: u64,
    /// The exit generation the removal belongs to.
    pub generation: u64,
    /// The row's index in the list before reconciliation.
    pub index: usize,
}

/// Where a row of a reconciled list comes from.
pub enum RowOrigin {
    /// The new list's item at this index.
    Listed(int),
    /// The old list's row at this index, whose key left the list.
    Leaving(int),
}

/// Whether the new list holds an item with this key.
pub open spec fn listed<T>(source: Seq<KeyedItem<T>>, key: u64) -> bool {
    exists|j: int| 0 <= j < source.len() && #[trigger] source[j].key == key
}

/// Index of the last old row with this key.
pub open spec fn last_index<T>(current: Seq<RenderedItem<T>>, key: u64) -> Option<int>
    decreases current.len(),
{
    if current.len() == 0 {
        None
    } else if current.last().key == key {
        Some(current.len() - 1)
    } else {
        last_index(current.drop_last(), key)
    }
}

/// Indices, in order, of the first `n` old rows whose key left the list.
pub open spec fn leaving<T>(current: Seq<RenderedItem<T>>, source: Seq<KeyedItem<T>>, n: nat) -> Seq<int>
    decreases n,
{
    if n == 0 {
        Seq::empty()
    } else {
        let earlier = leaving(current, source, (n - 1) as nat);
        if listed(source, current[n - 1].key) {
            earlier
        } else {
            earlier.push(n - 1)
        }
    }
}

/// Put leaving rows back at their old index (or at the end when the list has
/// become shorter), one after the other.
pub open spec fn insert_leaving(rows: Seq<RowOrigin>, exits: Seq<int>) -> Seq<RowOrigin>
    decreases exits.len(),
{
    if exits.len() == 0 {
        rows
    } else {
        let i = exits[0];
        let at = if i < rows.len() { i } else { rows.len() as int };
        insert_leaving(rows.insert(at, RowOrigin::Leaving(i)), exits.drop_first())
    }
}

/// The rows of the reconciled list, by origin: the new list's items in order,
/// with the leaving rows put back.
pub open spec fn layout<T>(current: Seq<RenderedItem<T>>, source: Seq<KeyedItem<T>>) -> Seq<RowOrigin> {
    insert_leaving(
        Seq::new(source.len(), |j: int| RowOrigin::Listed(j)),
        leaving(current, source, current.len()),
    )
}

/// The exit generation after one more exit.
pub open spec fn next_generation(g: u64) -> u64 {
    if g == u64::MAX { g } else { (g + 1) as u64 }
}

/// A reconciled row as its origin makes it. A listed item keeps the DOM key
/// and exit generation of the last old row with its key and stops leaving;
/// a new key gets the item's DOM key and generation zero. A leaving row is a
/// copy of the old row, exiting, with a new generation unless it was exiting
/// already.
pub open spec fn row_from<T: Clone>(
    row: RenderedItem<T>,
    origin: RowOrigin,
    current: Seq<RenderedItem<T>>,
    source: Seq<KeyedItem<T>>,
) -> bool {
    match origin {
        RowOrigin::Listed(j) => {
            &&& 0 <= j < source.len()
            &&& row.key == source[j].key
            &&& row.item == source[j].item
            &&& !row.exiting
            &&& match last_index(current, source[j].key) {
                Some(i) => row.dom_key@ == current[i].dom_key@ && row.exit_generation
                    == current[i].exit_generation,
                None => row.dom_key@ == source[j].dom_key@ && row.exit_generation == 0,
            }
        },
        RowOrigin::Leaving(i) => {
            &&& 0 <= i < current.len()
            &&& row.key == current[i].key
            &&& row.dom_key@ == current[i].dom_key@
            &&& cloned(current[i].item, row.item)
            &&& row.exiting
            &&& row.exit_generation == if current[i].exiting {
                current[i].exit_generation
            } else {
                next_generation(current[i].exit_generation)
            }
        },
    }
}

/// Removal schedules for the leaving rows at `exits` that were not exiting
/// yet, in order.
pub open spec fn schedules_for<T>(current: Seq<RenderedItem<T>>, exits: Seq<int>) -> Seq<ExitSchedule>
    decreases exits.len(),
{
    if exits.len() == 0 {
        Seq::empty()
    } else {
        let earlier = schedules_for(current, exits.drop_last());
        let i = exits.last();
        if current[i].exiting {
            earlier
        } else {
            earlier.push(
                ExitSchedule {
                    key: current[i].key,
                    generation: next_generation(current[i].exit_generation),
                    index: i as usize,
                },
            )
        }
    }
}

/// `next` is the reconciliation of the rows `current` with the new list
/// `source`.
pub open spec fn reconciled<T: Clone>(
    current: Seq<RenderedItem<T>>,
    source: Seq<KeyedItem<T>>,
    next: Seq<RenderedItem<T>>,
) -> bool {
    let rows = layout(current, source);
    &&& next.len() == rows.len()
    &&& forall|p: int| 0 <= p < next.len() ==> #[trigger] row_from(next[p], rows[p], current, source)
}

proof fn lemma_last_index<T>(current: Seq<RenderedItem<T>>, key: u64)
    ensures
        last_index(current, key) matches Some(i) ==> 0 <= i < current.len() && current[i].key == key,
        last_index(current, key) is None ==> forall|x: int|
            0 <= x < current.len() ==> #[trigger] current[x].key != key,
    decreases current.len(),
{
    if current.len() > 0 && current.last().key != key {
        lemma_last_index(current.drop_last(), key);
        assert forall|x: int| 0 <= x < current.len() - 1 implies current[x] == current.drop_last()[x] by {}
    }
}

/// Whether a scheduled removal still applies to a row: the row has the key
/// and is playing the exit of that generation.
pub fn matches_exit<T>(entry: &RenderedItem<T>, key: u64, generation: u64) -> (b: bool)
    ensures
        b == (entry.key == key && entry.exiting && entry.exit_generation == generation),
{
    entry.key == key && entry.exiting && entry.exit_generation == generation
}

/// Reconcile the rendered rows `current` with the new list `source`: the
/// rows of the new list's items in order, with the rows whose key left put
/// back at their old index (or at the end) and exiting, and the removals to
/// schedule for rows that started leaving.
pub fn reconcile_rendered_items<T: Clone>(
    current: &[RenderedItem<T>],
    source: Vec<KeyedItem<T>>,
) -> (res: (Vec<RenderedItem<T>>, Vec<ExitSchedule>))
    ensures
        reconciled(current@, source@, res.0@),
        res.1@ == schedules_for(current@, leaving(current@, source@, current@.len())),
{
    let ghost src = source@;
    let ghost cur = current@;

    // keys of the new list
    let mut source_keys: HashSet<u64> = HashSet::new();
    let mut j: usize = 0;
    while j < source.len()
        invariant
            j <= src.len(),
            source@ == src,
            forall|k: u64|
                source_keys@.contains(k) <==> exists|x: int| 0 <= x < j && #[trigger] src[x].key == k,
        decreases src.len() - j,
    {
        source_keys.insert(source[j].key);
        j += 1;
    }
    assert forall|k: u64| source_keys@.contains(k) <==> listed(src, k) by {}

    // index of the last old row with each key
    let mut current_by_key: HashMap<u64, usize> = HashMap::new();
    let mut i: usize = 0;
    while i < current.len()
        invariant
            i <= cur.len(),
            current@ == cur,
            forall|k: u64|
                #[trigger] current_by_key@.contains_key(k) <==> last_index(cur.take(i as int), k) is Some,
            forall|k: u64|
                current_by_key@.contains_key(k) ==> last_index(cur.take(i as int), k) == Some(
                    #[trigger] current_by_key@[k] as int,
                ),
        decreases cur.len() - i,
    {
        current_by_key.insert(current[i].key, i);
        assert(cur.take(i + 1).drop_last() =~= cur.take(i as int));
        i += 1;
    }
    assert(cur.take(cur.len() as int) =~= cur);

    // rows for the new list's items
    let mut next: Vec<RenderedItem<T>> = Vec::new();
    for entry in it: source.into_iter()
        invariant
            it.seq() == src,
            current@ == cur,
            next@.len() == it.index(),
            forall|k: u64| #[trigger] current_by_key@.contains_key(k) <==> last_index(cur, k) is Some,
            forall|k: u64|
                current_by_key@.contains_key(k) ==> last_index(cur, k) == Some(
                    #[trigger] current_by_key@[k] as int,
                ),
            forall|p: int|
                0 <= p < next@.len() ==> #[trigger] row_from(next@[p], RowOrigin::Listed(p), cur, src),
    {
        let KeyedItem { key, dom_key, item } = entry;
        proof {
            lemma_last_index(cur, key);
        }
        let row = match current_by_key.get(&key) {
            Some(found) => {
                let i = *found;
                RenderedItem {
                    key,
                    dom_key: current[i].dom_key.clone(),
                    item,
                    exiting: false,
                    exit_generation: current[i].exit_generation,
                }
            },
            None => RenderedItem { key, dom_key, item, exiting: false, exit_generation: 0 },
        };
        next.push(row);
    }

    // old rows whose key left the list, now exiting
    let mut retained: Vec<(usize, RenderedItem<T>)> = Vec::new();
    let mut schedules: Vec<ExitSchedule> = Vec::new();
    let mut i: usize = 0;
    while i < current.len()
        invariant
            i <= cur.len(),
            current@ == cur,
            forall|k: u64| source_keys@.contains(k) <==> listed(src, k),
            retained@.len() == leaving(cur, src, i as nat).len(),
            forall|x: int|
                0 <= x < retained@.len() ==> #[trigger] retained@[x].0 == leaving(cur, src, i as nat)[x]
                    && row_from(retained@[x].1, RowOrigin::Leaving(retained@[x].0 as int), cur, src),
            schedules@ == schedules_for(cur, leaving(cur, src, i as nat)),
        decreases cur.len() - i,
    {
        let ghost before = leaving(cur, src, i as nat);
        if !source_keys.contains(&current[i].key) {
            let e = &current[i];
            let generation = if e.exiting {
                e.exit_generation
            } else {
                e.exit_generation.saturating_add(1)
            };
            if !e.exiting {
                schedules.push(ExitSchedule { key: e.key, generation, index: i });
            }
            let row = RenderedItem {
                key: e.key,
                dom_key: e.dom_key.clone(),
                item: e.item.clone(),
                exiting: true,
                exit_generation: generation,
            };
            retained.push((i, row));
            proof {
                let after = leaving(cur, src, (i + 1) as nat);
                assert(after == before.push(i as int));
                assert(after.drop_last() =~= before);
            }
        }
        i += 1;
    }

    // put the leaving rows back at their old index
    let ghost exits = leaving(cur, src, cur.len() as nat);
    let ghost mut rows: Seq<RowOrigin> = Seq::new(src.len(), |j: int| RowOrigin::Listed(j));
    let ghost pending = retained@;
    assert(exits.subrange(0, exits.len() as int) =~= exits);
    assert forall|x: int| 0 <= x < pending.len() implies row_from(
        (#[trigger] pending[x]).1,
        RowOrigin::Leaving(exits[x]),
        cur,
        src,
    ) by {
        assert(pending[x].0 == exits[x]);
    }
    for pair in it: retained.into_iter()
        invariant
            it.seq() == pending,
            pending.len() == exits.len(),
            forall|x: int| 0 <= x < pending.len() ==> (#[trigger] pending[x]).0 == exits[x],
            forall|x: int|
                0 <= x < pending.len() ==> row_from(
                    (#[trigger] pending[x]).1,
                    RowOrigin::Leaving(exits[x]),
                    cur,
                    src,
                ),
            insert_leaving(rows, exits.subrange(it.index() as int, exits.len() as int)) == layout(
                cur,
                src,
            ),
            next@.len() == rows.len(),
            forall|p: int| 0 <= p < next@.len() ==> #[trigger] row_from(next@[p], rows[p], cur, src),
    {
        let (index, entry) = pair;
        let at = if index < next.len() { index } else { next.len() };
        proof {
            let k = it.index() as int;
            let rest = exits.subrange(k, exits.len() as int);
            assert(rest.drop_first() =~= exits.subrange(k + 1, exits.len() as int));
            assert(rest[0] == index);
        }
        next.insert(at, entry);
        proof {
            rows = rows.insert(at as int, RowOrigin::Leaving(index as int));
        }
    }
    (next, schedules)
}

proof fn lemma_leaving<T>(current: Seq<RenderedItem<T>>, source: Seq<KeyedItem<T>>, n: nat)
    requires
        n <= current.len(),
    ensures
        forall|a: int, b: int|
            0 <= a < b < leaving(current, source, n).len() ==> #[trigger] leaving(current, source, n)[a]
                < #[trigger] leaving(current, source, n)[b],
        forall|a: int|
            0 <= a < leaving(current, source, n).len() ==> 0 <= #[trigger] leaving(current, source, n)[a]
                < n && !listed(source, current[leaving(current, source, n)[a]].key),
    decreases n,
{
    if n > 0 {
        lemma_leaving(current, source, (n - 1) as nat);
        let earlier = leaving(current, source, (n - 1) as nat);
        let l = leaving(current, source, n);
        if !listed(source, current[n - 1].key) {
            assert(l == earlier.push(n - 1));
            assert forall|a: int| 0 <= a < l.len() implies 0 <= #[trigger] l[a] < n && !listed(
                source,
                current[l[a]].key,
            ) by {
                if a < earlier.len() {
                    assert(l[a] == earlier[a]);
                }
            }
            assert forall|a: int, b: int| 0 <= a < b < l.len() implies #[trigger] l[a] < #[trigger] l[b] by {
                assert(l[a] == earlier[a]);
                if b < earlier.len() {
                    assert(l[b] == earlier[b]);
                }
            }
        }
    }
}

/// Origins of listed items increase along the rows, and so do those of
/// leaving rows; a leaving row stands no later than its old index.
pub open spec fn ordered_rows(rows: Seq<RowOrigin>) -> bool {
    &&& forall|p: int, q: int|
        0 <= p < q < rows.len() && rows[p] is Listed && rows[q] is Listed ==> (#[trigger] rows[p])->Listed_0
            < (#[trigger] rows[q])->Listed_0
    &&& forall|p: int, q: int|
        0 <= p < q < rows.len() && rows[p] is Leaving && rows[q] is Leaving ==> (#[trigger] rows[p])->Leaving_0
            < (#[trigger] rows[q])->Leaving_0
    &&& forall|p: int| 0 <= p < rows.len() && (#[trigger] rows[p]) is Leaving ==> p <= rows[p]->Leaving_0
}

proof fn lemma_insert_leaving_ordered(rows: Seq<RowOrigin>, exits: Seq<int>)
    requires
        ordered_rows(rows),
        forall|a: int, b: int| 0 <= a < b < exits.len() ==> #[trigger] exits[a] < #[trigger] exits[b],
        forall|a: int| 0 <= a < exits.len() ==> 0 <= #[trigger] exits[a],
        forall|p: int, a: int|
            0 <= p < rows.len() && 0 <= a < exits.len() && (#[trigger] rows[p]) is Leaving ==> rows[p]->Leaving_0
                < #[trigger] exits[a],
    ensures
        ordered_rows(insert_leaving(rows, exits)),
        insert_leaving(rows, exits).len() == rows.len() + exits.len(),
    decreases exits.len(),
{
    if exits.len() > 0 {
        let i = exits[0];
        let at = if i < rows.len() { i } else { rows.len() as int };
        let r2 = rows.insert(at, RowOrigin::Leaving(i));
        let rest = exits.drop_first();
        assert forall|p: int| 0 <= p < r2.len() implies #[trigger] r2[p] == if p < at {
            rows[p]
        } else if p == at {
            RowOrigin::Leaving(i)
        } else {
            rows[p - 1]
        } by {}
        assert forall|p: int| 0 <= p < rows.len() && (#[trigger] rows[p]) is Leaving implies p < at by {
            assert(rows[p]->Leaving_0 < exits[0]);
        }
        assert(ordered_rows(r2));
        assert forall|p: int, a: int|
            0 <= p < r2.len() && 0 <= a < rest.len() && (#[trigger] r2[p]) is Leaving implies r2[p]->Leaving_0
                < #[trigger] rest[a] by {
            assert(rest[a] == exits[a + 1]);
            if p != at {
                let q = if p < at { p } else { p - 1 };
                assert(rows[q]->Leaving_0 < exits[a + 1]);
            }
        }
        lemma_insert_leaving_ordered(r2, rest);
    }
}

/// Reconciliation keeps orders: the new list's items come in the new list's
/// order, the leaving rows in their old order, each no later than its old
/// index; and there is one row per new item plus one per leaving row.
pub proof fn law_reconcile_keeps_orders<T>(current: Seq<RenderedItem<T>>, source: Seq<KeyedItem<T>>)
    ensures
        ordered_rows(layout(current, source)),
        layout(current, source).len() == source.len() + leaving(current, source, current.len()).len(),
{
    let exits = leaving(current, source, current.len());
    lemma_leaving(current, source, current.len());
    let base = Seq::new(source.len(), |j: int| RowOrigin::Listed(j));
    assert(ordered_rows(base));
    lemma_insert_leaving_ordered(base, exits);
}

proof fn lemma_schedules_none<T>(current: Seq<RenderedItem<T>>, exits: Seq<int>)
    requires
        forall|a: int| 0 <= a < exits.len() ==> (#[trigger] current[exits[a]]).exiting,
    ensures
        schedules_for(current, exits) == Seq::<ExitSchedule>::empty(),
    decreases exits.len(),
{
    if exits.len() > 0 {
        let init = exits.drop_last();
        assert forall|a: int| 0 <= a < init.len() implies (#[trigger] current[init[a]]).exiting by {
            assert(init[a] == exits[a]);
        }
        lemma_schedules_none(current, init);
        assert(current[exits[exits.len() - 1]].exiting);
    }
}

/// A leaving row is scheduled for removal once: reconciling the result again
/// with a list of the same keys schedules nothing.
pub proof fn law_exits_are_scheduled_once<T: Clone>(
    current: Seq<RenderedItem<T>>,
    source: Seq<KeyedItem<T>>,
    next: Seq<RenderedItem<T>>,
    again: Seq<KeyedItem<T>>,
)
    requires
        reconciled(current, source, next),
        forall|k: u64| listed(again, k) <==> listed(source, k),
    ensures
        schedules_for(next, leaving(next, again, next.len())) == Seq::<ExitSchedule>::empty(),
{
    let exits = leaving(next, again, next.len());
    lemma_leaving(next, again, next.len());
    let rows = layout(current, source);
    assert forall|a: int| 0 <= a < exits.len() implies (#[trigger] next[exits[a]]).exiting by {
        let p = exits[a];
        assert(row_from(next[p], rows[p], current, source));
        if let RowOrigin::Listed(j) = rows[p] {
            assert(listed(source, source[j].key));
            assert(listed(again, next[p].key));
        }
    }
    lemma_schedules_none(next, exits);
}

} // verus!
verus! {

proof fn lemma_leaving_contains<T>(current: Seq<RenderedItem<T>>, source: Seq<KeyedItem<T>>, n: nat, i: int)
    requires
        0 <= i < n <= current.len(),
        !listed(source, current[i].key),
    ensures
        leaving(current, source, n).contains(i),
    decreases n,
{
    let earlier = leaving(current, source, (n - 1) as nat);
    if i < n - 1 {
        lemma_leaving_contains(current, source, (n - 1) as nat, i);
        let x = choose|x: int| 0 <= x < earlier.len() && earlier[x] == i;
        if !listed(source, current[n - 1].key) {
            assert(leaving(current, source, n)[x] == i);
        }
    } else {
        assert(leaving(current, source, n) == earlier.push(i));
        assert(leaving(current, source, n)[earlier.len() as int] == i);
    }
}

proof fn lemma_insert_leaving_keeps(rows: Seq<RowOrigin>, exits: Seq<int>)
    requires
        forall|x: int| 0 <= x < exits.len() ==> 0 <= #[trigger] exits[x],
    ensures
        forall|p: int| 0 <= p < rows.len() ==> insert_leaving(rows, exits).contains(#[trigger] rows[p]),
        forall|x: int|
            0 <= x < exits.len() ==> insert_leaving(rows, exits).contains(RowOrigin::Leaving(#[trigger] exits[x])),
    decreases exits.len(),
{
    if exits.len() > 0 {
        let i = exits[0];
        let at = if i < rows.len() { i } else { rows.len() as int };
        let r2 = rows.insert(at, RowOrigin::Leaving(i));
        let rest = exits.drop_first();
        assert forall|x: int| 0 <= x < rest.len() implies 0 <= #[trigger] rest[x] by {
            assert(rest[x] == exits[x + 1]);
        }
        lemma_insert_leaving_keeps(r2, rest);
        let out = insert_leaving(rows, exits);
        assert forall|p: int| 0 <= p < rows.len() implies out.contains(#[trigger] rows[p]) by {
            let q = if p < at { p } else { p + 1 };
            assert(r2[q] == rows[p]);
        }
        assert(r2[at] == RowOrigin::Leaving(i));
        assert forall|x: int| 0 <= x < exits.len() implies out.contains(
            RowOrigin::Leaving(#[trigger] exits[x]),
        ) by {
            if x > 0 {
                assert(rest[x - 1] == exits[x]);
            }
        }
    }
}

/// A row that was already leaving keeps the exit generation its removal was
/// scheduled with: after reconciliation it is still in the list, exiting,
/// with the same key and generation, so that removal still applies to it.
pub proof fn law_pending_exits_still_match<T: Clone>(
    current: Seq<RenderedItem<T>>,
    source: Seq<KeyedItem<T>>,
    next: Seq<RenderedItem<T>>,
    i: int,
)
    requires
        reconciled(current, source, next),
        0 <= i < current.len(),
        current[i].exiting,
        !listed(source, current[i].key),
    ensures
        exists|p: int|
            0 <= p < next.len() && #[trigger] next[p].key == current[i].key && next[p].exiting
                && next[p].exit_generation == current[i].exit_generation,
{
    lemma_leaving_contains(current, source, current.len(), i);
    lemma_leaving(current, source, current.len());
    let exits = leaving(current, source, current.len());
    let x = choose|x: int| 0 <= x < exits.len() && exits[x] == i;
    let base = Seq::new(source.len(), |j: int| RowOrigin::Listed(j));
    lemma_insert_leaving_keeps(base, exits);
    let rows = layout(current, source);
    assert(rows.contains(RowOrigin::Leaving(exits[x])));
    let p = choose|p: int| 0 <= p < rows.len() && rows[p] == RowOrigin::Leaving(i);
    assert(row_from(next[p], rows[p], current, source));
}

/// A row that starts leaving is scheduled for removal under the generation
/// it now carries: each schedule names a row of the reconciled list that is
/// exiting with that key and generation.
pub proof fn law_new_schedules_match_rows<T: Clone>(
    current: Seq<RenderedItem<T>>,
    source: Seq<KeyedItem<T>>,
    next: Seq<RenderedItem<T>>,
    i: int,
)
    requires
        reconciled(current, source, next),
        0 <= i < current.len(),
        !current[i].exiting,
        !listed(source, current[i].key),
    ensures
        exists|p: int|
            0 <= p < next.len() && #[trigger] next[p].key == current[i].key && next[p].exiting
                && next[p].exit_generation == next_generation(current[i].exit_generation),
{
    lemma_leaving_contains(current, source, current.len(), i);
    lemma_leaving(current, source, current.len());
    let exits = leaving(current, source, current.len());
    let x = choose|x: int| 0 <= x < exits.len() && exits[x] == i;
    let base = Seq::new(source.len(), |j: int| RowOrigin::Listed(j));
    lemma_insert_leaving_keeps(base, exits);
    let rows = layout(current, source);
    assert(rows.contains(RowOrigin::Leaving(exits[x])));
    let p = choose|p: int| 0 <= p < rows.len() && rows[p] == RowOrigin::Leaving(i);
    assert(row_from(next[p], rows[p], current, source));
}

} // verus!
