//! What is remembered: verdicts for a while, and the newest events of a run.
use vstd::prelude::*;

use crate::events::EventView;
use crate::memory;
use crate::memory::{EntryView, MemoryView, VerdictView};
use crate::progress::ProgressView;

verus! {

/// Whether an entry stands under a name: no newer one does.
pub open spec fn known(m: Seq<(Seq<char>, EntryView)>, key: Seq<char>, e: EntryView) -> bool {
    exists|k: int|
        0 <= k < m.len() && #[trigger] m[k] == (key, e) && forall|i: int|
            0 <= i < k ==> (#[trigger] m[i]).0 != key
}

/// Whether no entry stands under a name.
pub open spec fn unknown(m: Seq<(Seq<char>, EntryView)>, key: Seq<char>) -> bool {
    forall|k: int| 0 <= k < m.len() ==> (#[trigger] m[k]).0 != key
}

proof fn recalled(m: Seq<(Seq<char>, EntryView)>, key: Seq<char>)
    ensures
        forall|e: EntryView|
            #![auto]
            memory::recall(m, key) == Some(e) <==> known(m, key, e),
        memory::recall(m, key) is None <==> unknown(m, key),
    decreases m.len(),
{
    if m.len() > 0 {
        let r = m.drop_first();
        recalled(r, key);
        assert(forall|k: int| 0 <= k < r.len() ==> #[trigger] r[k] == m[k + 1]);
        assert forall|e: EntryView|
            #![auto]
            memory::recall(m, key) == Some(e) <==> known(m, key, e) by {
            if m[0].0 == key {
                assert(known(m, key, m[0].1)) by {
                    assert(m[0] == (key, m[0].1));
                }
                if known(m, key, e) {
                    let k = choose|k: int|
                        0 <= k < m.len() && #[trigger] m[k] == (key, e) && forall|i: int|
                            0 <= i < k ==> (#[trigger] m[i]).0 != key;
                    assert(k == 0);
                }
            } else {
                if known(m, key, e) {
                    let k = choose|k: int|
                        0 <= k < m.len() && #[trigger] m[k] == (key, e) && forall|i: int|
                            0 <= i < k ==> (#[trigger] m[i]).0 != key;
                    assert(k > 0);
                    assert(r[k - 1] == m[k]);
                    assert forall|i: int| 0 <= i < k - 1 implies (#[trigger] r[i]).0 != key by {
                        assert(r[i] == m[i + 1]);
                    }
                    assert(known(r, key, e));
                }
                if known(r, key, e) {
                    let k = choose|k: int|
                        0 <= k < r.len() && #[trigger] r[k] == (key, e) && forall|i: int|
                            0 <= i < k ==> (#[trigger] r[i]).0 != key;
                    assert(m[k + 1] == r[k]);
                    assert forall|i: int| 0 <= i < k + 1 implies (#[trigger] m[i]).0 != key by {
                        if i > 0 {
                            assert(r[i - 1] == m[i]);
                        }
                    }
                    assert(known(m, key, e));
                }
            }
        }
        if unknown(r, key) && m[0].0 != key {
            assert forall|k: int| 0 <= k < m.len() implies (#[trigger] m[k]).0 != key by {
                if k > 0 {
                    assert(r[k - 1] == m[k]);
                }
            }
        }
        if unknown(m, key) {
            assert(m[0].0 != key);
            assert forall|k: int| 0 <= k < r.len() implies (#[trigger] r[k]).0 != key by {
                assert(r[k] == m[k + 1]);
            }
        }
    }
}

/// A verdict is known while it is younger than the time it is remembered for, and no longer.
pub proof fn verdicts_are_known_while_fresh(
    m: MemoryView,
    key: Seq<char>,
    now: u64,
    v: VerdictView,
)
    ensures
        m.fresh(key, now) == Some(v) <==> exists|e: EntryView| #[trigger]
            known(m.entries, key, e) && e.verdict == v && 0 < m.ttl && now < e.at + m.ttl,
{
    recalled(m.entries, key);
    match memory::recall(m.entries, key) {
        Some(e) => {
            assert(known(m.entries, key, e));
        },
        None => {},
    }
}

proof fn apart(m: Seq<(Seq<char>, EntryView)>, key: Seq<char>, other: Seq<char>)
    requires
        key != other,
    ensures
        memory::recall(memory::without(m, key), other) == memory::recall(m, other),
        memory::recall(memory::without(m, key), key) is None,
    decreases m.len(),
{
    if m.len() > 0 {
        let r = m.drop_first();
        apart(r, key, other);
        if m[0].0 != key {
            let w = seq![m[0]] + memory::without(r, key);
            assert(w.drop_first() =~= memory::without(r, key));
        }
    }
}

proof fn but_the_last(m: Seq<(Seq<char>, EntryView)>, other: Seq<char>)
    requires
        m.len() > 0,
        m.last().0 != other,
    ensures
        memory::recall(m.drop_last(), other) == memory::recall(m, other),
    decreases m.len(),
{
    if m.len() == 1 {
        assert(m[0] == m.last());
        assert(memory::recall(m.drop_first(), other) is None);
    } else if m[0].0 != other {
        assert(m.drop_first().drop_last() =~= m.drop_last().drop_first());
        but_the_last(m.drop_first(), other);
    }
}

/// A new entry stands at the front of a memory, and so does one that was looked up and is still
/// fresh; one that was looked up and is not fresh is gone. Every other entry stays, but for the one
/// that was not used longest, where something new comes and there is no more room.
pub proof fn other_verdicts_stay(
    m: MemoryView,
    key: Seq<char>,
    other: Seq<char>,
    now: u64,
    entry: EntryView,
)
    requires
        key != other,
        m.limit > 0,
        m.entries.len() <= m.limit,
    ensures
        ({
            let a = m.asked(key, now);
            let t = m.told(key, entry);
            &&& a.limit == m.limit && a.ttl == m.ttl && t.limit == m.limit && t.ttl == m.ttl
            &&& memory::recall(a.entries, other) == memory::recall(m.entries, other)
            &&& m.fresh(key, now) is Some ==> a.entries.len() > 0 && a.entries[0].0 == key
                && memory::recall(m.entries, key) == Some(a.entries[0].1)
            &&& m.fresh(key, now) is None ==> unknown(a.entries, key)
            &&& t.entries.len() > 0 && t.entries[0] == (key, entry)
            &&& memory::recall(t.entries, other) != memory::recall(m.entries, other) ==> {
                &&& unknown(m.entries, key)
                &&& m.entries.len() == m.limit
                &&& m.entries[m.entries.len() - 1].0 == other
            }
        }),
{
    let e = m.entries;
    recalled(e, key);
    apart(e, key, other);
    recalled(memory::without(e, key), key);
    let t = m.told(key, entry).entries;
    let rest = if memory::recall(e, key) is None && e.len() == m.limit {
        e.drop_last()
    } else {
        memory::without(e, key)
    };
    assert(t.drop_first() =~= rest);
    if e.len() > 0 && e.last().0 != other {
        but_the_last(e, other);
    }
    match memory::recall(e, key) {
        Some(x) => {
            let front = memory::touched(e, key);
            assert(front.drop_first() =~= memory::without(e, key));
        },
        None => {},
    }
}

/// What is held of a run are the newest events, in the order in which they came: as many of those
/// that were held before and of those that are added as may be held. Each that is added counts, and
/// each that is no longer held counts as evicted.
pub proof fn the_newest_events_are_held(p: ProgressView, added: Seq<EventView>)
    requires
        p.balanced(),
        p.countable(added.len()),
    ensures
        ({
            let q = p.with_events(added);
            let all = p.events + added;
            let gone: int = if all.len() <= p.limit {
                0
            } else {
                all.len() - p.limit
            };
            &&& q.events == all.subrange(gone, all.len() as int)
            &&& q.evicted == p.evicted + gone
            &&& q.total == p.total + added.len()
            &&& q.limit == p.limit && q.pending == p.pending && q.usage == p.usage
            &&& q.phase == p.phase && q.revision == p.revision
        }),
    decreases added.len(),
{
    let all = p.events + added;
    if added.len() == 0 {
        assert(all.subrange(0, all.len() as int) =~= p.events);
    } else {
        let less = added.drop_last();
        the_newest_events_are_held(p, less);
        let before = p.events + less;
        assert(all =~= before.push(added.last()));
        let q = p.with_events(less);
        let g = all.len() - p.limit;
        if all.len() <= p.limit {
            assert(before.subrange(0, before.len() as int).push(added.last()) =~= all.subrange(
                0,
                all.len() as int,
            ));
        } else {
            assert(q.events.drop_first().push(added.last()) =~= all.subrange(g, all.len() as int));
        }
    }
}

}
