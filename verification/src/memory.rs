//! Verdicts that are remembered for a while: a bounded memory from which the verdict that was not
//! asked for longest is the first to go.
use vstd::prelude::*;

use crate::jev::{Judgment, JudgmentView};
use crate::search::{Decision, DecisionView};

verus! {

/// A verdict on an event, with the event that it was given for, or on a search.
pub enum Verdict {
    Event { judgment: Judgment, id: String },
    Query(Decision),
}

/// A verdict and the time at which it was given, in nanoseconds of a clock that never goes back.
pub struct Entry {
    pub at: u64,
    pub verdict: Verdict,
}

pub enum VerdictView {
    Event { judgment: JudgmentView, id: Seq<char> },
    Query(DecisionView),
}

pub struct EntryView {
    pub at: u64,
    pub verdict: VerdictView,
}

impl Verdict {
    pub open spec fn view(&self) -> VerdictView {
        match self {
            Verdict::Event { judgment, id } => VerdictView::Event {
                judgment: judgment@,
                id: id@,
            },
            Verdict::Query(d) => VerdictView::Query(d@),
        }
    }
}

impl Entry {
    pub open spec fn view(&self) -> EntryView {
        EntryView { at: self.at, verdict: self.verdict@ }
    }
}

/// `lru::LruCache`, a collection that drops what was used least recently; nothing is known of it but
/// what it holds and how much it can hold, by `entries_of` and `limit_of`.
#[verifier::external_type_specification]
#[verifier::external_body]
#[verifier::reject_recursive_types(K)]
#[verifier::reject_recursive_types(V)]
#[verifier::reject_recursive_types(S)]
pub struct ExLruCache<K, V, S>(lru::LruCache<K, V, S>);

/// What a cache holds, the most recently used entry first.
pub uninterp spec fn entries_of(cache: lru::LruCache<String, Entry>) -> Seq<(Seq<char>, EntryView)>;

/// How many entries a cache can hold.
pub uninterp spec fn limit_of(cache: lru::LruCache<String, Entry>) -> nat;

/// The entry under a name.
pub open spec fn recall(entries: Seq<(Seq<char>, EntryView)>, key: Seq<char>) -> Option<EntryView>
    decreases entries.len(),
{
    if entries.len() == 0 {
        None
    } else if entries[0].0 == key {
        Some(entries[0].1)
    } else {
        recall(entries.drop_first(), key)
    }
}

/// The entries but for the one under a name, in their order.
pub open spec fn without(
    entries: Seq<(Seq<char>, EntryView)>,
    key: Seq<char>,
) -> Seq<(Seq<char>, EntryView)>
    decreases entries.len(),
{
    if entries.len() == 0 {
        seq![]
    } else if entries[0].0 == key {
        without(entries.drop_first(), key)
    } else {
        seq![entries[0]] + without(entries.drop_first(), key)
    }
}

/// The entries with the one under a name moved to the front.
pub open spec fn touched(
    entries: Seq<(Seq<char>, EntryView)>,
    key: Seq<char>,
) -> Seq<(Seq<char>, EntryView)> {
    match recall(entries, key) {
        Some(e) => seq![(key, e)] + without(entries, key),
        None => entries,
    }
}

/// The entries with a new one at the front. The last one goes where there is no more room.
pub open spec fn remembered(
    entries: Seq<(Seq<char>, EntryView)>,
    limit: nat,
    key: Seq<char>,
    entry: EntryView,
) -> Seq<(Seq<char>, EntryView)> {
    if recall(entries, key) is None && entries.len() == limit {
        seq![(key, entry)] + entries.drop_last()
    } else {
        seq![(key, entry)] + without(entries, key)
    }
}

/// Calls `LruCache::sparse`: an empty cache that holds at most so many entries. It allocates no
/// places for them.
#[verifier::external_body]
fn lru_new(limit: usize) -> (r: lru::LruCache<String, Entry>)
    requires
        0 < limit,
    ensures
        entries_of(r) == Seq::<(Seq<char>, EntryView)>::empty(),
        limit_of(r) == limit,
{
    lru::LruCache::sparse(std::num::NonZeroUsize::new(limit).expect("a limit above zero"))
}

/// Calls `LruCache::get`: the entry under a name, which becomes the most recently used one.
#[verifier::external_body]
fn lru_get<'a>(cache: &'a mut lru::LruCache<String, Entry>, key: &str) -> (r: Option<&'a Entry>)
    ensures
        match r {
            Some(e) => recall(entries_of(*old(cache)), key@) == Some(e@),
            None => recall(entries_of(*old(cache)), key@) is None,
        },
        entries_of(*final(cache)) == touched(entries_of(*old(cache)), key@),
        limit_of(*final(cache)) == limit_of(*old(cache)),
{
    cache.get(key)
}

/// Calls `LruCache::put`: the entry takes the place of the one under its name, or that of the least
/// recently used one where the cache is full, and becomes the most recently used one.
#[verifier::external_body]
fn lru_put(cache: &mut lru::LruCache<String, Entry>, key: String, entry: Entry)
    ensures
        entries_of(*final(cache)) == remembered(
            entries_of(*old(cache)),
            limit_of(*old(cache)),
            key@,
            entry@,
        ),
        limit_of(*final(cache)) == limit_of(*old(cache)),
{
    cache.put(key, entry);
}

/// Calls `LruCache::pop`: the entry under a name is gone, the others keep their order.
#[verifier::external_body]
fn lru_pop(cache: &mut lru::LruCache<String, Entry>, key: &str)
    ensures
        entries_of(*final(cache)) == without(entries_of(*old(cache)), key@),
        limit_of(*final(cache)) == limit_of(*old(cache)),
{
    cache.pop(key);
}

/// Whether a verdict is too old at a time.
pub open spec fn expired(at: u64, now: u64, ttl: u64) -> bool {
    now - at >= ttl || ttl == 0
}

/// The verdicts that are remembered, each for a while.
pub struct Memory {
    cache: lru::LruCache<String, Entry>,
    ttl: u64,
}

#[verifier::ext_equal]
pub struct MemoryView {
    pub entries: Seq<(Seq<char>, EntryView)>,
    pub limit: nat,
    pub ttl: u64,
}

impl MemoryView {
    /// The verdict under a name, if there is one that is not too old.
    pub open spec fn fresh(self, key: Seq<char>, now: u64) -> Option<VerdictView> {
        match recall(self.entries, key) {
            Some(e) => if expired(e.at, now, self.ttl) {
                None
            } else {
                Some(e.verdict)
            },
            None => None,
        }
    }

    /// What is remembered once the verdict under a name was asked for.
    pub open spec fn asked(self, key: Seq<char>, now: u64) -> MemoryView {
        match recall(self.entries, key) {
            Some(e) => if expired(e.at, now, self.ttl) {
                MemoryView { entries: without(self.entries, key), ..self }
            } else {
                MemoryView { entries: touched(self.entries, key), ..self }
            },
            None => self,
        }
    }

    /// What is remembered once a verdict was given.
    pub open spec fn told(self, key: Seq<char>, entry: EntryView) -> MemoryView {
        MemoryView { entries: remembered(self.entries, self.limit, key, entry), ..self }
    }
}

impl Memory {
    pub closed spec fn view(&self) -> MemoryView {
        MemoryView {
            entries: entries_of(self.cache),
            limit: limit_of(self.cache),
            ttl: self.ttl,
        }
    }

    pub fn new(limit: usize, ttl: u64) -> (r: Self)
        requires
            0 < limit,
        ensures
            r@ == (MemoryView { entries: seq![], limit: limit as nat, ttl }),
    {
        Memory { cache: lru_new(limit), ttl }
    }

    /// The verdict under a name, unless it is too old; one that is too old is forgotten.
    pub fn ask(&mut self, key: &str, now: u64) -> (r: Option<Verdict>)
        ensures
            final(self)@ == old(self)@.asked(key@, now),
            match r {
                Some(v) => old(self)@.fresh(key@, now) == Some(v@),
                None => old(self)@.fresh(key@, now) is None,
            },
    {
        let ghost before = self@;
        let known = match lru_get(&mut self.cache, key) {
            Some(e) => {
                if now.saturating_sub(e.at) >= self.ttl {
                    None
                } else {
                    Some(e.verdict.clone())
                }
            },
            None => {
                return None;
            },
        };
        match known {
            Some(v) => Some(v),
            None => {
                proof {
                    without_touched(before.entries, key@);
                }
                lru_pop(&mut self.cache, key);
                None
            },
        }
    }

    /// Remembers a verdict.
    pub fn tell(&mut self, key: String, entry: Entry)
        ensures
            final(self)@ == old(self)@.told(key@, entry@),
    {
        lru_put(&mut self.cache, key, entry);
    }
}

impl Clone for Verdict {
    fn clone(&self) -> (r: Self)
        ensures
            r@ == self@,
    {
        match self {
            Verdict::Event { judgment, id } => Verdict::Event {
                judgment: judgment.clone(),
                id: id.clone(),
            },
            Verdict::Query(d) => Verdict::Query(d.clone()),
        }
    }
}

proof fn without_twice(entries: Seq<(Seq<char>, EntryView)>, key: Seq<char>)
    ensures
        without(without(entries, key), key) == without(entries, key),
        without(entries, key).len() <= entries.len(),
        recall(without(entries, key), key) is None,
        recall(entries, key) is Some ==> without(entries, key).len() < entries.len(),
    decreases entries.len(),
{
    if entries.len() > 0 {
        without_twice(entries.drop_first(), key);
        let rest = without(entries.drop_first(), key);
        if entries[0].0 != key {
            assert((seq![entries[0]] + rest).drop_first() =~= rest);
        }
    }
}

proof fn without_touched(entries: Seq<(Seq<char>, EntryView)>, key: Seq<char>)
    ensures
        recall(entries, key) is Some ==> without(touched(entries, key), key) == without(
            entries,
            key,
        ),
{
    if recall(entries, key) is Some {
        let e = recall(entries, key)->Some_0;
        assert((seq![(key, e)] + without(entries, key)).drop_first() =~= without(entries, key));
        without_twice(entries, key);
    }
}

/// No more is remembered than there is room for, whatever is asked and told.
pub proof fn memory_is_bounded(m: MemoryView, key: Seq<char>, now: u64, entry: EntryView)
    requires
        m.limit > 0,
        m.entries.len() <= m.limit,
    ensures
        m.asked(key, now).entries.len() <= m.limit,
        m.told(key, entry).entries.len() <= m.limit,
{
    without_twice(m.entries, key);
    if recall(m.entries, key) is None {
        without_absent(m.entries, key);
    }
}

proof fn without_absent(entries: Seq<(Seq<char>, EntryView)>, key: Seq<char>)
    requires
        recall(entries, key) is None,
    ensures
        without(entries, key) == entries,
    decreases entries.len(),
{
    if entries.len() > 0 {
        without_absent(entries.drop_first(), key);
        assert(seq![entries[0]] + entries.drop_first() =~= entries);
    } else {
        assert(without(entries, key) =~= entries);
    }
}

/// What was told is known until it is too old, and not a moment longer.
pub proof fn told_then_asked(m: MemoryView, key: Seq<char>, entry: EntryView, now: u64)
    ensures
        m.told(key, entry).fresh(key, now) == (if expired(entry.at, now, m.ttl) {
            None::<VerdictView>
        } else {
            Some(entry.verdict)
        }),
{
}

/// A verdict that was too old when it was asked for is forgotten for good.
pub proof fn expired_is_forgotten(m: MemoryView, key: Seq<char>, now: u64, later: u64)
    requires
        m.fresh(key, now) is None,
    ensures
        m.asked(key, now).fresh(key, later) is None,
{
    without_twice(m.entries, key);
}

/// Where there is no more room, a new verdict drives out the one that was not used longest.
pub proof fn oldest_goes_first(m: MemoryView, key: Seq<char>, entry: EntryView)
    requires
        recall(m.entries, key) is None,
        m.entries.len() == m.limit,
        m.limit > 0,
    ensures
        m.told(key, entry).entries == seq![(key, entry)] + m.entries.drop_last(),
{
}

}
