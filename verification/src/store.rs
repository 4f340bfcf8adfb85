use vstd::prelude::*;

verus! {

/// One stored key's state: the value together with an optional absolute
/// expiry instant in milliseconds since the Unix epoch. An `expiry_time`
/// of `None` means the key never expires.
pub struct RedisData {
    pub data: String,
    pub expiry_time: Option<i64>,
}

/// The mathematical content of one stored entry.
pub struct EntryModel {
    pub value: Seq<char>,
    pub expiry: Option<i64>,
}

impl View for RedisData {
    type V = EntryModel;

    open spec fn view(&self) -> EntryModel {
        EntryModel { value: self.data@, expiry: self.expiry_time }
    }
}

/// Saturating sum of a signed instant and an unsigned duration, both in
/// milliseconds: the absolute expiry instant of a freshly written entry.
pub open spec fn expiry_instant(now: i64, ttl_ms: u64) -> i64 {
    if now + ttl_ms <= i64::MAX {
        (now + ttl_ms) as i64
    } else {
        i64::MAX
    }
}

/// The expiry instant recorded by a write at instant `now` with the given
/// optional time-to-live.
pub open spec fn spec_expiry(now: i64, ttl_ms: Option<u64>) -> Option<i64> {
    match ttl_ms {
        Option::None => Option::None,
        Option::Some(ms) => Option::Some(expiry_instant(now, ms)),
    }
}

/// The mapping written by `set`: the entry for `k` is replaced outright,
/// every other key is untouched.
pub open spec fn spec_set(
    m: Map<Seq<char>, EntryModel>,
    k: Seq<char>,
    v: Seq<char>,
    e: Option<i64>,
) -> Map<Seq<char>, EntryModel> {
    m.insert(k, EntryModel { value: v, expiry: e })
}

/// What a read of `k` at instant `now` observes: absent keys and entries
/// whose expiry instant has passed read as `None`; an entry with no expiry
/// always reads as its value.
pub open spec fn spec_get(m: Map<Seq<char>, EntryModel>, k: Seq<char>, now: i64) -> Option<
    Seq<char>,
> {
    if !m.contains_key(k) {
        Option::None
    } else {
        match m[k].expiry {
            Option::None => Option::Some(m[k].value),
            Option::Some(e) => if e <= now {
                Option::None
            } else {
                Option::Some(m[k].value)
            },
        }
    }
}

/// Whether the entry for `k` in `m` exists but is expired at instant `now`.
pub open spec fn spec_expired(m: Map<Seq<char>, EntryModel>, k: Seq<char>, now: i64) -> bool {
    m.contains_key(k) && match m[k].expiry {
        Option::None => false,
        Option::Some(e) => e <= now,
    }
}

/// The mapping after a read of `k` at instant `now`: an expired entry is
/// lazily evicted, everything else is left alone.
pub open spec fn spec_get_after(m: Map<Seq<char>, EntryModel>, k: Seq<char>, now: i64) -> Map<
    Seq<char>,
    EntryModel,
> {
    if spec_expired(m, k, now) {
        m.remove(k)
    } else {
        m
    }
}

/// The mapping denoted by an association list of entries; a later pair for
/// the same key shadows an earlier one.
pub open spec fn entries_map(s: Seq<(String, RedisData)>) -> Map<Seq<char>, EntryModel>
    decreases s.len(),
{
    if s.len() == 0 {
        Map::empty()
    } else {
        entries_map(s.drop_last()).insert(s.last().0@, s.last().1@)
    }
}

/// No two pairs of the association list carry the same key.
pub open spec fn distinct_keys(s: Seq<(String, RedisData)>) -> bool {
    forall|i: int, j: int| 0 <= i < j < s.len() ==> s[i].0@ != s[j].0@
}

proof fn lemma_entries_map_contains(s: Seq<(String, RedisData)>, k: Seq<char>)
    ensures
        entries_map(s).contains_key(k) <==> exists|i: int| 0 <= i < s.len() && s[i].0@ == k,
    decreases s.len(),
{
    if s.len() > 0 {
        lemma_entries_map_contains(s.drop_last(), k);
        if s.last().0@ == k {
            assert(0 <= s.len() - 1 < s.len() && s[s.len() - 1].0@ == k);
        } else {
            if exists|i: int| 0 <= i < s.len() && s[i].0@ == k {
                let i = choose|i: int| 0 <= i < s.len() && s[i].0@ == k;
                assert(i < s.len() - 1);
                assert(0 <= i < s.drop_last().len() && s.drop_last()[i].0@ == k);
            }
            if exists|i: int| 0 <= i < s.drop_last().len() && s.drop_last()[i].0@ == k {
                let i = choose|i: int| 0 <= i < s.drop_last().len() && s.drop_last()[i].0@ == k;
                assert(0 <= i < s.len() && s[i].0@ == k);
            }
        }
    }
}

proof fn lemma_entries_map_index(s: Seq<(String, RedisData)>, i: int)
    requires
        distinct_keys(s),
        0 <= i < s.len(),
    ensures
        entries_map(s).contains_key(s[i].0@),
        entries_map(s)[s[i].0@] == s[i].1@,
    decreases s.len(),
{
    if i < s.len() - 1 {
        lemma_entries_map_index(s.drop_last(), i);
        assert(s.drop_last()[i] == s[i]);
        assert(s.last().0@ != s[i].0@);
    }
}

proof fn lemma_entries_map_remove(s: Seq<(String, RedisData)>, i: int)
    requires
        distinct_keys(s),
        0 <= i < s.len(),
    ensures
        entries_map(s.remove(i)) =~= entries_map(s).remove(s[i].0@),
    decreases s.len(),
{
    let k = s[i].0@;
    if i == s.len() - 1 {
        assert(s.remove(i) =~= s.drop_last());
        lemma_entries_map_contains(s.drop_last(), k);
        assert(forall|j: int|
            0 <= j < s.drop_last().len() ==> s.drop_last()[j].0@ != k) by {
            assert(forall|j: int| 0 <= j < s.len() - 1 ==> s[j].0@ != k);
        }
        assert(!entries_map(s.drop_last()).contains_key(k));
        assert(entries_map(s.drop_last()) =~= entries_map(s.drop_last()).insert(
            s.last().0@,
            s.last().1@,
        ).remove(k));
    } else {
        assert(s.remove(i).drop_last() =~= s.drop_last().remove(i));
        assert(s.remove(i).last() == s.last());
        assert(distinct_keys(s.drop_last())) by {
            assert(forall|p: int, q: int|
                0 <= p < q < s.drop_last().len() ==> s.drop_last()[p].0@ != s.drop_last()[q].0@);
        }
        lemma_entries_map_remove(s.drop_last(), i);
        assert(s.drop_last()[i] == s[i]);
        assert(s.last().0@ != k);
        assert(entries_map(s.remove(i)) == entries_map(s.drop_last().remove(i)).insert(
            s.last().0@,
            s.last().1@,
        )) by {
            assert(s.remove(i).len() == s.len() - 1 > 0);
        }
    }
}

/// The expiring key-value store: a mapping from key to `RedisData`,
/// abstracted as a `Map` from key characters to entry models.
pub struct Storage {
    entries: Vec<(String, RedisData)>,
}

impl View for Storage {
    type V = Map<Seq<char>, EntryModel>;

    closed spec fn view(&self) -> Map<Seq<char>, EntryModel> {
        entries_map(self.entries@)
    }
}

impl Storage {
    /// The store's internal invariant: each key is held by at most one
    /// physical entry.
    pub closed spec fn wf(&self) -> bool {
        distinct_keys(self.entries@)
    }

    /// Creates an empty store.
    pub fn new() -> (s: Storage)
        ensures
            s.wf(),
            s@ == Map::<Seq<char>, EntryModel>::empty(),
    {
        Storage { entries: Vec::new() }
    }

    /// The index of the entry holding `key`, if one exists.
    fn position_of(entries: &Vec<(String, RedisData)>, key: &String) -> (r: Option<usize>)
        ensures
            match r {
                Option::Some(i) => i < entries@.len() && entries@[i as int].0@ == key@,
                Option::None => forall|j: int| 0 <= j < entries@.len() ==> entries@[j].0@ != key@,
            },
    {
        let mut i: usize = 0;
        while i < entries.len()
            invariant
                i <= entries@.len(),
                forall|j: int| 0 <= j < i ==> entries@[j].0@ != key@,
            decreases entries@.len() - i,
        {
            if entries[i].0 == *key {
                return Some(i);
            }
            i = i + 1;
        }
        None
    }

    /// Reads `key` as of the explicit instant `now`: `None` for an absent
    /// or expired entry, the stored value otherwise. An expired entry is
    /// removed as a side effect (lazy eviction).
    pub fn get_at(&mut self, key: &String, now: i64) -> (r: Option<String>)
        requires
            old(self).wf(),
        ensures
            final(self).wf(),
            final(self)@ == spec_get_after(old(self)@, key@, now),
            match r {
                Option::Some(v) => spec_get(old(self)@, key@, now) == Option::Some(v@),
                Option::None => spec_get(old(self)@, key@, now) is None,
            },
    {
        let pos = Self::position_of(&self.entries, key);
        match pos {
            Option::None => {
                proof {
                    lemma_entries_map_contains(self.entries@, key@);
                }
                None
            },
            Option::Some(i) => {
                proof {
                    lemma_entries_map_index(self.entries@, i as int);
                }
                let expired = match self.entries[i].1.expiry_time {
                    Option::Some(e) => e <= now,
                    Option::None => false,
                };
                if expired {
                    proof {
                        lemma_entries_map_remove(self.entries@, i as int);
                        assert(forall|p: int, q: int|
                            0 <= p < q < self.entries@.remove(i as int).len()
                                ==> self.entries@.remove(i as int)[p].0@ != self.entries@.remove(
                                i as int,
                            )[q].0@);
                    }
                    self.entries.remove(i);
                    None
                } else {
                    Some(self.entries[i].1.data.clone())
                }
            },
        }
    }

    /// Writes `key` as of the explicit instant `now`. The entry is replaced
    /// outright: a `ttl_ms` of `None` clears any previous expiry, a present
    /// `ttl_ms` sets the expiry `ttl_ms` milliseconds after `now`.
    pub fn set_at(&mut self, key: String, value: String, ttl_ms: Option<u64>, now: i64)
        requires
            old(self).wf(),
        ensures
            final(self).wf(),
            final(self)@ == spec_set(old(self)@, key@, value@, spec_expiry(now, ttl_ms)),
    {
        let expiry_time = match ttl_ms {
            Option::None => None,
            Option::Some(ms) => Some(compute_expiry(now, ms)),
        };
        let ghost m0 = self@;
        let pos = Self::position_of(&self.entries, &key);
        if let Some(i) = pos {
            proof {
                lemma_entries_map_remove(self.entries@, i as int);
                assert(forall|p: int, q: int|
                    0 <= p < q < self.entries@.remove(i as int).len()
                        ==> self.entries@.remove(i as int)[p].0@ != self.entries@.remove(
                        i as int,
                    )[q].0@);
            }
            self.entries.remove(i);
            proof {
                lemma_entries_map_contains(self.entries@, key@);
            }
        }
        let ghost pre = self.entries@;
        let data = RedisData { data: value, expiry_time };
        self.entries.push((key, data));
        proof {
            assert(self.entries@.drop_last() =~= pre);
            assert(entries_map(self.entries@) == entries_map(pre).insert(
                self.entries@.last().0@,
                self.entries@.last().1@,
            ));
            assert(self@ =~= spec_set(m0, self.entries@.last().0@, self.entries@.last().1@.value,
                self.entries@.last().1@.expiry));
            assert(forall|j: int|
                0 <= j < pre.len() ==> pre[j].0@ != self.entries@.last().0@);
        }
    }
}

impl Storage {
    /// Reads `key` at the current wall-clock instant. Whatever instant the
    /// clock reports: a key that is absent reads as `None` and leaves the
    /// store alone, and an entry with no expiry reads as its value.
    pub fn get(&mut self, key: &String) -> (r: Option<String>)
        requires
            old(self).wf(),
        ensures
            final(self).wf(),
            exists|t: i64|
                final(self)@ == spec_get_after(old(self)@, key@, t) && match r {
                    Option::Some(v) => spec_get(old(self)@, key@, t) == Option::Some(v@),
                    Option::None => spec_get(old(self)@, key@, t) is None,
                },
            !old(self)@.contains_key(key@) ==> r is None && final(self)@ == old(self)@,
            old(self)@.contains_key(key@) && old(self)@[key@].expiry is None ==> final(self)@
                == old(self)@ && match r {
                Option::Some(v) => v@ == old(self)@[key@].value,
                Option::None => false,
            },
    {
        let now = now_millis();
        let r = self.get_at(key, now);
        proof {
            assert(self@ == spec_get_after(old(self)@, key@, now));
        }
        r
    }

    /// Writes `key` at the current wall-clock instant: the entry is
    /// replaced outright, with no expiry when `ttl_ms` is `None` and an
    /// expiry `ttl_ms` milliseconds past the clock's instant otherwise.
    /// Every other key is untouched.
    pub fn set(&mut self, key: String, value: String, ttl_ms: Option<u64>)
        requires
            old(self).wf(),
        ensures
            final(self).wf(),
            exists|t: i64|
                final(self)@ == spec_set(old(self)@, key@, value@, spec_expiry(t, ttl_ms)),
            ttl_ms is None ==> final(self)@ == spec_set(
                old(self)@,
                key@,
                value@,
                Option::None,
            ),
            final(self)@.contains_key(key@),
            final(self)@[key@].value == value@,
            forall|k2: Seq<char>|
                k2 != key@ ==> (#[trigger] final(self)@.contains_key(k2)
                    <==> old(self)@.contains_key(k2)),
            forall|k2: Seq<char>|
                k2 != key@ && old(self)@.contains_key(k2) ==> #[trigger] final(self)@[k2]
                    == old(self)@[k2],
    {
        let now = now_millis();
        self.set_at(key, value, ttl_ms, now);
        proof {
            assert(self@ == spec_set(old(self)@, key@, value@, spec_expiry(now, ttl_ms)));
        }
    }
}

/// Relies on chrono's `Utc::now` and `DateTime::timestamp_millis` for the
/// current wall-clock instant in milliseconds since the Unix epoch.
#[verifier::external_body]
pub(crate) fn now_millis() -> i64 {
    chrono::Utc::now().timestamp_millis()
}

/// Round trip without expiry: writing a key with no time-to-live and then
/// reading it back, at any later instant, yields exactly the written value.
pub proof fn lemma_set_then_get(
    m: Map<Seq<char>, EntryModel>,
    k: Seq<char>,
    v: Seq<char>,
    now: i64,
)
    ensures
        spec_get(spec_set(m, k, v, Option::None), k, now) == Option::Some(v),
        spec_get_after(spec_set(m, k, v, Option::None), k, now) == spec_set(
            m,
            k,
            v,
            Option::None,
        ),
{
}

/// Round trip with expiry: a write at instant `w` with a positive
/// time-to-live reads back as the written value at `w` itself, and as
/// `None` at any instant strictly past `w + ttl_ms`.
pub proof fn lemma_set_ttl_then_get(
    m: Map<Seq<char>, EntryModel>,
    k: Seq<char>,
    v: Seq<char>,
    ttl_ms: u64,
    w: i64,
    t: i64,
)
    requires
        ttl_ms > 0,
        w + ttl_ms <= i64::MAX,
    ensures
        spec_get(spec_set(m, k, v, spec_expiry(w, Option::Some(ttl_ms))), k, w) == Option::Some(
            v,
        ),
        t > w + ttl_ms ==> spec_get(spec_set(m, k, v, spec_expiry(w, Option::Some(ttl_ms))), k, t)
            is None,
{
}

/// Overwrite: after two writes to the same key without expiry, a read
/// yields the second value, whatever was stored before.
pub proof fn lemma_overwrite(
    m: Map<Seq<char>, EntryModel>,
    k: Seq<char>,
    a: Seq<char>,
    b: Seq<char>,
    now: i64,
)
    ensures
        spec_get(spec_set(spec_set(m, k, a, Option::None), k, b, Option::None), k, now)
            == Option::Some(b),
{
}

/// A key never written reads as `None`, and the read leaves the store
/// unchanged.
pub proof fn lemma_get_never_written(m: Map<Seq<char>, EntryModel>, k: Seq<char>, now: i64)
    requires
        !m.contains_key(k),
    ensures
        spec_get(m, k, now) is None,
        spec_get_after(m, k, now) == m,
{
}

/// No lost update: writes to two distinct keys commute, and after both,
/// each key holds its own write — neither serialization loses either one.
pub proof fn lemma_distinct_keys_no_lost_update(
    m: Map<Seq<char>, EntryModel>,
    k1: Seq<char>,
    v1: Seq<char>,
    e1: Option<i64>,
    k2: Seq<char>,
    v2: Seq<char>,
    e2: Option<i64>,
)
    requires
        k1 != k2,
    ensures
        spec_set(spec_set(m, k1, v1, e1), k2, v2, e2) =~= spec_set(
            spec_set(m, k2, v2, e2),
            k1,
            v1,
            e1,
        ),
        spec_set(spec_set(m, k1, v1, e1), k2, v2, e2)[k1] == (EntryModel {
            value: v1,
            expiry: e1,
        }),
        spec_set(spec_set(m, k1, v1, e1), k2, v2, e2)[k2] == (EntryModel {
            value: v2,
            expiry: e2,
        }),
{
}

/// Computes the absolute expiry instant for a write at `now` with the given
/// time-to-live, saturating at the far end of the representable time range.
pub fn compute_expiry(now: i64, ttl_ms: u64) -> (r: i64)
    ensures
        r == expiry_instant(now, ttl_ms),
{
    match now.checked_add_unsigned(ttl_ms) {
        Some(e) => e,
        None => i64::MAX,
    }
}

} // verus!
