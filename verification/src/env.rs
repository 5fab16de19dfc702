//! The environment a contract invocation runs in: the current ledger, the
//! addresses that authorised the invocation, the contract's storage, and
//! the entries whose lifetime the invocation has extended.
//!
//! Stored entries do not live forever. Each read and each write of an entry
//! by the contract extends its lifetime, by the policy of its key
//! (`DataKey::lifetime`); the environment keeps track of which entries that
//! has happened to. `Env::peek` looks at an entry without reading it in
//! that sense: it is for whoever holds the environment, not for the
//! contract.
//!
//! Whoever keeps the storage elsewhere puts what is there into an
//! environment with `Env::load`, lets the contract work on it, and asks
//! `Env::effects_on` what is to be done to each entry afterwards.
use crate::storage_types::{Address, DataKey, Lifetime, StoredValue};
use vstd::prelude::*;

verus! {

/// One stored entry.
#[derive(Clone, Copy)]
struct Entry {
    key: DataKey,
    value: StoredValue,
    extended: bool,
}

/// What is to be done to a stored entry once an invocation has ended.
#[derive(Clone, Copy, Debug, PartialEq, Eq, Structural)]
pub enum Effect {
    /// Store `value` under `key`, in place of what is there.
    Write { key: DataKey, value: StoredValue },
    /// Delete what is stored under `key`.
    Delete { key: DataKey },
    /// Extend the lifetime of the entry under `key` as `lifetime` says.
    Extend { key: DataKey, lifetime: Lifetime },
}

/// The environment as the contract's rules see it.
pub struct EnvView {
    /// The sequence number of the current ledger.
    pub sequence: u32,
    /// The addresses that authorised the current invocation.
    pub auths: Set<Address>,
    /// What is stored under each key.
    pub entries: Map<DataKey, StoredValue>,
    /// The keys of the entries whose lifetime the current invocation has
    /// extended.
    pub extended: Set<DataKey>,
}

impl EnvView {
    /// Every stored value has the type of its key, no reward record runs
    /// ahead of the current ledger, and only what is stored has a lifetime.
    pub open spec fn wf(self) -> bool {
        &&& forall|key: DataKey| #[trigger]
            self.entries.contains_key(key) ==> key.spec_admits(self.entries[key], self.sequence)
        &&& forall|key: DataKey| #[trigger]
            self.extended.contains(key) ==> self.entries.contains_key(key)
    }

    /// The value under `key`, if there is one.
    pub open spec fn get(self, key: DataKey) -> Option<StoredValue> {
        if self.entries.contains_key(key) {
            Some(self.entries[key])
        } else {
            None
        }
    }

    /// This environment once the entry under `key` is read: if there is
    /// one, its lifetime is extended.
    pub open spec fn read(self, key: DataKey) -> EnvView {
        if self.entries.contains_key(key) {
            EnvView { extended: self.extended.insert(key), ..self }
        } else {
            self
        }
    }

    /// This environment with `value` stored under `key`, and the lifetime
    /// of that entry extended.
    pub open spec fn put(self, key: DataKey, value: StoredValue) -> EnvView {
        EnvView {
            entries: self.entries.insert(key, value),
            extended: self.extended.insert(key),
            ..self
        }
    }

    /// This environment with nothing stored under `key`.
    pub open spec fn del(self, key: DataKey) -> EnvView {
        EnvView {
            entries: self.entries.remove(key),
            extended: self.extended.remove(key),
            ..self
        }
    }

    /// This environment with `value` under `key` as it was found in
    /// storage: the contract has not read the entry yet.
    pub open spec fn load(self, key: DataKey, value: StoredValue) -> EnvView {
        EnvView {
            entries: self.entries.insert(key, value),
            extended: self.extended.remove(key),
            ..self
        }
    }

    /// This environment at the start of an invocation: nobody has
    /// authorised it, and no lifetime has been extended.
    pub open spec fn fresh(self) -> EnvView {
        EnvView { auths: Set::empty(), extended: Set::empty(), ..self }
    }

    /// Whether `address` authorised the current invocation.
    pub open spec fn has_auth(self, address: Address) -> bool {
        self.auths.contains(address)
    }

    /// What is to be written where the entry under `key` held `found`
    /// before the invocation: nothing where it holds the same now, else its
    /// new value or its deletion.
    pub open spec fn written(self, key: DataKey, found: Option<StoredValue>) -> Seq<Effect> {
        if self.get(key) == found {
            seq![]
        } else {
            match self.get(key) {
                Some(value) => seq![Effect::Write { key, value }],
                None => seq![Effect::Delete { key }],
            }
        }
    }

    /// What is to be done to the entry under `key`, which held `found`
    /// before the invocation: first what is to be written, then, if the
    /// invocation read or wrote the entry, the extension of its lifetime by
    /// the policy of its key.
    pub open spec fn effects_on(self, key: DataKey, found: Option<StoredValue>) -> Seq<Effect> {
        if self.is_extended(key) {
            self.written(key, found).push(Effect::Extend { key, lifetime: key.spec_lifetime() })
        } else {
            self.written(key, found)
        }
    }

    /// Whether the current invocation has extended the lifetime of the
    /// entry under `key`.
    pub open spec fn is_extended(self, key: DataKey) -> bool {
        self.extended.contains(key)
    }
}

/// Whether some entry of `entries` has the key `key`.
spec fn holds(entries: Seq<Entry>, key: DataKey) -> bool {
    exists|i: int| 0 <= i < entries.len() && #[trigger] entries[i].key == key
}

/// The index of an entry with the key `key`.
spec fn index_of(entries: Seq<Entry>, key: DataKey) -> int {
    choose|i: int| 0 <= i < entries.len() && #[trigger] entries[i].key == key
}

/// No two entries share a key.
spec fn distinct(entries: Seq<Entry>) -> bool {
    forall|i: int, j: int|
        0 <= i < entries.len() && 0 <= j < entries.len() && #[trigger] entries[i].key
            == #[trigger] entries[j].key ==> i == j
}

/// The values that a list of entries holds, by key.
spec fn values_of(entries: Seq<Entry>) -> Map<DataKey, StoredValue> {
    Map::new(|key: DataKey| holds(entries, key), |key: DataKey| entries[index_of(entries, key)].value)
}

/// The keys of the entries of a list that are marked as extended.
spec fn extended_of(entries: Seq<Entry>) -> Set<DataKey> {
    Set::new(|key: DataKey| holds(entries, key) && entries[index_of(entries, key)].extended)
}

proof fn lemma_index(entries: Seq<Entry>, i: int)
    requires
        distinct(entries),
        0 <= i < entries.len(),
    ensures
        holds(entries, entries[i].key),
        index_of(entries, entries[i].key) == i,
        values_of(entries).contains_key(entries[i].key),
        values_of(entries)[entries[i].key] == entries[i].value,
        extended_of(entries).contains(entries[i].key) == entries[i].extended,
{
    let key = entries[i].key;
    assert(0 <= i < entries.len() && entries[i].key == key);
    let j = index_of(entries, key);
    assert(0 <= j < entries.len() && entries[j].key == key);
}

proof fn lemma_absent(entries: Seq<Entry>, key: DataKey)
    requires
        forall|i: int| 0 <= i < entries.len() ==> (#[trigger] entries[i]).key != key,
    ensures
        !holds(entries, key),
        !values_of(entries).contains_key(key),
        !extended_of(entries).contains(key),
{
}

/// Two lists with the same keys at the same places hold the same keys.
proof fn lemma_same_keys(before: Seq<Entry>, after: Seq<Entry>)
    requires
        distinct(before),
        before.len() == after.len(),
        forall|i: int| 0 <= i < before.len() ==> (#[trigger] after[i]).key == before[i].key,
    ensures
        distinct(after),
        forall|key: DataKey| holds(after, key) == holds(before, key),
        forall|key: DataKey|
            holds(before, key) ==> index_of(after, key) == index_of(before, key),
{
    assert forall|a: int, b: int|
        0 <= a < after.len() && 0 <= b < after.len() && #[trigger] after[a].key
            == #[trigger] after[b].key implies a == b by {
        assert(before[a].key == before[b].key);
    }
    assert forall|key: DataKey| holds(after, key) == holds(before, key) by {
        if holds(after, key) {
            let a = index_of(after, key);
            assert(before[a].key == key);
        }
        if holds(before, key) {
            let a = index_of(before, key);
            assert(after[a].key == key);
        }
    }
    assert forall|key: DataKey| holds(before, key) implies index_of(after, key) == index_of(
        before,
        key,
    ) by {
        let a = index_of(before, key);
        assert(after[a].key == key);
        lemma_index(after, a);
    }
}

proof fn lemma_push(entries: Seq<Entry>, entry: Entry)
    requires
        distinct(entries),
        !holds(entries, entry.key),
    ensures
        distinct(entries.push(entry)),
        values_of(entries.push(entry)) == values_of(entries).insert(entry.key, entry.value),
        extended_of(entries.push(entry)) == if entry.extended {
            extended_of(entries).insert(entry.key)
        } else {
            extended_of(entries).remove(entry.key)
        },
{
    let after = entries.push(entry);
    assert forall|i: int, j: int|
        0 <= i < after.len() && 0 <= j < after.len() && #[trigger] after[i].key
            == #[trigger] after[j].key implies i == j by {
        if i < entries.len() && j < entries.len() {
            assert(entries[i].key == entries[j].key);
        } else if i < entries.len() {
            assert(entries[i].key == entry.key);
        } else if j < entries.len() {
            assert(entries[j].key == entry.key);
        }
    }
    assert forall|key: DataKey| holds(after, key) <==> (key == entry.key || holds(entries, key)) by {
        if holds(after, key) {
            let i = index_of(after, key);
            if i < entries.len() {
                assert(entries[i].key == key);
            }
        }
        if holds(entries, key) {
            let i = index_of(entries, key);
            assert(after[i].key == key);
        }
        if key == entry.key {
            assert(after[entries.len() as int].key == key);
        }
    }
    assert forall|key: DataKey| holds(after, key) implies {
        &&& after[index_of(after, key)].value == if key == entry.key {
            entry.value
        } else {
            entries[index_of(entries, key)].value
        }
        &&& after[index_of(after, key)].extended == if key == entry.key {
            entry.extended
        } else {
            entries[index_of(entries, key)].extended
        }
    } by {
        let i = index_of(after, key);
        lemma_index(after, i);
        if i < entries.len() {
            lemma_index(entries, i);
        }
    }
    assert(values_of(after) =~= values_of(entries).insert(entry.key, entry.value));
    assert(extended_of(after) =~= if entry.extended {
        extended_of(entries).insert(entry.key)
    } else {
        extended_of(entries).remove(entry.key)
    });
}

proof fn lemma_update(entries: Seq<Entry>, i: int, value: StoredValue, extended: bool)
    requires
        distinct(entries),
        0 <= i < entries.len(),
    ensures
        distinct(entries.update(i, Entry { key: entries[i].key, value, extended })),
        values_of(entries.update(i, Entry { key: entries[i].key, value, extended })) == values_of(
            entries,
        ).insert(entries[i].key, value),
        extended_of(entries.update(i, Entry { key: entries[i].key, value, extended }))
            == if extended {
            extended_of(entries).insert(entries[i].key)
        } else {
            extended_of(entries).remove(entries[i].key)
        },
{
    let target = entries[i].key;
    let after = entries.update(i, Entry { key: target, value, extended });
    lemma_same_keys(entries, after);
    lemma_index(entries, i);
    assert forall|key: DataKey| holds(after, key) implies {
        &&& after[index_of(after, key)].value == if key == target {
            value
        } else {
            entries[index_of(entries, key)].value
        }
        &&& after[index_of(after, key)].extended == if key == target {
            extended
        } else {
            entries[index_of(entries, key)].extended
        }
    } by {
        let a = index_of(after, key);
        lemma_index(after, a);
        lemma_index(entries, a);
    }
    assert(values_of(after) =~= values_of(entries).insert(target, value));
    assert(extended_of(after) =~= if extended {
        extended_of(entries).insert(target)
    } else {
        extended_of(entries).remove(target)
    });
}

proof fn lemma_remove(entries: Seq<Entry>, i: int)
    requires
        distinct(entries),
        0 <= i < entries.len(),
    ensures
        distinct(entries.remove(i)),
        values_of(entries.remove(i)) == values_of(entries).remove(entries[i].key),
        extended_of(entries.remove(i)) == extended_of(entries).remove(entries[i].key),
{
    let target = entries[i].key;
    let after = entries.remove(i);
    assert forall|a: int, b: int|
        0 <= a < after.len() && 0 <= b < after.len() && #[trigger] after[a].key
            == #[trigger] after[b].key implies a == b by {
        let a0 = if a < i {
            a
        } else {
            a + 1
        };
        let b0 = if b < i {
            b
        } else {
            b + 1
        };
        assert(entries[a0].key == entries[b0].key);
    }
    assert forall|key: DataKey| holds(after, key) <==> (key != target && holds(entries, key)) by {
        if holds(after, key) {
            let a = index_of(after, key);
            let a0 = if a < i {
                a
            } else {
                a + 1
            };
            assert(entries[a0].key == key);
            if key == target {
                assert(entries[a0].key == entries[i].key);
            }
        }
        if key != target && holds(entries, key) {
            let a0 = index_of(entries, key);
            let a = if a0 < i {
                a0
            } else {
                a0 - 1
            };
            assert(after[a].key == key);
        }
    }
    assert forall|key: DataKey| holds(after, key) implies {
        &&& after[index_of(after, key)].value == entries[index_of(entries, key)].value
        &&& after[index_of(after, key)].extended == entries[index_of(entries, key)].extended
    } by {
        let a = index_of(after, key);
        let a0 = if a < i {
            a
        } else {
            a + 1
        };
        lemma_index(after, a);
        lemma_index(entries, a0);
    }
    assert(values_of(after) =~= values_of(entries).remove(target));
    assert(extended_of(after) =~= extended_of(entries).remove(target));
}

/// The environment of one contract, held in memory.
pub struct Env {
    sequence: u32,
    auths: Vec<Address>,
    entries: Vec<Entry>,
}

impl View for Env {
    type V = EnvView;

    closed spec fn view(&self) -> EnvView {
        EnvView {
            sequence: self.sequence,
            auths: Set::new(|address: Address| self.auths@.contains(address)),
            entries: values_of(self.entries@),
            extended: extended_of(self.entries@),
        }
    }
}

impl Env {
    /// No key is stored twice, and what is stored is well formed.
    pub closed spec fn wf(&self) -> bool {
        distinct(self.entries@) && self@.wf()
    }

    /// A well-formed environment has a well-formed view.
    pub proof fn lemma_wf(&self)
        requires
            self.wf(),
        ensures
            self@.wf(),
    {
    }

    /// An environment at ledger `sequence` with empty storage, in an
    /// invocation that nobody has authorised.
    pub fn new(sequence: u32) -> (env: Env)
        ensures
            env.wf(),
            env@ == (EnvView {
                sequence,
                auths: Set::empty(),
                entries: Map::empty(),
                extended: Set::empty(),
            }),
    {
        let env = Env { sequence, auths: Vec::new(), entries: Vec::new() };
        proof {
            assert(env@.auths =~= Set::<Address>::empty());
            assert(env@.entries =~= Map::<DataKey, StoredValue>::empty());
            assert(env@.extended =~= Set::<DataKey>::empty());
        }
        env
    }

    /// A copy of this environment, to go back to.
    pub fn snapshot(&self) -> (copy: Env)
        requires
            self.wf(),
        ensures
            copy.wf(),
            copy@ == self@,
    {
        let mut auths: Vec<Address> = Vec::new();
        let mut i: usize = 0;
        while i < self.auths.len()
            invariant
                i <= self.auths.len(),
                auths@ == self.auths@.subrange(0, i as int),
            decreases self.auths.len() - i,
        {
            auths.push(self.auths[i]);
            assert(auths@ =~= self.auths@.subrange(0, i + 1));
            i += 1;
        }
        assert(auths@ =~= self.auths@);
        let mut entries: Vec<Entry> = Vec::new();
        let mut j: usize = 0;
        while j < self.entries.len()
            invariant
                j <= self.entries.len(),
                entries@ == self.entries@.subrange(0, j as int),
            decreases self.entries.len() - j,
        {
            entries.push(self.entries[j]);
            assert(entries@ =~= self.entries@.subrange(0, j + 1));
            j += 1;
        }
        assert(entries@ =~= self.entries@);
        Env { sequence: self.sequence, auths, entries }
    }

    /// The sequence number of the current ledger.
    pub fn ledger_sequence(&self) -> (sequence: u32)
        ensures
            sequence == self@.sequence,
    {
        self.sequence
    }

    /// Moves on by `blocks` ledgers. The sequence number is a `u32`: where it
    /// would not fit, nothing changes and the result is `false`.
    pub fn advance_ledger(&mut self, blocks: u32) -> (ok: bool)
        requires
            old(self).wf(),
        ensures
            final(self).wf(),
            ok == (old(self)@.sequence + blocks <= u32::MAX),
            ok ==> final(self)@ == (EnvView {
                sequence: (old(self)@.sequence + blocks) as u32,
                ..old(self)@
            }),
            !ok ==> final(self)@ == old(self)@,
    {
        if blocks > u32::MAX - self.sequence {
            return false;
        }
        proof {
            let before = self@;
            assert forall|key: DataKey| #[trigger]
                before.entries.contains_key(key) implies key.spec_admits(
                before.entries[key],
                (before.sequence + blocks) as u32,
            ) by {
                assert(key.spec_admits(before.entries[key], before.sequence));
            }
        }
        self.sequence = self.sequence + blocks;
        true
    }

    /// Records that `address` authorised the current invocation.
    pub fn authorize(&mut self, address: Address)
        requires
            old(self).wf(),
        ensures
            final(self).wf(),
            final(self)@ == (EnvView { auths: old(self)@.auths.insert(address), ..old(self)@ }),
    {
        self.auths.push(address);
        proof {
            let before = old(self).auths@;
            let after = self.auths@;
            assert forall|a: Address| after.contains(a) <==> (a == address || before.contains(a)) by {
                if after.contains(a) {
                    let i = choose|i: int| 0 <= i < after.len() && after[i] == a;
                    if i < before.len() {
                        assert(before[i] == a);
                    }
                }
                if before.contains(a) {
                    let i = choose|i: int| 0 <= i < before.len() && before[i] == a;
                    assert(after[i] == a);
                }
                if a == address {
                    assert(after[before.len() as int] == a);
                }
            }
            assert(self@.auths =~= old(self)@.auths.insert(address));
        }
    }

    /// Starts the next invocation: nobody has authorised it yet, and no
    /// lifetime has been extended in it. What is stored stays.
    pub fn next_invocation(&mut self)
        requires
            old(self).wf(),
        ensures
            final(self).wf(),
            final(self)@ == old(self)@.fresh(),
    {
        let mut entries: Vec<Entry> = Vec::new();
        let mut i: usize = 0;
        while i < self.entries.len()
            invariant
                i <= self.entries.len(),
                entries@.len() == i,
                forall|j: int|
                    0 <= j < i ==> (#[trigger] entries@[j]).key == self.entries@[j].key
                        && entries@[j].value == self.entries@[j].value && !entries@[j].extended,
            decreases self.entries.len() - i,
        {
            let entry = self.entries[i];
            entries.push(Entry { key: entry.key, value: entry.value, extended: false });
            i += 1;
        }
        proof {
            let before = self.entries@;
            let after = entries@;
            lemma_same_keys(before, after);
            assert forall|key: DataKey| holds(after, key) implies after[index_of(after, key)].value
                == before[index_of(before, key)].value && !after[index_of(
                after,
                key,
            )].extended by {
                let a = index_of(after, key);
                lemma_index(after, a);
                lemma_index(before, a);
            }
            assert(values_of(after) =~= values_of(before));
            assert(extended_of(after) =~= Set::<DataKey>::empty());
        }
        self.entries = entries;
        self.auths = Vec::new();
        proof {
            assert(self@.auths =~= Set::<Address>::empty());
            assert(self@.entries == old(self)@.entries);
            assert(self@.extended == Set::<DataKey>::empty());
            assert(old(self)@.wf());
            assert forall|key: DataKey| #[trigger]
                self@.entries.contains_key(key) implies key.spec_admits(
                self@.entries[key],
                self@.sequence,
            ) by {
                assert(old(self)@.entries.contains_key(key));
            }
        }
    }

    /// Whether `address` authorised the current invocation.
    pub fn has_auth(&self, address: Address) -> (found: bool)
        ensures
            found == self@.has_auth(address),
    {
        let mut i: usize = 0;
        while i < self.auths.len()
            invariant
                i <= self.auths.len(),
                forall|j: int| 0 <= j < i ==> self.auths@[j] != address,
            decreases self.auths.len() - i,
        {
            if self.auths[i] == address {
                assert(self.auths@.contains(address));
                return true;
            }
            i += 1;
        }
        assert(!self.auths@.contains(address));
        false
    }

    fn position(&self, key: DataKey) -> (found: Option<usize>)
        requires
            distinct(self.entries@),
        ensures
            match found {
                Some(i) => i < self.entries.len() && self.entries@[i as int].key == key
                    && self@.entries.contains_key(key) && self@.entries[key]
                    == self.entries@[i as int].value && self@.extended.contains(key)
                    == self.entries@[i as int].extended,
                None => !holds(self.entries@, key) && !self@.entries.contains_key(key)
                    && !self@.extended.contains(key),
            },
    {
        let mut i: usize = 0;
        while i < self.entries.len()
            invariant
                distinct(self.entries@),
                i <= self.entries.len(),
                forall|j: int| 0 <= j < i ==> (#[trigger] self.entries@[j]).key != key,
            decreases self.entries.len() - i,
        {
            if self.entries[i].key == key {
                proof {
                    lemma_index(self.entries@, i as int);
                }
                return Some(i);
            }
            i += 1;
        }
        proof {
            lemma_absent(self.entries@, key);
        }
        None
    }

    /// What is stored under `key`, looked at from outside: the entry does
    /// not count as read, and its lifetime stays as it is.
    pub fn peek(&self, key: DataKey) -> (value: Option<StoredValue>)
        requires
            self.wf(),
        ensures
            value == self@.get(key),
            value is Some ==> key.spec_admits(value->Some_0, self@.sequence),
    {
        match self.position(key) {
            Some(i) => Some(self.entries[i].value),
            None => None,
        }
    }

    /// Whether the current invocation has extended the lifetime of the
    /// entry under `key`.
    pub fn is_extended(&self, key: DataKey) -> (extended: bool)
        requires
            self.wf(),
        ensures
            extended == self@.is_extended(key),
    {
        match self.position(key) {
            Some(i) => self.entries[i].extended,
            None => false,
        }
    }

    /// What is to be done to the entry under `key`, which held `found`
    /// before the invocation.
    pub fn effects_on(&self, key: DataKey, found: Option<StoredValue>) -> (effects: Vec<Effect>)
        requires
            self.wf(),
        ensures
            effects@ == self@.effects_on(key, found),
    {
        let mut effects: Vec<Effect> = Vec::new();
        let now = self.peek(key);
        if now != found {
            match now {
                Some(value) => effects.push(Effect::Write { key, value }),
                None => effects.push(Effect::Delete { key }),
            }
        }
        assert(effects@ =~= self@.written(key, found));
        if self.is_extended(key) {
            effects.push(Effect::Extend { key, lifetime: key.lifetime() });
        }
        effects
    }

    /// Reads what is stored under `key`. If there is an entry, its lifetime
    /// is extended.
    pub fn get(&mut self, key: DataKey) -> (value: Option<StoredValue>)
        requires
            old(self).wf(),
        ensures
            final(self).wf(),
            value == old(self)@.get(key),
            value is Some ==> key.spec_admits(value->Some_0, old(self)@.sequence),
            final(self)@ == old(self)@.read(key),
    {
        match self.position(key) {
            Some(i) => {
                let value = self.entries[i].value;
                proof {
                    lemma_update(self.entries@, i as int, value, true);
                    assert(self@.entries.insert(key, value) =~= self@.entries);
                }
                self.entries.set(i, Entry { key, value, extended: true });
                Some(value)
            },
            None => None,
        }
    }

    /// Whether anything is stored under `key`. If there is an entry, its
    /// lifetime is extended.
    pub fn has(&mut self, key: DataKey) -> (found: bool)
        requires
            old(self).wf(),
        ensures
            final(self).wf(),
            found == old(self)@.entries.contains_key(key),
            final(self)@ == old(self)@.read(key),
    {
        self.get(key).is_some()
    }

    /// Stores `value` under `key`, in place of what was there, and extends
    /// the lifetime of the entry. A value that the key does not admit is
    /// refused: nothing changes and the result is `false`.
    pub fn set(&mut self, key: DataKey, value: StoredValue) -> (ok: bool)
        requires
            old(self).wf(),
        ensures
            final(self).wf(),
            ok == key.spec_admits(value, old(self)@.sequence),
            ok ==> final(self)@ == old(self)@.put(key, value),
            !ok ==> final(self)@ == old(self)@,
    {
        self.store(key, value, true)
    }

    /// Puts `value` under `key` as it was found in storage, in place of
    /// what was there: the contract has not read the entry, and its
    /// lifetime is not extended. A value that the key does not admit is
    /// refused: nothing changes and the result is `false`.
    pub fn load(&mut self, key: DataKey, value: StoredValue) -> (ok: bool)
        requires
            old(self).wf(),
        ensures
            final(self).wf(),
            ok == key.spec_admits(value, old(self)@.sequence),
            ok ==> final(self)@ == old(self)@.load(key, value),
            !ok ==> final(self)@ == old(self)@,
    {
        self.store(key, value, false)
    }

    fn store(&mut self, key: DataKey, value: StoredValue, extended: bool) -> (ok: bool)
        requires
            old(self).wf(),
        ensures
            final(self).wf(),
            ok == key.spec_admits(value, old(self)@.sequence),
            ok ==> final(self)@ == if extended {
                old(self)@.put(key, value)
            } else {
                old(self)@.load(key, value)
            },
            !ok ==> final(self)@ == old(self)@,
    {
        if !key.admits(value, self.sequence) {
            return false;
        }
        match self.position(key) {
            Some(i) => {
                proof {
                    lemma_update(self.entries@, i as int, value, extended);
                }
                self.entries.set(i, Entry { key, value, extended });
            },
            None => {
                proof {
                    lemma_push(self.entries@, Entry { key, value, extended });
                }
                self.entries.push(Entry { key, value, extended });
            },
        }
        true
    }

    /// Deletes what is stored under `key`, if anything.
    pub fn remove(&mut self, key: DataKey)
        requires
            old(self).wf(),
        ensures
            final(self).wf(),
            final(self)@ == old(self)@.del(key),
    {
        match self.position(key) {
            Some(i) => {
                proof {
                    lemma_remove(self.entries@, i as int);
                }
                self.entries.remove(i);
            },
            None => {
                assert(self@.entries =~= self@.entries.remove(key));
                assert(self@.extended =~= self@.extended.remove(key));
            },
        }
    }
}

/// Reading an entry changes nothing but lifetimes: what is stored, the
/// ledger and the authorisations stay, and so does every lifetime that was
/// extended before. The entry that is read, if there is one, has its
/// lifetime extended.
pub proof fn lemma_read(e: EnvView, key: DataKey)
    ensures
        e.read(key).entries == e.entries,
        e.read(key).auths == e.auths,
        e.read(key).sequence == e.sequence,
        e.entries.contains_key(key) ==> e.read(key).is_extended(key),
        forall|other: DataKey| e.is_extended(other) ==> e.read(key).is_extended(other),
        forall|other: DataKey|
            other != key ==> e.read(key).is_extended(other) == e.is_extended(other),
        e.wf() ==> e.read(key).wf(),
{
}

/// Writing an entry extends its lifetime and leaves every other entry and
/// lifetime as it was; deleting an entry leaves every other entry and
/// lifetime as it was.
pub proof fn lemma_write(e: EnvView, key: DataKey, value: StoredValue)
    ensures
        e.put(key, value).get(key) == Some(value),
        e.put(key, value).is_extended(key),
        e.del(key).get(key) is None,
        !e.del(key).is_extended(key),
        forall|other: DataKey|
            other != key ==> e.put(key, value).get(other) == e.get(other) && e.put(
                key,
                value,
            ).is_extended(other) == e.is_extended(other),
        forall|other: DataKey|
            other != key ==> e.del(key).get(other) == e.get(other) && e.del(key).is_extended(
                other,
            ) == e.is_extended(other),
        e.wf() && key.spec_admits(value, e.sequence) ==> e.put(key, value).wf(),
        e.wf() ==> e.del(key).wf(),
{
}

} // verus!
