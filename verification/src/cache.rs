use vstd::prelude::*;

use crate::db_types::{
    append_mutations, clone_mutations, lemma_mutations_view_index, lemma_mutations_view_len,
    mutations_view, Mutation, MutationView,
};
use crate::assoc::{distinct_keys, lemma_distinct_push, lemma_distinct_update, lemma_dom, lemma_index, lemma_push, lemma_update, pairs_to_map};
use crate::id::{distinct_from_all, random_b64};

verus! {

/// One atomic append to the write-ahead log: zero or more mutations filed
/// under a unique state id, stamped with a logical timestamp.
pub struct Batch {
    pub state_id: String,
    pub time: u64,
    pub mutations: Vec<Mutation>,
}

/// Mathematical model of a batch.
pub struct BatchView {
    pub state_id: Seq<char>,
    pub time: int,
    pub mutations: Seq<MutationView>,
}

impl View for Batch {
    type V = BatchView;

    open spec fn view(&self) -> BatchView {
        BatchView {
            state_id: self.state_id@,
            time: self.time as int,
            mutations: mutations_view(self.mutations@),
        }
    }
}

/// The views of a sequence of batches.
pub open spec fn batches_view(bs: Seq<Batch>) -> Seq<BatchView> {
    bs.map_values(|b: Batch| b@)
}

pub broadcast proof fn lemma_batches_view_len(bs: Seq<Batch>)
    ensures
        (#[trigger] batches_view(bs)).len() == bs.len(),
{
}

pub broadcast proof fn lemma_batches_view_index(bs: Seq<Batch>, j: int)
    requires
        0 <= j < bs.len(),
    ensures
        #[trigger] batches_view(bs)[j] == bs[j]@,
{
}

/// Whether some batch in the log carries this state id.
pub open spec fn contains_state(log: Seq<BatchView>, id: Seq<char>) -> bool {
    exists|i: int| 0 <= i < log.len() && log[i].state_id == id
}

/// The position of the batch with this state id; meaningful only when the
/// log's state ids are distinct and the id is present.
pub open spec fn index_of_state(log: Seq<BatchView>, id: Seq<char>) -> int {
    choose|i: int| 0 <= i < log.len() && log[i].state_id == id
}

/// All state ids are distinct: a state id denotes one position for good.
pub open spec fn distinct_state_ids(log: Seq<BatchView>) -> bool {
    forall|i: int, j: int| 0 <= i < j < log.len() ==> log[i].state_id != log[j].state_id
}

/// The logical timestamps are exactly the append positions, so that later
/// appends always carry strictly larger times.
pub open spec fn sequential_times(log: Seq<BatchView>) -> bool {
    forall|i: int| 0 <= i < log.len() ==> #[trigger] log[i].time == i
}

/// Every mutation of every batch from position `from` on, oldest batch
/// first, each batch's mutations in order.
pub open spec fn mutations_from(log: Seq<BatchView>, from: int) -> Seq<MutationView>
    decreases log.len() - from,
{
    if from < 0 || from >= log.len() {
        Seq::empty()
    } else {
        log[from].mutations + mutations_from(log, from + 1)
    }
}

/// Every mutation strictly newer than the batch with the given state id.
pub open spec fn mutations_after(log: Seq<BatchView>, id: Seq<char>) -> Seq<MutationView> {
    mutations_from(log, index_of_state(log, id) + 1)
}

/// Nothing is newer than the most recent batch.
pub proof fn lemma_mutations_after_latest(log: Seq<BatchView>)
    requires
        distinct_state_ids(log),
        log.len() > 0,
    ensures
        mutations_after(log, log.last().state_id) == Seq::<MutationView>::empty(),
{
    let id = log.last().state_id;
    let k = index_of_state(log, id);
    assert(log[log.len() - 1].state_id == id);
    assert(0 <= k < log.len() && log[k].state_id == id);
    assert(k == log.len() - 1);
}

/// One user's write-ahead log: an append-only, insertion-ordered sequence of
/// mutation batches with distinct state ids and sequential timestamps.
pub struct Cache {
    batches: Vec<Batch>,
}

impl View for Cache {
    type V = Seq<BatchView>;

    closed spec fn view(&self) -> Seq<BatchView> {
        batches_view(self.batches@)
    }
}

impl Cache {
    /// Well-formed: state ids are distinct and timestamps sequential.
    pub open spec fn wf(&self) -> bool {
        &&& distinct_state_ids(self@)
        &&& sequential_times(self@)
    }

    /// An empty log.
    pub fn new() -> (r: Cache)
        ensures
            r.wf(),
            r@ == Seq::<BatchView>::empty(),
    {
        let r = Cache { batches: Vec::new() };
        proof {
            assert(r@ =~= Seq::<BatchView>::empty());
        }
        r
    }

    /// The position of the batch with the given state id, if any.
    #[verifier::loop_isolation(false)]
    fn find_state(&self, id: &String) -> (r: Option<usize>)
        ensures
            match r {
                Some(i) => 0 <= i < self@.len() && self@[i as int].state_id == id@,
                None => !contains_state(self@, id@),
            },
    {
        broadcast use lemma_batches_view_len, lemma_batches_view_index;

        let mut i: usize = 0;
        while i < self.batches.len()
            invariant
                i <= self.batches.len(),
                forall|j: int| 0 <= j < i ==> self@[j].state_id != id@,
            decreases self.batches.len() - i,
        {
            if self.batches[i].state_id == *id {
                return Some(i);
            }
            i += 1;
        }
        None
    }

    /// Whether the given state id identifies a batch of this log.
    pub fn has_state(&self, id: &String) -> (r: bool)
        ensures
            r == contains_state(self@, id@),
    {
        match self.find_state(id) {
            Some(_) => true,
            None => false,
        }
    }

    /// Whether the given state id is the most recent batch's id: the caller
    /// already knows the whole history.
    pub fn is_latest(&self, id: &String) -> (r: bool)
        ensures
            r == (self@.len() > 0 && self@.last().state_id == id@),
    {
        broadcast use lemma_batches_view_len, lemma_batches_view_index;

        if self.batches.len() == 0 {
            false
        } else {
            self.batches[self.batches.len() - 1].state_id == *id
        }
    }

    /// Whether the log holds no batch at all.
    pub fn is_empty(&self) -> (r: bool)
        ensures
            r == (self@.len() == 0),
    {
        broadcast use lemma_batches_view_len;

        self.batches.len() == 0
    }

    /// A state id that no batch carries yet: random draws first and, in the
    /// astronomically unlikely event that every draw collides, an id built
    /// to be longer than every stored one.
    #[verifier::loop_isolation(false)]
    fn fresh_state_id(&self) -> (r: String)
        ensures
            !contains_state(self@, r@),
    {
        broadcast use lemma_batches_view_len, lemma_batches_view_index;

        let mut attempts: usize = 0;
        while attempts < 16
            decreases 16 - attempts,
        {
            let id = random_b64(24);
            if !self.has_state(&id) {
                return id;
            }
            attempts += 1;
        }
        let mut ids: Vec<String> = Vec::new();
        let mut i: usize = 0;
        while i < self.batches.len()
            invariant
                i <= self.batches.len(),
                ids@.len() == i,
                forall|j: int| 0 <= j < i ==> #[trigger] ids@[j]@ == self@[j].state_id,
            decreases self.batches.len() - i,
        {
            ids.push(self.batches[i].state_id.clone());
            i += 1;
        }
        let r = distinct_from_all(&ids);
        proof {
            if contains_state(self@, r@) {
                let j = choose|j: int| 0 <= j < self@.len() && self@[j].state_id == r@;
                assert(r@ != ids@[j]@);
                assert(false);
            }
        }
        r
    }

    /// Append a batch under a state id that is not in use yet, stamping it
    /// with the next logical timestamp.
    pub fn push_batch(&mut self, state_id: String, mutations: &Vec<Mutation>)
        requires
            old(self).wf(),
            !contains_state(old(self)@, state_id@),
        ensures
            final(self).wf(),
            final(self)@ == old(self)@.push(
                BatchView {
                    state_id: state_id@,
                    time: old(self)@.len() as int,
                    mutations: mutations_view(mutations@),
                },
            ),
    {
        broadcast use lemma_batches_view_len, lemma_batches_view_index;

        let ghost gid = state_id@;
        let time = self.batches.len() as u64;
        let batch = Batch { state_id, time, mutations: clone_mutations(mutations) };
        let ghost gb = batch@;
        self.batches.push(batch);
        proof {
            assert(self@ =~= old(self)@.push(gb));
            assert forall|i: int, j: int|
                0 <= i < j < self@.len() implies self@[i].state_id != self@[j].state_id by {
                if j < self@.len() - 1 {
                } else {
                    assert(self@[i] == old(self)@[i]);
                    assert(!contains_state(old(self)@, gid));
                }
            }
            assert forall|i: int| 0 <= i < self@.len() implies #[trigger] self@[i].time == i by {
                if i < self@.len() - 1 {
                    assert(self@[i] == old(self)@[i]);
                }
            }
        }
    }

    /// Append a list of mutations as one batch under a freshly generated
    /// state id, and return that id.
    pub fn add_mutations(&mut self, mutations: &Vec<Mutation>) -> (r: String)
        requires
            old(self).wf(),
        ensures
            final(self).wf(),
            !contains_state(old(self)@, r@),
            final(self)@ == old(self)@.push(
                BatchView {
                    state_id: r@,
                    time: old(self)@.len() as int,
                    mutations: mutations_view(mutations@),
                },
            ),
    {
        let id = self.fresh_state_id();
        let r = id.clone();
        self.push_batch(id, mutations);
        r
    }


    /// A copy of one batch.
    fn clone_batch(b: &Batch) -> (r: Batch)
        ensures
            r@ == b@,
    {
        Batch {
            state_id: b.state_id.clone(),
            time: b.time,
            mutations: clone_mutations(&b.mutations),
        }
    }

    /// A copy of the whole log, oldest batch first, for callers that keep
    /// the history somewhere durable.
    #[verifier::loop_isolation(false)]
    pub fn export(&self) -> (r: Vec<Batch>)
        ensures
            batches_view(r@) == self@,
    {
        broadcast use lemma_batches_view_len, lemma_batches_view_index;

        let mut r: Vec<Batch> = Vec::new();
        proof {
            assert(batches_view(r@) =~= self@.take(0));
        }
        let mut i: usize = 0;
        while i < self.batches.len()
            invariant
                i <= self.batches.len(),
                batches_view(r@) =~= self@.take(i as int),
            decreases self.batches.len() - i,
        {
            let ghost prev = r@;
            r.push(Self::clone_batch(&self.batches[i]));
            proof {
                assert(prev.len() == i);
                assert(batches_view(r@) =~= self@.take(i + 1));
            }
            i += 1;
        }
        proof {
            assert(self@.take(self@.len() as int) =~= self@);
        }
        r
    }

    /// Every mutation strictly newer than the batch the given state id
    /// denotes, oldest first.
    #[verifier::loop_isolation(false)]
    pub fn get_next_mutations(&self, id: &String) -> (r: Vec<Mutation>)
        requires
            self.wf(),
            contains_state(self@, id@),
        ensures
            mutations_view(r@) == mutations_after(self@, id@),
    {
        broadcast use lemma_batches_view_len, lemma_batches_view_index, lemma_mutations_view_len, lemma_mutations_view_index;

        let k = match self.find_state(id) {
            Some(k) => k,
            None => {
                proof {
                    assert(false);
                }
                0
            },
        };
        proof {
            let c = index_of_state(self@, id@);
            assert(0 <= c < self@.len() && self@[c].state_id == id@);
            assert(c == k);
        }
        let mut r: Vec<Mutation> = Vec::new();
        proof {
            assert(mutations_view(r@) =~= Seq::<MutationView>::empty());
            assert(mutations_view(r@) + mutations_from(self@, k + 1) =~= mutations_from(
                self@,
                k + 1,
            ));
        }
        proof {
            assert(k < self.batches.len());
        }
        let mut j: usize = k + 1;
        while j < self.batches.len()
            invariant
                k + 1 <= j <= self.batches.len(),
                mutations_view(r@) + mutations_from(self@, j as int) == mutations_from(
                    self@,
                    k + 1,
                ),
            decreases self.batches.len() - j,
        {
            let ghost pre = mutations_view(r@);
            append_mutations(&mut r, &self.batches[j].mutations);
            proof {
                assert(mutations_view(r@) == pre + self@[j as int].mutations);
                assert((pre + self@[j as int].mutations) + mutations_from(self@, j + 1) =~= pre
                    + (self@[j as int].mutations + mutations_from(self@, j + 1)));
            }
            j += 1;
        }
        proof {
            assert(mutations_from(self@, self@.len() as int) =~= Seq::<MutationView>::empty());
            assert(mutations_view(r@) + Seq::<MutationView>::empty() =~= mutations_view(r@));
        }
        r
    }
}


/// An alias paired with that user's write-ahead log.
pub struct CacheEntry {
    pub alias: String,
    pub cache: Cache,
}

/// The alias-to-log pairs denoted by a sequence of entries.
pub closed spec fn cache_entry_pairs(entries: Seq<CacheEntry>) -> Seq<
    (Seq<char>, Seq<BatchView>),
> {
    entries.map_values(|e: CacheEntry| (e.alias@, e.cache@))
}

pub broadcast proof fn lemma_cache_entry_pairs_len(entries: Seq<CacheEntry>)
    ensures
        (#[trigger] cache_entry_pairs(entries)).len() == entries.len(),
{
}

pub broadcast proof fn lemma_cache_entry_pairs_index(entries: Seq<CacheEntry>, j: int)
    requires
        0 <= j < entries.len(),
    ensures
        #[trigger] cache_entry_pairs(entries)[j] == (entries[j].alias@, entries[j].cache@),
{
}

/// The write-ahead logs of every user, keyed by the user's resolved alias.
/// A user's log comes into being lazily, at its first use.
pub struct CacheDb {
    entries: Vec<CacheEntry>,
}

impl CacheDb {
    /// The alias-to-log pairs, in creation order.
    pub closed spec fn entry_pairs(&self) -> Seq<(Seq<char>, Seq<BatchView>)> {
        cache_entry_pairs(self.entries@)
    }

    /// Each user's log is well-formed.
    pub closed spec fn caches_wf(&self) -> bool {
        forall|i: int| 0 <= i < self.entries@.len() ==> (#[trigger] self.entries@[i]).cache.wf()
    }

    /// Well-formed: aliases are distinct and every log is well-formed.
    pub open spec fn wf(&self) -> bool {
        &&& distinct_keys(self.entry_pairs())
        &&& self.caches_wf()
    }

    /// The partial map from alias to that user's log.
    pub open spec fn alias_map(&self) -> Map<Seq<char>, Seq<BatchView>> {
        pairs_to_map(self.entry_pairs())
    }

    /// One user's log: empty until something was appended.
    pub open spec fn cache_of(&self, alias: Seq<char>) -> Seq<BatchView> {
        if self.alias_map().contains_key(alias) {
            self.alias_map()[alias]
        } else {
            Seq::empty()
        }
    }

    /// A database with no user history at all.
    pub fn new() -> (r: CacheDb)
        ensures
            r.wf(),
            forall|a: Seq<char>| r.cache_of(a) == Seq::<BatchView>::empty(),
    {
        let r = CacheDb { entries: Vec::new() };
        proof {
            assert(r.entry_pairs() =~= Seq::<(Seq<char>, Seq<BatchView>)>::empty());
            assert forall|a: Seq<char>| r.cache_of(a) == Seq::<BatchView>::empty() by {
                lemma_dom(r.entry_pairs(), a);
            }
        }
        r
    }

    /// The position of the entry for an alias, if there is one.
    #[verifier::loop_isolation(false)]
    fn entry_index(&self, alias: &String) -> (r: Option<usize>)
        ensures
            match r {
                Some(i) => 0 <= i < self.entries@.len() && self.entries@[i as int].alias@
                    == alias@ && self.alias_map().contains_key(alias@),
                None => !self.alias_map().contains_key(alias@),
            },
    {
        broadcast use lemma_cache_entry_pairs_len, lemma_cache_entry_pairs_index;

        let mut i: usize = 0;
        while i < self.entries.len()
            invariant
                i <= self.entries.len(),
                forall|j: int| 0 <= j < i ==> self.entries@[j].alias@ != alias@,
            decreases self.entries.len() - i,
        {
            if self.entries[i].alias == *alias {
                proof {
                    assert(self.entry_pairs()[i as int].0 == alias@);
                    lemma_dom(self.entry_pairs(), alias@);
                }
                return Some(i);
            }
            i += 1;
        }
        proof {
            lemma_dom(self.entry_pairs(), alias@);
            if self.alias_map().contains_key(alias@) {
                let j = choose|j: int|
                    0 <= j < self.entry_pairs().len() && self.entry_pairs()[j].0 == alias@;
                assert(self.entries@[j].alias@ == alias@);
                assert(false);
            }
        }
        None
    }

    /// Append a fresh, empty entry for an alias that has none yet, and
    /// return its position.
    fn push_entry(&mut self, alias: &String) -> (i: usize)
        requires
            old(self).wf(),
            !old(self).alias_map().contains_key(alias@),
        ensures
            final(self).wf(),
            final(self).entries@.len() == old(self).entries@.len() + 1,
            i == old(self).entries@.len(),
            final(self).entries@[i as int].alias@ == alias@,
            final(self).entries@[i as int].cache@ == Seq::<BatchView>::empty(),
            final(self).entry_pairs() == old(self).entry_pairs().push(
                (alias@, Seq::<BatchView>::empty()),
            ),
            final(self).alias_map() == old(self).alias_map().insert(
                alias@,
                Seq::<BatchView>::empty(),
            ),
            forall|a: Seq<char>| final(self).cache_of(a) == old(self).cache_of(a),
    {
        broadcast use lemma_cache_entry_pairs_len, lemma_cache_entry_pairs_index;

        let i = self.entries.len();
        self.entries.push(CacheEntry { alias: alias.clone(), cache: Cache::new() });
        proof {
            assert(self.entry_pairs() =~= old(self).entry_pairs().push(
                (alias@, Seq::<BatchView>::empty()),
            ));
            lemma_dom(old(self).entry_pairs(), alias@);
            assert forall|p: int|
                0 <= p < old(self).entry_pairs().len() implies old(self).entry_pairs()[p].0
                != alias@ by {}
            lemma_distinct_push(old(self).entry_pairs(), alias@, Seq::<BatchView>::empty());
            lemma_push(old(self).entry_pairs(), alias@, Seq::<BatchView>::empty());
            assert forall|a: Seq<char>| final(self).cache_of(a) == old(self).cache_of(a) by {
                if a == alias@ {
                    assert(final(self).cache_of(a) == Seq::<BatchView>::empty());
                    assert(old(self).cache_of(a) == Seq::<BatchView>::empty());
                }
            }
        }
        i
    }

    /// Take the log of the entry at a position out, leaving an empty one
    /// behind; the caller puts a log back with `set_cache`.
    fn take_cache(&mut self, i: usize) -> (r: Cache)
        requires
            old(self).wf(),
            0 <= i < old(self).entries@.len(),
        ensures
            final(self).wf(),
            r.wf(),
            r@ == old(self).entries@[i as int].cache@,
            final(self).entries@.len() == old(self).entries@.len(),
            final(self).entries@[i as int].alias@ == old(self).entries@[i as int].alias@,
            final(self).entry_pairs() == old(self).entry_pairs().update(
                i as int,
                (old(self).entries@[i as int].alias@, Seq::<BatchView>::empty()),
            ),
    {
        broadcast use lemma_cache_entry_pairs_len, lemma_cache_entry_pairs_index;

        let entry = self.entries.remove(i);
        self.entries.insert(i, CacheEntry { alias: entry.alias, cache: Cache::new() });
        let r = entry.cache;
        proof {
            assert(self.entries@ =~= old(self).entries@.update(i as int, self.entries@[i as int]));
            assert(self.entry_pairs() =~= old(self).entry_pairs().update(
                i as int,
                (old(self).entries@[i as int].alias@, Seq::<BatchView>::empty()),
            ));
            assert(old(self).entry_pairs()[i as int].0 == old(self).entries@[i as int].alias@);
            lemma_distinct_update(old(self).entry_pairs(), i as int, Seq::<BatchView>::empty());
        }
        r
    }

    /// Replace the log of the entry at a position, keeping its alias.
    fn set_cache(&mut self, i: usize, cache: Cache)
        requires
            old(self).wf(),
            0 <= i < old(self).entries@.len(),
            cache.wf(),
        ensures
            final(self).wf(),
            final(self).entry_pairs() == old(self).entry_pairs().update(
                i as int,
                (old(self).entries@[i as int].alias@, cache@),
            ),
            final(self).alias_map() == old(self).alias_map().insert(
                old(self).entries@[i as int].alias@,
                cache@,
            ),
            final(self).cache_of(old(self).entries@[i as int].alias@) == cache@,
            forall|a: Seq<char>|
                a != old(self).entries@[i as int].alias@ ==> final(self).cache_of(a) == old(
                    self,
                ).cache_of(a),
    {
        broadcast use lemma_cache_entry_pairs_len, lemma_cache_entry_pairs_index;

        let ghost k = old(self).entries@[i as int].alias@;
        let entry = self.entries.remove(i);
        self.entries.insert(i, CacheEntry { alias: entry.alias, cache });
        proof {
            assert(self.entries@ =~= old(self).entries@.update(i as int, self.entries@[i as int]));
            assert(self.entries@[i as int].alias@ == k);
            assert(self.entry_pairs() =~= old(self).entry_pairs().update(
                i as int,
                (k, self.entries@[i as int].cache@),
            ));
            assert(old(self).entry_pairs()[i as int].0 == k);
            lemma_distinct_update(old(self).entry_pairs(), i as int, self.entries@[i as int].cache@);
            lemma_update(old(self).entry_pairs(), i as int, self.entries@[i as int].cache@);
            lemma_index(self.entry_pairs(), i as int);
            assert forall|a: Seq<char>|
                a != k implies final(self).cache_of(a) == old(self).cache_of(a) by {}
        }
    }

    /// Whether the state id identifies a batch in this user's log.
    pub fn has_state(&self, alias: &String, state: &String) -> (r: bool)
        requires
            self.wf(),
        ensures
            r == contains_state(self.cache_of(alias@), state@),
    {
        broadcast use lemma_cache_entry_pairs_len, lemma_cache_entry_pairs_index;

        match self.entry_index(alias) {
            Some(i) => {
                proof {
                    lemma_index(self.entry_pairs(), i as int);
                }
                self.entries[i].cache.has_state(state)
            },
            None => false,
        }
    }

    /// Whether the state id is the most recent batch of this user's log.
    pub fn is_latest(&self, alias: &String, state: &String) -> (r: bool)
        requires
            self.wf(),
        ensures
            r == (self.cache_of(alias@).len() > 0 && self.cache_of(alias@).last().state_id
                == state@),
    {
        broadcast use lemma_cache_entry_pairs_len, lemma_cache_entry_pairs_index;

        match self.entry_index(alias) {
            Some(i) => {
                proof {
                    lemma_index(self.entry_pairs(), i as int);
                }
                self.entries[i].cache.is_latest(state)
            },
            None => false,
        }
    }

    /// Whether this user's log holds no batch at all.
    pub fn is_empty(&self, alias: &String) -> (r: bool)
        requires
            self.wf(),
        ensures
            r == (self.cache_of(alias@).len() == 0),
    {
        broadcast use lemma_cache_entry_pairs_len, lemma_cache_entry_pairs_index;

        match self.entry_index(alias) {
            Some(i) => {
                proof {
                    lemma_index(self.entry_pairs(), i as int);
                }
                self.entries[i].cache.is_empty()
            },
            None => true,
        }
    }

    /// Every mutation of this user strictly newer than the batch the given
    /// state id denotes, oldest first.
    pub fn get_next_mutations(&self, alias: &String, state: &String) -> (r: Vec<Mutation>)
        requires
            self.wf(),
            contains_state(self.cache_of(alias@), state@),
        ensures
            mutations_view(r@) == mutations_after(self.cache_of(alias@), state@),
    {
        broadcast use lemma_cache_entry_pairs_len, lemma_cache_entry_pairs_index;

        match self.entry_index(alias) {
            Some(i) => {
                proof {
                    lemma_index(self.entry_pairs(), i as int);
                }
                self.entries[i].cache.get_next_mutations(state)
            },
            None => {
                proof {
                    assert(false);
                }
                Vec::new()
            },
        }
    }

    /// Append a batch of mutations to this user's log under a freshly
    /// generated state id, creating the log on first use, and return the id.
    pub fn add_mutations(&mut self, alias: &String, mutations: &Vec<Mutation>) -> (r: String)
        requires
            old(self).wf(),
        ensures
            final(self).wf(),
            !contains_state(old(self).cache_of(alias@), r@),
            final(self).cache_of(alias@) == old(self).cache_of(alias@).push(
                BatchView {
                    state_id: r@,
                    time: old(self).cache_of(alias@).len() as int,
                    mutations: mutations_view(mutations@),
                },
            ),
            forall|a: Seq<char>| a != alias@ ==> final(self).cache_of(a) == old(self).cache_of(a),
    {
        broadcast use lemma_cache_entry_pairs_len, lemma_cache_entry_pairs_index;

        let i = match self.entry_index(alias) {
            Some(i) => i,
            None => self.push_entry(alias),
        };
        proof {
            lemma_index(self.entry_pairs(), i as int);
            assert(self.cache_of(alias@) == self.entries@[i as int].cache@);
        }
        let ghost mid = *self;
        let mut cache = self.take_cache(i);
        let r = cache.add_mutations(mutations);
        self.set_cache(i, cache);
        proof {
            let post = self.entries@[i as int].cache@;
            assert(self.entry_pairs() =~= mid.entry_pairs().update(i as int, (alias@, post)));
            assert(mid.entry_pairs()[i as int].0 == alias@);
            lemma_update(mid.entry_pairs(), i as int, post);
            assert(self.alias_map() == mid.alias_map().insert(alias@, post));
            assert(self.cache_of(alias@) == post);
            assert forall|a: Seq<char>|
                a != alias@ implies self.cache_of(a) == mid.cache_of(a) by {}
        }
        r
    }

    /// A copy of one user's whole log, oldest batch first.
    pub fn export_log(&self, alias: &String) -> (r: Vec<Batch>)
        requires
            self.wf(),
        ensures
            batches_view(r@) == self.cache_of(alias@),
    {
        broadcast use lemma_cache_entry_pairs_len, lemma_cache_entry_pairs_index;

        match self.entry_index(alias) {
            Some(i) => {
                proof {
                    lemma_index(self.entry_pairs(), i as int);
                }
                self.entries[i].cache.export()
            },
            None => {
                let r: Vec<Batch> = Vec::new();
                proof {
                    assert(batches_view(r@) =~= Seq::<BatchView>::empty());
                }
                r
            },
        }
    }

    /// Append a batch under a caller-chosen state id that is not in use for
    /// this user yet, creating the log on first use.
    pub fn push_batch(&mut self, alias: &String, state_id: String, mutations: &Vec<Mutation>)
        requires
            old(self).wf(),
            !contains_state(old(self).cache_of(alias@), state_id@),
        ensures
            final(self).wf(),
            final(self).cache_of(alias@) == old(self).cache_of(alias@).push(
                BatchView {
                    state_id: state_id@,
                    time: old(self).cache_of(alias@).len() as int,
                    mutations: mutations_view(mutations@),
                },
            ),
            forall|a: Seq<char>| a != alias@ ==> final(self).cache_of(a) == old(self).cache_of(a),
    {
        broadcast use lemma_cache_entry_pairs_len, lemma_cache_entry_pairs_index;

        let i = match self.entry_index(alias) {
            Some(i) => i,
            None => self.push_entry(alias),
        };
        proof {
            lemma_index(self.entry_pairs(), i as int);
            assert(self.cache_of(alias@) == self.entries@[i as int].cache@);
        }
        let ghost mid = *self;
        let mut cache = self.take_cache(i);
        cache.push_batch(state_id, mutations);
        self.set_cache(i, cache);
        proof {
            let post = self.entries@[i as int].cache@;
            assert(self.entry_pairs() =~= mid.entry_pairs().update(i as int, (alias@, post)));
            assert(mid.entry_pairs()[i as int].0 == alias@);
            lemma_update(mid.entry_pairs(), i as int, post);
            assert(self.alias_map() == mid.alias_map().insert(alias@, post));
            assert(self.cache_of(alias@) == post);
            assert forall|a: Seq<char>|
                a != alias@ implies self.cache_of(a) == mid.cache_of(a) by {}
        }
    }
}

} // verus!
