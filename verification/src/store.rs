use vstd::prelude::*;

use crate::assoc::{
    distinct_keys, lemma_distinct_push, lemma_distinct_remove, lemma_distinct_update, lemma_dom,
    lemma_index, lemma_push, lemma_remove, lemma_update, pairs_to_map,
};
use crate::db_types::{Credential, CredentialView, Mutation, MutationView};
use crate::error::{Error, ErrorView};
use crate::id::{distinct_from_all, random_b64};

verus! {

/// The views of a row of credentials.
pub open spec fn credentials_view(rows: Seq<Credential>) -> Seq<CredentialView> {
    rows.map_values(|c: Credential| c@)
}

/// The key-value pairs denoted by credential rows.
pub open spec fn credential_pairs(rows: Seq<CredentialView>) -> Seq<(Seq<char>, Seq<char>)> {
    rows.map_values(|c: CredentialView| (c.id, c.value))
}

pub broadcast proof fn lemma_credentials_view_len(rows: Seq<Credential>)
    ensures
        (#[trigger] credentials_view(rows)).len() == rows.len(),
{
}

pub broadcast proof fn lemma_credentials_view_index(rows: Seq<Credential>, j: int)
    requires
        0 <= j < rows.len(),
    ensures
        #[trigger] credentials_view(rows)[j] == rows[j]@,
{
}

pub broadcast proof fn lemma_credential_pairs_len(rows: Seq<CredentialView>)
    ensures
        (#[trigger] credential_pairs(rows)).len() == rows.len(),
{
}

pub broadcast proof fn lemma_credential_pairs_index(rows: Seq<CredentialView>, j: int)
    requires
        0 <= j < rows.len(),
    ensures
        #[trigger] credential_pairs(rows)[j] == (rows[j].id, rows[j].value),
{
}


/// How applying one mutation to a store may turn out: the resulting map and
/// the returned value, as a function of the prior map and the mutation. The
/// replacement id drawn for a colliding `Add` is random, so it is
/// constrained (fresh) but not determined.
pub open spec fn apply_outcome(
    pre: Map<Seq<char>, Seq<char>>,
    m: MutationView,
    post: Map<Seq<char>, Seq<char>>,
    r: Result<Option<Seq<char>>, ErrorView>,
) -> bool {
    match m {
        MutationView::Add { credential } => {
            if pre.contains_key(credential.id) {
                match r {
                    Ok(Some(new_id)) => {
                        &&& !pre.contains_key(new_id)
                        &&& post == pre.insert(new_id, credential.value)
                    },
                    _ => false,
                }
            } else {
                &&& r == Ok::<Option<Seq<char>>, ErrorView>(None)
                &&& post == pre.insert(credential.id, credential.value)
            }
        },
        MutationView::Modify { credential } => {
            if pre.contains_key(credential.id) {
                &&& r == Ok::<Option<Seq<char>>, ErrorView>(None)
                &&& post == pre.insert(credential.id, credential.value)
            } else {
                &&& r == Err::<Option<Seq<char>>, ErrorView>(ErrorView::MissingId(credential.id))
                &&& post == pre
            }
        },
        MutationView::Delete { credential } => {
            if pre.contains_key(credential.id) {
                &&& r == Ok::<Option<Seq<char>>, ErrorView>(None)
                &&& post == pre.remove(credential.id)
            } else {
                &&& r == Err::<Option<Seq<char>>, ErrorView>(ErrorView::MissingId(credential.id))
                &&& post == pre
            }
        },
    }
}

/// The spec-level value of an application result.
pub open spec fn apply_result_view(r: Result<Option<String>, Error>) -> Result<
    Option<Seq<char>>,
    ErrorView,
> {
    match r {
        Ok(None) => Ok(None),
        Ok(Some(id)) => Ok(Some(id@)),
        Err(e) => Err(e@),
    }
}

/// One user's credential table: insertion-ordered rows with pairwise
/// distinct ids, denoting a finite map from credential id to value.
pub struct Store {
    rows: Vec<Credential>,
}

impl View for Store {
    type V = Map<Seq<char>, Seq<char>>;

    open spec fn view(&self) -> Map<Seq<char>, Seq<char>> {
        pairs_to_map(credential_pairs(self.rows_view()))
    }
}

impl Store {
    /// The rows as they stand, in insertion order.
    pub closed spec fn rows_view(&self) -> Seq<CredentialView> {
        credentials_view(self.rows@)
    }

    /// Well-formed: all credential ids are distinct.
    pub open spec fn wf(&self) -> bool {
        distinct_keys(credential_pairs(self.rows_view()))
    }

    /// An empty store.
    pub fn new() -> (r: Store)
        ensures
            r.wf(),
            r@ == Map::<Seq<char>, Seq<char>>::empty(),
            r.rows_view() == Seq::<CredentialView>::empty(),
    {
        broadcast use lemma_credentials_view_len, lemma_credentials_view_index, lemma_credential_pairs_len, lemma_credential_pairs_index;
        let r = Store { rows: Vec::new() };
        proof {
            assert(r.rows_view() =~= Seq::<CredentialView>::empty());
            assert(credential_pairs(r.rows_view()) =~= Seq::<(Seq<char>, Seq<char>)>::empty());
        }
        r
    }

    /// The position of the row with the given id, if any.
    #[verifier::loop_isolation(false)]
    fn find_index(&self, id: &String) -> (r: Option<usize>)
        ensures
            match r {
                Some(i) => 0 <= i < self.rows_view().len() && self.rows_view()[i as int].id == id@,
                None => forall|j: int|
                    0 <= j < self.rows_view().len() ==> self.rows_view()[j].id != id@,
            },
    {
        broadcast use lemma_credentials_view_len, lemma_credentials_view_index, lemma_credential_pairs_len, lemma_credential_pairs_index;
        let mut i: usize = 0;
        while i < self.rows.len()
            invariant
                i <= self.rows.len(),
                forall|j: int| 0 <= j < i ==> self.rows_view()[j].id != id@,
            decreases self.rows.len() - i,
        {
            if self.rows[i].id == *id {
                return Some(i);
            }
            i += 1;
        }
        None
    }

    /// Whether a credential with this id is present.
    pub fn contains_id(&self, id: &String) -> (r: bool)
        requires
            self.wf(),
        ensures
            r == self@.contains_key(id@),
    {
        broadcast use lemma_credentials_view_len, lemma_credentials_view_index, lemma_credential_pairs_len, lemma_credential_pairs_index;
        proof {
            lemma_dom(credential_pairs(self.rows_view()), id@);
            assert forall|j: int|
                0 <= j < credential_pairs(self.rows_view()).len() implies credential_pairs(
                self.rows_view(),
            )[j].0 == self.rows_view()[j].id by {}
        }
        match self.find_index(id) {
            Some(_) => true,
            None => false,
        }
    }

    /// Apply a single mutation, resolving an `Add` id collision by drawing
    /// fresh random ids until an unused one is found; the corrected id is
    /// returned so the caller can rewrite the mutation before logging it.
    /// A `Modify` or `Delete` whose id is absent fails with `MissingId`.
    pub fn apply(&mut self, mutation: &Mutation) -> (r: Result<Option<String>, Error>)
        requires
            old(self).wf(),
        ensures
            final(self).wf(),
            apply_outcome(old(self)@, mutation@, final(self)@, apply_result_view(r)),
    {
        broadcast use lemma_credentials_view_len, lemma_credentials_view_index, lemma_credential_pairs_len, lemma_credential_pairs_index;
        match mutation {
            Mutation::Add { credential } => {
                if !self.contains_id(&credential.id) {
                    self.push_row(credential.clone());
                    Ok(None)
                } else {
                    let new_id = self.fresh_id();
                    self.push_row(
                        Credential { id: new_id.clone(), value: credential.value.clone() },
                    );
                    Ok(Some(new_id))
                }
            },
            Mutation::Modify { credential } => {
                match self.find_index(&credential.id) {
                    Some(i) => {
                        proof {
                            lemma_index(credential_pairs(self.rows_view()), i as int);
                        }
                        self.update_row(i, credential.value.clone());
                        Ok(None)
                    },
                    None => {
                        proof {
                            lemma_dom(credential_pairs(self.rows_view()), credential.id@);
                        }
                        Err(Error::MissingId(credential.id.clone()))
                    },
                }
            },
            Mutation::Delete { credential } => {
                match self.find_index(&credential.id) {
                    Some(i) => {
                        proof {
                            lemma_index(credential_pairs(self.rows_view()), i as int);
                        }
                        self.remove_row(i);
                        Ok(None)
                    },
                    None => {
                        proof {
                            lemma_dom(credential_pairs(self.rows_view()), credential.id@);
                        }
                        Err(Error::MissingId(credential.id.clone()))
                    },
                }
            },
        }
    }

    /// An id under which no credential is stored: random draws first and, in
    /// the astronomically unlikely event that every draw collides, an id
    /// built to be longer than every stored one.
    #[verifier::loop_isolation(false)]
    fn fresh_id(&self) -> (r: String)
        requires
            self.wf(),
        ensures
            !self@.contains_key(r@),
    {
        broadcast use lemma_credentials_view_len, lemma_credentials_view_index, lemma_credential_pairs_len, lemma_credential_pairs_index;
        let mut attempts: usize = 0;
        while attempts < 16
            invariant
                self.wf(),
            decreases 16 - attempts,
        {
            let id = random_b64(24);
            if !self.contains_id(&id) {
                return id;
            }
            attempts += 1;
        }
        let mut ids: Vec<String> = Vec::new();
        let mut i: usize = 0;
        while i < self.rows.len()
            invariant
                i <= self.rows.len(),
                ids@.len() == i,
                forall|j: int| 0 <= j < i ==> #[trigger] ids@[j]@ == self.rows_view()[j].id,
            decreases self.rows.len() - i,
        {
            ids.push(self.rows[i].id.clone());
            i += 1;
        }
        let r = distinct_from_all(&ids);
        proof {
            lemma_dom(credential_pairs(self.rows_view()), r@);
            if self@.contains_key(r@) {
                let j = choose|j: int|
                    0 <= j < credential_pairs(self.rows_view()).len() && credential_pairs(
                        self.rows_view(),
                    )[j].0 == r@;
                assert(credential_pairs(self.rows_view())[j].0 == self.rows_view()[j].id);
                assert(ids@[j]@ == self.rows_view()[j].id);
                assert(r@ != ids@[j]@);
                assert(false);
            }
        }
        r
    }

    /// Append a row whose id is not yet present.
    fn push_row(&mut self, credential: Credential)
        requires
            old(self).wf(),
            !old(self)@.contains_key(credential.id@),
        ensures
            final(self).wf(),
            final(self)@ == old(self)@.insert(credential.id@, credential.value@),
            final(self).rows_view() == old(self).rows_view().push(credential@),
    {
        broadcast use lemma_credentials_view_len, lemma_credentials_view_index, lemma_credential_pairs_len, lemma_credential_pairs_index;
        proof {
            lemma_dom(credential_pairs(self.rows_view()), credential.id@);
        }
        let ghost pre = self.rows_view();
        let ghost gc = credential@;
        self.rows.push(credential);
        proof {
            assert(self.rows_view() =~= pre.push(gc));
            assert(credential_pairs(self.rows_view()) =~= credential_pairs(pre).push(
                (gc.id, gc.value),
            ));
            assert forall|j: int| 0 <= j < credential_pairs(pre).len() implies credential_pairs(
                pre,
            )[j].0 != gc.id by {
                assert(credential_pairs(pre)[j].0 == pre[j].id);
            }
            lemma_distinct_push(credential_pairs(pre), gc.id, gc.value);
            lemma_push(credential_pairs(pre), gc.id, gc.value);
        }
    }

    /// Overwrite the value of the row at a position, keeping its id.
    fn update_row(&mut self, i: usize, value: String)
        requires
            old(self).wf(),
            0 <= i < old(self).rows_view().len(),
        ensures
            final(self).wf(),
            final(self)@ == old(self)@.insert(old(self).rows_view()[i as int].id, value@),
            final(self).rows_view() == old(self).rows_view().update(
                i as int,
                CredentialView { id: old(self).rows_view()[i as int].id, value: value@ },
            ),
    {
        broadcast use lemma_credentials_view_len, lemma_credentials_view_index, lemma_credential_pairs_len, lemma_credential_pairs_index;
        let ghost pre = self.rows_view();
        let ghost gv = value@;
        let row = self.rows.remove(i);
        self.rows.insert(i, Credential { id: row.id, value });
        proof {
            let k = pre[i as int].id;
            assert(self.rows_view() =~= pre.update(i as int, CredentialView { id: k, value: gv }));
            assert(credential_pairs(self.rows_view()) =~= credential_pairs(pre).update(
                i as int,
                (k, gv),
            ));
            assert(credential_pairs(pre)[i as int].0 == k);
            lemma_distinct_update(credential_pairs(pre), i as int, gv);
            lemma_update(credential_pairs(pre), i as int, gv);
        }
    }

    /// Remove the row at a position.
    fn remove_row(&mut self, i: usize)
        requires
            old(self).wf(),
            0 <= i < old(self).rows_view().len(),
        ensures
            final(self).wf(),
            final(self)@ == old(self)@.remove(old(self).rows_view()[i as int].id),
            final(self).rows_view() == old(self).rows_view().remove(i as int),
    {
        broadcast use lemma_credentials_view_len, lemma_credentials_view_index, lemma_credential_pairs_len, lemma_credential_pairs_index;
        let ghost pre = self.rows_view();
        self.rows.remove(i);
        proof {
            assert(self.rows_view() =~= pre.remove(i as int));
            assert(credential_pairs(self.rows_view()) =~= credential_pairs(pre).remove(i as int));
            assert(credential_pairs(pre)[i as int].0 == pre[i as int].id);
            lemma_distinct_remove(credential_pairs(pre), i as int);
            lemma_remove(credential_pairs(pre), i as int);
        }
    }

    /// A snapshot of every credential, in insertion order; the order is not
    /// part of the contract, only which pairs are present.
    #[verifier::loop_isolation(false)]
    pub fn export(&self) -> (r: Vec<Credential>)
        requires
            self.wf(),
        ensures
            credentials_view(r@) == self.rows_view(),
            distinct_keys(credential_pairs(credentials_view(r@))),
            pairs_to_map(credential_pairs(credentials_view(r@))) == self@,
    {
        broadcast use lemma_credentials_view_len, lemma_credentials_view_index, lemma_credential_pairs_len, lemma_credential_pairs_index;
        let mut r: Vec<Credential> = Vec::new();
        let mut i: usize = 0;
        while i < self.rows.len()
            invariant
                i <= self.rows.len(),
                credentials_view(r@) =~= self.rows_view().take(i as int),
            decreases self.rows.len() - i,
        {
            let ghost prev = r@;
            r.push(self.rows[i].clone());
            proof {
                assert(prev.len() == i);
                assert(credentials_view(r@) =~= self.rows_view().take(i + 1));
            }
            i += 1;
        }
        proof {
            assert(credentials_view(r@) =~= self.rows_view());
        }
        r
    }

    /// Fill what must be an empty store from a list of credentials, stopping
    /// at the first repeated id. The rows inserted before a repeated id stay.
    #[verifier::loop_isolation(false)]
    pub fn import(&mut self, alias: &String, credentials: &Vec<Credential>) -> (r: Result<
        (),
        Error,
    >)
        requires
            old(self).wf(),
        ensures
            final(self).wf(),
            old(self).rows_view().len() > 0 ==> {
                &&& r matches Err(e) && e@ == ErrorView::ExistingUser(alias@)
                &&& final(self).rows_view() == old(self).rows_view()
            },
            old(self).rows_view().len() == 0 && distinct_keys(
                credential_pairs(credentials_view(credentials@)),
            ) ==> {
                &&& r is Ok
                &&& final(self)@ == pairs_to_map(credential_pairs(credentials_view(credentials@)))
                &&& final(self).rows_view() == credentials_view(credentials@)
            },
            old(self).rows_view().len() == 0 && !distinct_keys(
                credential_pairs(credentials_view(credentials@)),
            ) ==> {
                &&& r matches Err(e) && e@ is Server
                &&& exists|k: int|
                    0 <= k < credentials@.len() && final(self).rows_view() == credentials_view(
                        credentials@,
                    ).take(k)
            },
    {
        broadcast use lemma_credentials_view_len, lemma_credentials_view_index, lemma_credential_pairs_len, lemma_credential_pairs_index;
        if self.rows.len() > 0 {
            return Err(Error::ExistingUser(alias.clone()));
        }
        proof {
            assert(self.rows_view() =~= credentials_view(credentials@).take(0));
        }
        let mut i: usize = 0;
        while i < credentials.len()
            invariant
                i <= credentials.len(),
                self.wf(),
                self.rows_view() =~= credentials_view(credentials@).take(i as int),
            decreases credentials.len() - i,
        {
            let c = &credentials[i];
            if self.contains_id(&c.id) {
                proof {
                    lemma_dom(credential_pairs(self.rows_view()), c.id@);
                    let j = choose|j: int|
                        0 <= j < credential_pairs(self.rows_view()).len() && credential_pairs(
                            self.rows_view(),
                        )[j].0 == c.id@;
                    assert(credentials_view(credentials@)[j].id == credentials_view(
                        credentials@,
                    )[i as int].id);
                    assert(credential_pairs(credentials_view(credentials@))[j].0
                        == credential_pairs(credentials_view(credentials@))[i as int].0);
                    assert(!distinct_keys(credential_pairs(credentials_view(credentials@))));
                    assert(self.rows_view() == credentials_view(credentials@).take(i as int));
                }
                return Err(Error::Server("Duplicate credential id in upload".to_owned()));
            }
            self.push_row(c.clone());
            proof {
                assert(self.rows_view() =~= credentials_view(credentials@).take(i + 1));
            }
            i += 1;
        }
        proof {
            assert(self.rows_view() =~= credentials_view(credentials@));
            if !distinct_keys(credential_pairs(credentials_view(credentials@))) {
                assert(distinct_keys(credential_pairs(self.rows_view())));
                assert(false);
            }
        }
        Ok(())
    }

    /// Whether the store holds no credential at all.
    pub fn is_empty(&self) -> (r: bool)
        requires
            self.wf(),
        ensures
            r == (self.rows_view().len() == 0),
            r == (self@ == Map::<Seq<char>, Seq<char>>::empty()),
    {
        broadcast use lemma_credentials_view_len, lemma_credentials_view_index, lemma_credential_pairs_len, lemma_credential_pairs_index;
        proof {
            if self.rows_view().len() == 0 {
                assert(credential_pairs(self.rows_view()) =~= Seq::<(
                    Seq<char>,
                    Seq<char>,
                )>::empty());
                assert(self@ =~= Map::<Seq<char>, Seq<char>>::empty());
            } else {
                lemma_index(credential_pairs(self.rows_view()), 0);
                assert(self@.contains_key(self.rows_view()[0].id));
                assert(!Map::<Seq<char>, Seq<char>>::empty().contains_key(self.rows_view()[0].id));
            }
        }
        self.rows.len() == 0
    }
}


/// An alias paired with that user's credential store.
pub struct StoreEntry {
    pub alias: String,
    pub store: Store,
}

/// The alias-to-map pairs denoted by a sequence of entries.
pub closed spec fn store_entry_pairs(entries: Seq<StoreEntry>) -> Seq<
    (Seq<char>, Map<Seq<char>, Seq<char>>),
> {
    entries.map_values(|e: StoreEntry| (e.alias@, e.store@))
}

pub broadcast proof fn lemma_store_entry_pairs_len(entries: Seq<StoreEntry>)
    ensures
        (#[trigger] store_entry_pairs(entries)).len() == entries.len(),
{
}

pub broadcast proof fn lemma_store_entry_pairs_index(entries: Seq<StoreEntry>, j: int)
    requires
        0 <= j < entries.len(),
    ensures
        #[trigger] store_entry_pairs(entries)[j] == (entries[j].alias@, entries[j].store@),
{
}

/// An empty map denotes an empty row sequence and the other way round.
pub proof fn lemma_store_map_empty(rows: Seq<CredentialView>)
    requires
        distinct_keys(credential_pairs(rows)),
    ensures
        (pairs_to_map(credential_pairs(rows)) == Map::<Seq<char>, Seq<char>>::empty()) <==> rows.len() == 0,
{
    broadcast use lemma_credential_pairs_len, lemma_credential_pairs_index;

    if rows.len() == 0 {
        assert(credential_pairs(rows) =~= Seq::<(Seq<char>, Seq<char>)>::empty());
        assert(pairs_to_map(credential_pairs(rows)) =~= Map::<Seq<char>, Seq<char>>::empty());
    } else {
        lemma_index(credential_pairs(rows), 0);
        assert(pairs_to_map(credential_pairs(rows)).contains_key(rows[0].id));
        assert(!Map::<Seq<char>, Seq<char>>::empty().contains_key(rows[0].id));
    }
}

/// The credential stores of every user, keyed by the user's resolved alias.
/// A user's store comes into being lazily, at its first use.
pub struct StoreDb {
    entries: Vec<StoreEntry>,
}

impl StoreDb {
    /// The alias-to-map pairs, in creation order.
    pub closed spec fn entry_pairs(&self) -> Seq<(Seq<char>, Map<Seq<char>, Seq<char>>)> {
        store_entry_pairs(self.entries@)
    }

    /// Each user's row sequence is well-formed.
    pub closed spec fn stores_wf(&self) -> bool {
        forall|i: int| 0 <= i < self.entries@.len() ==> (#[trigger] self.entries@[i]).store.wf()
    }

    /// Well-formed: aliases are distinct and every store is well-formed.
    pub open spec fn wf(&self) -> bool {
        &&& distinct_keys(self.entry_pairs())
        &&& self.stores_wf()
    }

    /// The partial map from alias to that user's credential map.
    pub open spec fn alias_map(&self) -> Map<Seq<char>, Map<Seq<char>, Seq<char>>> {
        pairs_to_map(self.entry_pairs())
    }

    /// One user's credential map: empty until something was stored.
    pub open spec fn store_of(&self, alias: Seq<char>) -> Map<Seq<char>, Seq<char>> {
        if self.alias_map().contains_key(alias) {
            self.alias_map()[alias]
        } else {
            Map::empty()
        }
    }

    /// A database with no user data at all.
    pub fn new() -> (r: StoreDb)
        ensures
            r.wf(),
            forall|a: Seq<char>| r.store_of(a) == Map::<Seq<char>, Seq<char>>::empty(),
    {
        let r = StoreDb { entries: Vec::new() };
        proof {
            assert(r.entry_pairs() =~= Seq::<(Seq<char>, Map<Seq<char>, Seq<char>>)>::empty());
            assert forall|a: Seq<char>|
                r.store_of(a) == Map::<Seq<char>, Seq<char>>::empty() by {
                lemma_dom(r.entry_pairs(), a);
            }
        }
        r
    }

    /// The position of the entry for an alias, if there is one.
    #[verifier::loop_isolation(false)]
    fn entry_index(&self, alias: &String) -> (r: Option<usize>)
        ensures
            match r {
                Some(i) => 0 <= i < self.entries@.len() && self.entries@[i as int].alias@
                    == alias@ && self.alias_map().contains_key(alias@),
                None => !self.alias_map().contains_key(alias@),
            },
    {
        broadcast use lemma_store_entry_pairs_len, lemma_store_entry_pairs_index;

        let mut i: usize = 0;
        while i < self.entries.len()
            invariant
                i <= self.entries.len(),
                forall|j: int| 0 <= j < i ==> self.entries@[j].alias@ != alias@,
            decreases self.entries.len() - i,
        {
            if self.entries[i].alias == *alias {
                proof {
                    assert(self.entry_pairs()[i as int].0 == alias@);
                    lemma_dom(self.entry_pairs(), alias@);
                }
                return Some(i);
            }
            i += 1;
        }
        proof {
            lemma_dom(self.entry_pairs(), alias@);
            if self.alias_map().contains_key(alias@) {
                let j = choose|j: int|
                    0 <= j < self.entry_pairs().len() && self.entry_pairs()[j].0 == alias@;
                assert(self.entries@[j].alias@ == alias@);
                assert(false);
            }
        }
        None
    }

    /// Append a fresh, empty entry for an alias that has none yet, and
    /// return its position.
    fn push_entry(&mut self, alias: &String) -> (i: usize)
        requires
            old(self).wf(),
            !old(self).alias_map().contains_key(alias@),
        ensures
            final(self).wf(),
            final(self).entries@.len() == old(self).entries@.len() + 1,
            i == old(self).entries@.len(),
            final(self).entries@[i as int].alias@ == alias@,
            final(self).entries@[i as int].store@ == Map::<Seq<char>, Seq<char>>::empty(),
            final(self).entry_pairs() == old(self).entry_pairs().push(
                (alias@, Map::<Seq<char>, Seq<char>>::empty()),
            ),
            final(self).alias_map() == old(self).alias_map().insert(
                alias@,
                Map::<Seq<char>, Seq<char>>::empty(),
            ),
            forall|a: Seq<char>| final(self).store_of(a) == old(self).store_of(a),
    {
        broadcast use lemma_store_entry_pairs_len, lemma_store_entry_pairs_index;

        let i = self.entries.len();
        self.entries.push(StoreEntry { alias: alias.clone(), store: Store::new() });
        proof {
            assert(self.entry_pairs() =~= old(self).entry_pairs().push(
                (alias@, Map::<Seq<char>, Seq<char>>::empty()),
            ));
            lemma_dom(old(self).entry_pairs(), alias@);
            assert forall|p: int|
                0 <= p < old(self).entry_pairs().len() implies old(self).entry_pairs()[p].0
                != alias@ by {}
            lemma_distinct_push(
                old(self).entry_pairs(),
                alias@,
                Map::<Seq<char>, Seq<char>>::empty(),
            );
            lemma_push(old(self).entry_pairs(), alias@, Map::<Seq<char>, Seq<char>>::empty());
            assert forall|a: Seq<char>|
                final(self).store_of(a) == old(self).store_of(a) by {
                if a != alias@ {
                } else {
                    assert(final(self).store_of(a) == Map::<Seq<char>, Seq<char>>::empty());
                    assert(old(self).store_of(a) == Map::<Seq<char>, Seq<char>>::empty());
                }
            }
        }
        i
    }

    /// Replace the store of the entry at a position, keeping its alias.
    fn set_store(&mut self, i: usize, store: Store)
        requires
            old(self).wf(),
            0 <= i < old(self).entries@.len(),
            store.wf(),
        ensures
            final(self).wf(),
            final(self).entry_pairs() == old(self).entry_pairs().update(
                i as int,
                (old(self).entries@[i as int].alias@, store@),
            ),
            final(self).alias_map() == old(self).alias_map().insert(
                old(self).entries@[i as int].alias@,
                store@,
            ),
            final(self).store_of(old(self).entries@[i as int].alias@) == store@,
            forall|a: Seq<char>|
                a != old(self).entries@[i as int].alias@ ==> final(self).store_of(a) == old(
                    self,
                ).store_of(a),
    {
        broadcast use lemma_store_entry_pairs_len, lemma_store_entry_pairs_index;

        let ghost k = old(self).entries@[i as int].alias@;
        let entry = self.entries.remove(i);
        self.entries.insert(i, StoreEntry { alias: entry.alias, store });
        proof {
            assert(self.entries@ =~= old(self).entries@.update(
                i as int,
                self.entries@[i as int],
            ));
            assert(self.entries@[i as int].alias@ == k);
            assert(self.entry_pairs() =~= old(self).entry_pairs().update(
                i as int,
                (k, self.entries@[i as int].store@),
            ));
            assert(old(self).entry_pairs()[i as int].0 == k);
            lemma_distinct_update(old(self).entry_pairs(), i as int, self.entries@[i as int].store@);
            lemma_update(old(self).entry_pairs(), i as int, self.entries@[i as int].store@);
            lemma_index(self.entry_pairs(), i as int);
            assert forall|a: Seq<char>|
                a != k implies final(self).store_of(a) == old(self).store_of(a) by {}
        }
    }

    /// Take the store of the entry at a position out, leaving an empty one
    /// behind; the caller puts a store back with `set_store`.
    fn take_store(&mut self, i: usize) -> (r: Store)
        requires
            old(self).wf(),
            0 <= i < old(self).entries@.len(),
        ensures
            final(self).wf(),
            r.wf(),
            r@ == old(self).entries@[i as int].store@,
            r.rows_view() == old(self).entries@[i as int].store.rows_view(),
            final(self).entries@.len() == old(self).entries@.len(),
            final(self).entries@[i as int].alias@ == old(self).entries@[i as int].alias@,
            forall|j: int|
                0 <= j < old(self).entries@.len() && j != i ==> final(self).entries@[j] == old(
                    self,
                ).entries@[j],
            final(self).entry_pairs() == old(self).entry_pairs().update(
                i as int,
                (old(self).entries@[i as int].alias@, Map::<Seq<char>, Seq<char>>::empty()),
            ),
    {
        broadcast use lemma_store_entry_pairs_len, lemma_store_entry_pairs_index;

        let entry = self.entries.remove(i);
        self.entries.insert(i, StoreEntry { alias: entry.alias, store: Store::new() });
        let r = entry.store;
        proof {
            assert(self.entries@ =~= old(self).entries@.update(
                i as int,
                self.entries@[i as int],
            ));
            assert(self.entry_pairs() =~= old(self).entry_pairs().update(
                i as int,
                (old(self).entries@[i as int].alias@, Map::<Seq<char>, Seq<char>>::empty()),
            ));
            assert(old(self).entry_pairs()[i as int].0 == old(self).entries@[i as int].alias@);
            lemma_distinct_update(
                old(self).entry_pairs(),
                i as int,
                Map::<Seq<char>, Seq<char>>::empty(),
            );
        }
        r
    }

    /// Apply one mutation to the store of the given user, creating the
    /// user's store on first use. Behaves as `Store::apply` on that store
    /// and leaves every other user's store untouched.
    pub fn apply_mutation(&mut self, alias: &String, mutation: &Mutation) -> (r: Result<
        Option<String>,
        Error,
    >)
        requires
            old(self).wf(),
        ensures
            final(self).wf(),
            apply_outcome(
                old(self).store_of(alias@),
                mutation@,
                final(self).store_of(alias@),
                apply_result_view(r),
            ),
            forall|a: Seq<char>|
                a != alias@ ==> final(self).store_of(a) == old(self).store_of(a),
    {
        broadcast use lemma_store_entry_pairs_len, lemma_store_entry_pairs_index;

        let i = match self.entry_index(alias) {
            Some(i) => i,
            None => self.push_entry(alias),
        };
        proof {
            lemma_index(self.entry_pairs(), i as int);
            assert(self.store_of(alias@) == self.entries@[i as int].store@);
        }
        let ghost mid = *self;
        let mut store = self.take_store(i);
        let r = store.apply(mutation);
        self.set_store(i, store);
        proof {
            let post = self.entries@[i as int].store@;
            assert(self.entry_pairs() =~= mid.entry_pairs().update(
                i as int,
                (alias@, post),
            ));
            assert(mid.entry_pairs()[i as int].0 == alias@);
            lemma_update(mid.entry_pairs(), i as int, post);
            assert(self.alias_map() == mid.alias_map().insert(alias@, post));
            assert(self.store_of(alias@) == post);
            assert forall|a: Seq<char>|
                a != alias@ implies self.store_of(a) == mid.store_of(a) by {}
        }
        r
    }

    /// A snapshot of one user's credentials; the pairs, not their order, are
    /// the contract.
    pub fn export_all(&self, alias: &String) -> (r: Vec<Credential>)
        requires
            self.wf(),
        ensures
            distinct_keys(credential_pairs(credentials_view(r@))),
            pairs_to_map(credential_pairs(credentials_view(r@))) == self.store_of(alias@),
    {
        broadcast use lemma_store_entry_pairs_len, lemma_store_entry_pairs_index;

        match self.entry_index(alias) {
            Some(i) => {
                proof {
                    lemma_index(self.entry_pairs(), i as int);
                }
                self.entries[i].store.export()
            },
            None => {
                let r: Vec<Credential> = Vec::new();
                proof {
                    assert(credentials_view(r@) =~= Seq::<CredentialView>::empty());
                    assert(credential_pairs(credentials_view(r@)) =~= Seq::<
                        (Seq<char>, Seq<char>),
                    >::empty());
                    assert(pairs_to_map(credential_pairs(credentials_view(r@))) =~= Map::<
                        Seq<char>,
                        Seq<char>,
                    >::empty());
                }
                r
            },
        }
    }

    /// Import a full credential list into what must be an empty store for
    /// this user. Fails with `ExistingUser` if anything is stored already.
    pub fn import_all(&mut self, alias: &String, credentials: &Vec<Credential>) -> (r: Result<
        (),
        Error,
    >)
        requires
            old(self).wf(),
        ensures
            final(self).wf(),
            forall|a: Seq<char>|
                a != alias@ ==> final(self).store_of(a) == old(self).store_of(a),
            old(self).store_of(alias@) != Map::<Seq<char>, Seq<char>>::empty() ==> {
                &&& r matches Err(e) && e@ == ErrorView::ExistingUser(alias@)
                &&& final(self).store_of(alias@) == old(self).store_of(alias@)
            },
            old(self).store_of(alias@) == Map::<Seq<char>, Seq<char>>::empty() && distinct_keys(
                credential_pairs(credentials_view(credentials@)),
            ) ==> {
                &&& r is Ok
                &&& final(self).store_of(alias@) == pairs_to_map(
                    credential_pairs(credentials_view(credentials@)),
                )
            },
            old(self).store_of(alias@) == Map::<Seq<char>, Seq<char>>::empty() && !distinct_keys(
                credential_pairs(credentials_view(credentials@)),
            ) ==> (r matches Err(e) && e@ is Server),
    {
        broadcast use lemma_store_entry_pairs_len, lemma_store_entry_pairs_index;

        let i = match self.entry_index(alias) {
            Some(i) => i,
            None => self.push_entry(alias),
        };
        proof {
            lemma_index(self.entry_pairs(), i as int);
            assert(self.store_of(alias@) == self.entries@[i as int].store@);
            lemma_store_map_empty(self.entries@[i as int].store.rows_view());
        }
        let ghost mid = *self;
        let mut store = self.take_store(i);
        let r = store.import(alias, &credentials);
        proof {
            lemma_store_map_empty(mid.entries@[i as int].store.rows_view());
            lemma_store_map_empty(store.rows_view());
        }
        self.set_store(i, store);
        proof {
            let post = self.entries@[i as int].store@;
            assert(self.entry_pairs() =~= mid.entry_pairs().update(
                i as int,
                (alias@, post),
            ));
            assert(mid.entry_pairs()[i as int].0 == alias@);
            lemma_update(mid.entry_pairs(), i as int, post);
            assert(self.alias_map() == mid.alias_map().insert(alias@, post));
            assert(self.store_of(alias@) == post);
            assert forall|a: Seq<char>|
                a != alias@ implies self.store_of(a) == mid.store_of(a) by {}
        }
        r
    }

    /// Whether nothing at all is stored for this user.
    pub fn is_empty(&self, alias: &String) -> (r: bool)
        requires
            self.wf(),
        ensures
            r == (self.store_of(alias@) == Map::<Seq<char>, Seq<char>>::empty()),
    {
        broadcast use lemma_store_entry_pairs_len, lemma_store_entry_pairs_index;

        match self.entry_index(alias) {
            Some(i) => {
                proof {
                    lemma_index(self.entry_pairs(), i as int);
                }
                self.entries[i].store.is_empty()
            },
            None => true,
        }
    }
}

} // verus!

