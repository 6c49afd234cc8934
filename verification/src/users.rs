use vstd::prelude::*;

use crate::assoc::{
    distinct_keys, lemma_distinct_push, lemma_distinct_remove, lemma_dom, lemma_index, lemma_push,
    lemma_remove, pairs_to_map,
};
use crate::error::{Error, ErrorView};

verus! {

/// One account record: the user's resolved alias together with the salt and
/// password hash the clients store for bootstrapping.
pub struct UserRow {
    pub alias: String,
    pub salt: String,
    pub hash: String,
}

/// The alias-to-record pairs denoted by a sequence of rows.
pub closed spec fn user_row_pairs(rows: Seq<UserRow>) -> Seq<(Seq<char>, (Seq<char>, Seq<char>))> {
    rows.map_values(|r: UserRow| (r.alias@, (r.salt@, r.hash@)))
}

pub broadcast proof fn lemma_user_row_pairs_len(rows: Seq<UserRow>)
    ensures
        (#[trigger] user_row_pairs(rows)).len() == rows.len(),
{
}

pub broadcast proof fn lemma_user_row_pairs_index(rows: Seq<UserRow>, j: int)
    requires
        0 <= j < rows.len(),
    ensures
        #[trigger] user_row_pairs(rows)[j] == (rows[j].alias@, (rows[j].salt@, rows[j].hash@)),
{
}

/// The account table: salt and hash per alias, with distinct aliases.
pub struct UserDb {
    rows: Vec<UserRow>,
}

impl View for UserDb {
    type V = Map<Seq<char>, (Seq<char>, Seq<char>)>;

    closed spec fn view(&self) -> Map<Seq<char>, (Seq<char>, Seq<char>)> {
        pairs_to_map(user_row_pairs(self.rows@))
    }
}

impl UserDb {
    /// Well-formed: all aliases are distinct.
    pub closed spec fn wf(&self) -> bool {
        distinct_keys(user_row_pairs(self.rows@))
    }

    /// An empty account table.
    pub fn new() -> (r: UserDb)
        ensures
            r.wf(),
            r@ == Map::<Seq<char>, (Seq<char>, Seq<char>)>::empty(),
    {
        let r = UserDb { rows: Vec::new() };
        proof {
            assert(user_row_pairs(r.rows@) =~= Seq::<(Seq<char>, (Seq<char>, Seq<char>))>::empty());
            assert(r@ =~= Map::<Seq<char>, (Seq<char>, Seq<char>)>::empty());
        }
        r
    }

    /// The position of the record for an alias, if there is one.
    #[verifier::loop_isolation(false)]
    fn row_index(&self, alias: &String) -> (r: Option<usize>)
        ensures
            match r {
                Some(i) => 0 <= i < self.rows@.len() && self.rows@[i as int].alias@ == alias@
                    && self@.contains_key(alias@),
                None => !self@.contains_key(alias@),
            },
    {
        broadcast use lemma_user_row_pairs_len, lemma_user_row_pairs_index;

        let mut i: usize = 0;
        while i < self.rows.len()
            invariant
                i <= self.rows.len(),
                forall|j: int| 0 <= j < i ==> self.rows@[j].alias@ != alias@,
            decreases self.rows.len() - i,
        {
            if self.rows[i].alias == *alias {
                proof {
                    assert(user_row_pairs(self.rows@)[i as int].0 == alias@);
                    lemma_dom(user_row_pairs(self.rows@), alias@);
                }
                return Some(i);
            }
            i += 1;
        }
        proof {
            lemma_dom(user_row_pairs(self.rows@), alias@);
            if self@.contains_key(alias@) {
                let j = choose|j: int|
                    0 <= j < user_row_pairs(self.rows@).len() && user_row_pairs(self.rows@)[j].0
                        == alias@;
                assert(self.rows@[j].alias@ == alias@);
                assert(false);
            }
        }
        None
    }

    /// Record salt and hash for a new alias; an alias that already has a
    /// record is refused.
    pub fn add_user(&mut self, alias: &String, salt: &String, hash: &String) -> (r: Result<
        (),
        Error,
    >)
        requires
            old(self).wf(),
        ensures
            final(self).wf(),
            !old(self)@.contains_key(alias@) ==> {
                &&& r is Ok
                &&& final(self)@ == old(self)@.insert(alias@, (salt@, hash@))
            },
            old(self)@.contains_key(alias@) ==> {
                &&& r matches Err(e) && e@ is Server
                &&& final(self)@ == old(self)@
            },
    {
        broadcast use lemma_user_row_pairs_len, lemma_user_row_pairs_index;

        match self.row_index(alias) {
            Some(_) => Err(Error::Server("User record already present".to_owned())),
            None => {
                self.rows.push(
                    UserRow { alias: alias.clone(), salt: salt.clone(), hash: hash.clone() },
                );
                proof {
                    assert(user_row_pairs(self.rows@) =~= user_row_pairs(old(self).rows@).push(
                        (alias@, (salt@, hash@)),
                    ));
                    lemma_dom(user_row_pairs(old(self).rows@), alias@);
                    assert forall|p: int|
                        0 <= p < user_row_pairs(old(self).rows@).len() implies user_row_pairs(
                        old(self).rows@,
                    )[p].0 != alias@ by {}
                    lemma_distinct_push(user_row_pairs(old(self).rows@), alias@, (salt@, hash@));
                    lemma_push(user_row_pairs(old(self).rows@), alias@, (salt@, hash@));
                }
                Ok(())
            },
        }
    }

    /// The salt and hash recorded for an alias; an alias without a record is
    /// not initialized.
    pub fn get_user(&self, alias: &String) -> (r: Result<(String, String), Error>)
        requires
            self.wf(),
        ensures
            self@.contains_key(alias@) ==> (r matches Ok(u) && (u.0@, u.1@) == self@[alias@]),
            !self@.contains_key(alias@) ==> (r matches Err(e) && e@
                == ErrorView::UninitializedUser(alias@)),
    {
        broadcast use lemma_user_row_pairs_len, lemma_user_row_pairs_index;

        match self.row_index(alias) {
            Some(i) => {
                proof {
                    lemma_index(user_row_pairs(self.rows@), i as int);
                }
                Ok((self.rows[i].salt.clone(), self.rows[i].hash.clone()))
            },
            None => Err(Error::UninitializedUser(alias.clone())),
        }
    }

    /// Drop the record for an alias; dropping an absent record is a no-op.
    pub fn remove_salt(&mut self, alias: &String) -> (r: Result<(), Error>)
        requires
            old(self).wf(),
        ensures
            final(self).wf(),
            r is Ok,
            final(self)@ == old(self)@.remove(alias@),
    {
        broadcast use lemma_user_row_pairs_len, lemma_user_row_pairs_index;

        match self.row_index(alias) {
            Some(i) => {
                self.rows.remove(i);
                proof {
                    assert(user_row_pairs(self.rows@) =~= user_row_pairs(old(self).rows@).remove(
                        i as int,
                    ));
                    assert(user_row_pairs(old(self).rows@)[i as int].0 == alias@);
                    lemma_distinct_remove(user_row_pairs(old(self).rows@), i as int);
                    lemma_remove(user_row_pairs(old(self).rows@), i as int);
                }
                Ok(())
            },
            None => {
                proof {
                    assert(self@ =~= old(self)@.remove(alias@));
                }
                Ok(())
            },
        }
    }
}

} // verus!
