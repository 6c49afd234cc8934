use vstd::prelude::*;

verus! {

/// A single stored credential: an opaque identifier and an opaque
/// (client-side encrypted) value. The server never interprets `value`.
#[derive(Debug)]
pub struct Credential {
    pub id: String,
    pub value: String,
}

/// Mathematical model of a credential: both fields as character sequences.
pub struct CredentialView {
    pub id: Seq<char>,
    pub value: Seq<char>,
}

impl View for Credential {
    type V = CredentialView;

    open spec fn view(&self) -> CredentialView {
        CredentialView { id: self.id@, value: self.value@ }
    }
}

impl Clone for Credential {
    fn clone(&self) -> (res: Self)
        ensures
            res == *self,
    {
        Credential { id: self.id.clone(), value: self.value.clone() }
    }
}

impl PartialEq for Credential {
    fn eq(&self, other: &Self) -> (r: bool) {
        self.id == other.id && self.value == other.value
    }
}

impl vstd::std_specs::cmp::PartialEqSpecImpl for Credential {
    open spec fn obeys_eq_spec() -> bool {
        true
    }

    open spec fn eq_spec(&self, other: &Self) -> bool {
        self@ == other@
    }
}

/// One requested change to a user's credential store. `Delete` matches by id
/// alone; the value it carries is ignored.
#[derive(Debug)]
pub enum Mutation {
    Add { credential: Credential },
    Delete { credential: Credential },
    Modify { credential: Credential },
}

/// Mathematical model of a mutation.
pub enum MutationView {
    Add { credential: CredentialView },
    Delete { credential: CredentialView },
    Modify { credential: CredentialView },
}

impl MutationView {
    /// The credential id this mutation touches.
    pub open spec fn key(self) -> Seq<char> {
        match self {
            MutationView::Add { credential } => credential.id,
            MutationView::Delete { credential } => credential.id,
            MutationView::Modify { credential } => credential.id,
        }
    }

    /// The credential carried by this mutation.
    pub open spec fn credential(self) -> CredentialView {
        match self {
            MutationView::Add { credential } => credential,
            MutationView::Delete { credential } => credential,
            MutationView::Modify { credential } => credential,
        }
    }
}

impl View for Mutation {
    type V = MutationView;

    open spec fn view(&self) -> MutationView {
        match self {
            Mutation::Add { credential } => MutationView::Add { credential: credential@ },
            Mutation::Delete { credential } => MutationView::Delete { credential: credential@ },
            Mutation::Modify { credential } => MutationView::Modify { credential: credential@ },
        }
    }
}

impl Mutation {
    /// The credential id this mutation touches.
    pub fn key(&self) -> (r: &String)
        ensures
            r@ == self@.key(),
    {
        match self {
            Mutation::Add { credential } => &credential.id,
            Mutation::Delete { credential } => &credential.id,
            Mutation::Modify { credential } => &credential.id,
        }
    }
}

impl Clone for Mutation {
    fn clone(&self) -> (res: Self)
        ensures
            res == *self,
    {
        match self {
            Mutation::Add { credential } => Mutation::Add { credential: credential.clone() },
            Mutation::Delete { credential } => Mutation::Delete { credential: credential.clone() },
            Mutation::Modify { credential } => Mutation::Modify { credential: credential.clone() },
        }
    }
}

impl PartialEq for Mutation {
    fn eq(&self, other: &Self) -> (r: bool) {
        match (self, other) {
            (Mutation::Add { credential: a }, Mutation::Add { credential: b }) => a == b,
            (Mutation::Delete { credential: a }, Mutation::Delete { credential: b }) => a == b,
            (Mutation::Modify { credential: a }, Mutation::Modify { credential: b }) => a == b,
            _ => false,
        }
    }
}

impl vstd::std_specs::cmp::PartialEqSpecImpl for Mutation {
    open spec fn obeys_eq_spec() -> bool {
        true
    }

    open spec fn eq_spec(&self, other: &Self) -> bool {
        self@ == other@
    }
}

/// The wire-side twin of `Mutation`: the shape in which a client submits and
/// receives mutations. It carries exactly the same data.
#[derive(Debug)]
pub enum ClientMutation {
    Add { credential: Credential },
    Delete { credential: Credential },
    Modify { credential: Credential },
}

impl View for ClientMutation {
    type V = MutationView;

    open spec fn view(&self) -> MutationView {
        match self {
            ClientMutation::Add { credential } => MutationView::Add { credential: credential@ },
            ClientMutation::Delete { credential } => MutationView::Delete {
                credential: credential@,
            },
            ClientMutation::Modify { credential } => MutationView::Modify {
                credential: credential@,
            },
        }
    }
}

impl From<Mutation> for ClientMutation {
    fn from(m: Mutation) -> (r: Self) {
        match m {
            Mutation::Add { credential } => Self::Add { credential },
            Mutation::Delete { credential } => Self::Delete { credential },
            Mutation::Modify { credential } => Self::Modify { credential },
        }
    }
}

impl vstd::std_specs::convert::FromSpecImpl<Mutation> for ClientMutation {
    open spec fn obeys_from_spec() -> bool {
        true
    }

    open spec fn from_spec(m: Mutation) -> Self {
        match m {
            Mutation::Add { credential } => ClientMutation::Add { credential },
            Mutation::Delete { credential } => ClientMutation::Delete { credential },
            Mutation::Modify { credential } => ClientMutation::Modify { credential },
        }
    }
}

impl From<ClientMutation> for Mutation {
    fn from(m: ClientMutation) -> (r: Self) {
        match m {
            ClientMutation::Add { credential } => Self::Add { credential },
            ClientMutation::Delete { credential } => Self::Delete { credential },
            ClientMutation::Modify { credential } => Self::Modify { credential },
        }
    }
}

impl vstd::std_specs::convert::FromSpecImpl<ClientMutation> for Mutation {
    open spec fn obeys_from_spec() -> bool {
        true
    }

    open spec fn from_spec(m: ClientMutation) -> Self {
        match m {
            ClientMutation::Add { credential } => Mutation::Add { credential },
            ClientMutation::Delete { credential } => Mutation::Delete { credential },
            ClientMutation::Modify { credential } => Mutation::Modify { credential },
        }
    }
}

/// The views of a sequence of mutations.
pub open spec fn mutations_view(ms: Seq<Mutation>) -> Seq<MutationView> {
    ms.map_values(|m: Mutation| m@)
}

pub broadcast proof fn lemma_mutations_view_len(ms: Seq<Mutation>)
    ensures
        (#[trigger] mutations_view(ms)).len() == ms.len(),
{
}

pub broadcast proof fn lemma_mutations_view_index(ms: Seq<Mutation>, j: int)
    requires
        0 <= j < ms.len(),
    ensures
        #[trigger] mutations_view(ms)[j] == ms[j]@,
{
}

/// Append a copy of every mutation in `src` to `dst`.
#[verifier::loop_isolation(false)]
pub fn append_mutations(dst: &mut Vec<Mutation>, src: &Vec<Mutation>)
    ensures
        mutations_view(final(dst)@) == mutations_view(old(dst)@) + mutations_view(src@),
{
    broadcast use lemma_mutations_view_len, lemma_mutations_view_index;
    let mut i: usize = 0;
    while i < src.len()
        invariant
            i <= src.len(),
            mutations_view(dst@) =~= mutations_view(old(dst)@) + mutations_view(src@).take(
                i as int,
            ),
        decreases src.len() - i,
    {
        let ghost prev = dst@;
        dst.push(src[i].clone());
        proof {
            assert(mutations_view(prev) == mutations_view(old(dst)@) + mutations_view(
                src@,
            ).take(i as int));
            assert(dst@ == prev.push(src@[i as int]));
            assert forall|j: int|
                0 <= j < prev.len() + 1 implies mutations_view(dst@)[j] == (mutations_view(
                old(dst)@,
            ) + mutations_view(src@).take(i + 1))[j] by {
                if j < prev.len() {
                    assert(dst@[j] == prev[j]);
                    assert(mutations_view(prev)[j] == (mutations_view(old(dst)@)
                        + mutations_view(src@).take(i as int))[j]);
                } else {
                    assert(dst@[j] == src@[i as int]);
                }
            }
            assert(mutations_view(dst@) =~= mutations_view(old(dst)@) + mutations_view(
                src@,
            ).take(i + 1));
        }
        i += 1;
    }
    proof {
        assert(mutations_view(src@).take(src@.len() as int) =~= mutations_view(src@));
    }
}

/// A copy of a list of mutations.
pub fn clone_mutations(src: &Vec<Mutation>) -> (r: Vec<Mutation>)
    ensures
        mutations_view(r@) == mutations_view(src@),
{
    let mut r: Vec<Mutation> = Vec::new();
    append_mutations(&mut r, src);
    proof {
        assert(mutations_view(r@) =~= mutations_view(src@));
    }
    r
}

} // verus!
