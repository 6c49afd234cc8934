use vstd::prelude::*;
use vstd::string::StringExecFns;

verus! {

/// What base64 encoding with the standard alphabet returns for a byte
/// sequence. The exact character mapping is not spelled out here; callers
/// only ever use the result as an opaque identifier.
pub uninterp spec fn b64_of(bytes: Seq<u8>) -> Seq<char>;

/// Relies on rand: `rand::rng()` yields the thread-local generator and
/// `Rng::fill_bytes` fills the buffer with random bytes. Nothing can be
/// promised about the values beyond the buffer keeping its length.
#[verifier::external_body]
fn random_bytes(bytes: usize) -> (r: Vec<u8>)
    ensures
        r@.len() == bytes,
{
    let mut buf: Vec<u8> = vec![0; bytes];
    rand::Rng::fill_bytes(&mut rand::rng(), &mut buf);
    buf
}

/// Relies on base64: the standard-alphabet `Engine::encode`, whose result is
/// a function of the input bytes alone; with padding, encoding n bytes
/// yields 4 * ceil(n / 3) characters.
#[verifier::external_body]
fn b64_encode(bytes: &Vec<u8>) -> (r: String)
    ensures
        r@ == b64_of(bytes@),
        r@.len() == ((bytes@.len() + 2) / 3) * 4,
{
    base64::Engine::encode(&base64::engine::general_purpose::STANDARD, bytes)
}

/// A collision-resistant random identifier: `bytes` random bytes,
/// base64-encoded. Two calls may (and almost surely do) return different
/// strings, so callers that need a fresh identifier must still check.
pub fn random_b64(bytes: usize) -> (r: String)
    ensures
        r@.len() == ((bytes + 2) / 3) * 4,
{
    let id_array = random_bytes(bytes);
    b64_encode(&id_array)
}

/// An identifier that differs from every one in the list, built by making it
/// longer than each of them. It is the deterministic last resort when
/// repeated random draws keep colliding, which in practice never happens.
#[verifier::loop_isolation(false)]
pub fn distinct_from_all(ids: &Vec<String>) -> (r: String)
    ensures
        forall|j: int| 0 <= j < ids@.len() ==> r@ != #[trigger] ids@[j]@,
        r@.len() >= 1,
{
    let mut fresh = "A".to_owned();
    proof {
        reveal_strlit("A");
    }
    let mut i: usize = 0;
    while i < ids.len()
        invariant
            i <= ids.len(),
            fresh@.len() >= 1,
            forall|j: int| 0 <= j < i ==> fresh@.len() > #[trigger] ids@[j]@.len(),
        decreases ids.len() - i,
    {
        fresh.append(ids[i].as_str());
        i += 1;
    }
    proof {
        assert forall|j: int| 0 <= j < ids@.len() implies fresh@ != #[trigger] ids@[j]@ by {
            assert(fresh@.len() > ids@[j]@.len());
        }
    }
    fresh
}

} // verus!
