//! From a client to the key under which the store holds that client's record.

use vstd::prelude::*;

verus! {

/// What every key of a prediction record begins with.
pub open spec fn key_prefix() -> Seq<char> {
    "predictions:"@
}

/// The key of the record of the client `client_id`: the prefix, then the
/// client id as it came, with nothing escaped or removed.
pub open spec fn key_for(client_id: Seq<char>) -> Seq<char> {
    key_prefix() + client_id
}

/// The key under which the store holds the record of the client `client_id`.
pub fn store_key(client_id: &str) -> (key: String)
    ensures
        key@ == key_for(client_id@),
{
    String::from_str("predictions:").concat(client_id)
}

/// Two clients never share a key: no client reads the record of another.
pub proof fn lemma_key_injective(first: Seq<char>, second: Seq<char>)
    requires
        key_for(first) == key_for(second),
    ensures
        first == second,
{
    let from = key_prefix().len() as int;
    assert(key_for(first).skip(from) =~= first);
    assert(key_for(second).skip(from) =~= second);
}

/// A key is the twelve characters `predictions:` and then the client id.
pub proof fn lemma_key_shape(client_id: Seq<char>)
    ensures
        key_for(client_id).len() == 12 + client_id.len(),
        key_for(client_id).subrange(0, 12) == key_prefix(),
        key_for(client_id).skip(12) == client_id,
        key_prefix() == seq!['p', 'r', 'e', 'd', 'i', 'c', 't', 'i', 'o', 'n', 's', ':'],
{
    reveal_strlit("predictions:");
}

} // verus!
