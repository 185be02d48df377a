//! Laws that relate several operations, proved from their contracts.

use vstd::prelude::*;

use crate::item::{lemma_str_attr_projected, str_attrs, Item};
use crate::service::{created_post, updated_post};
use crate::store::rec_at;

verus! {

/// A record just created is retrievable: after a create that reported
/// the key `(u, id)`, a get of that key finds a record whose string
/// projection carries the submitted bio and visibility exactly.
pub proof fn lemma_create_then_get(
    pre: Seq<Item>,
    post: Seq<Item>,
    u: Seq<char>,
    id: Seq<char>,
    bio: Seq<char>,
    vis: Seq<char>,
)
    requires
        created_post(pre, post, u, id, bio, vis),
    ensures
        rec_at(post, u, id) matches Some(it) && str_attrs(it.attrs@).contains(("bio"@, bio))
            && str_attrs(it.attrs@).contains(("visibility"@, vis)),
{
    let it = choose|it: Item| rec_at(post, u, id) == Some(it);
    lemma_str_attr_projected(it.attrs@, "bio"@, bio);
    lemma_str_attr_projected(it.attrs@, "visibility"@, vis);
}

/// A get after an update reflects the new values: the record under the
/// updated key projects the fresh bio and visibility.
pub proof fn lemma_update_then_get(
    pre: Seq<Item>,
    post: Seq<Item>,
    u: Seq<char>,
    p: Seq<char>,
    bio: Seq<char>,
    vis: Seq<char>,
)
    requires
        updated_post(pre, post, u, p, bio, vis),
    ensures
        rec_at(post, u, p) matches Some(it) && str_attrs(it.attrs@).contains(("bio"@, bio))
            && str_attrs(it.attrs@).contains(("visibility"@, vis)),
{
    let it = choose|it: Item| rec_at(post, u, p) == Some(it);
    reveal_strlit("bio");
    reveal_strlit("visibility");
    assert("bio"@.len() == 3);
    assert("visibility"@.len() == 10);
    lemma_str_attr_projected(it.attrs@, "bio"@, bio);
    lemma_str_attr_projected(it.attrs@, "visibility"@, vis);
}

/// The point delete is idempotent: a second delete of the same key
/// changes nothing, and between the two the key already reads as
/// absent.
pub proof fn lemma_delete_idempotent(
    t0: Seq<Item>,
    t1: Seq<Item>,
    t2: Seq<Item>,
    u: Seq<char>,
    p: Seq<char>,
)
    requires
        forall|u2: Seq<char>, p2: Seq<char>|
            rec_at(t1, u2, p2) == (if (u2, p2) == (u, p) {
                None::<Item>
            } else {
                rec_at(t0, u2, p2)
            }),
        forall|u2: Seq<char>, p2: Seq<char>|
            rec_at(t2, u2, p2) == (if (u2, p2) == (u, p) {
                None::<Item>
            } else {
                rec_at(t1, u2, p2)
            }),
    ensures
        rec_at(t1, u, p) is None,
        forall|u2: Seq<char>, p2: Seq<char>| rec_at(t2, u2, p2) == rec_at(t1, u2, p2),
{
    assert forall|u2: Seq<char>, p2: Seq<char>| rec_at(t2, u2, p2) == rec_at(t1, u2, p2) by {
        if (u2, p2) == (u, p) {
            assert(rec_at(t1, u2, p2) is None);
        }
    }
}

} // verus!
