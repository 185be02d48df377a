//! The profile service: the five operations, each validated, run
//! against the table, and mapped to a result.

use vstd::prelude::*;
use vstd::string::StringExecFns;

use crate::error::ProfileError;
use crate::item::{
    attr_at, distinct_names, has_string_keys, pairs_view, str_attrs, str_eq, AttrValue, AttrView,
    Item,
};
use crate::models::{CreateProfileRequest, PutProfileRequest};
use crate::store::{
    key_of, lemma_partition_pairs_uid, lemma_rec_at_in_partition, partition_pairs, rec_at, Table,
};

verus! {

/// The visibility values that may be persisted.
pub open spec fn is_valid_visibility(s: Seq<char>) -> bool {
    s == "public"@ || s == "friends"@ || s == "private"@
}

/// True exactly on the three values `public`, `friends` and `private`;
/// any other string, case variants and the empty string included, is
/// refused.
pub fn validate_visibility(visibility: &str) -> (r: bool)
    ensures
        r == is_valid_visibility(visibility@),
{
    str_eq(visibility, "public") || str_eq(visibility, "friends") || str_eq(visibility, "private")
}

/// The response body for a refused visibility value.
pub open spec fn invalid_visibility_note(v: Seq<char>) -> Seq<char> {
    "Invalid visibility: "@ + v + ". This should be public, friends, or private."@
}

fn invalid_visibility_message(v: &str) -> (r: String)
    ensures
        r@ == invalid_visibility_note(v@),
{
    let s = String::from_str("Invalid visibility: ");
    let s = s.concat(v);
    s.concat(". This should be public, friends, or private.")
}

/// Relies on uuid's `Uuid::new_v4` and its `Display` form: a freshly
/// drawn random identifier rendered as the 36-character hyphenated
/// string.  Nothing but the length is assumed: the value depends on the
/// process's randomness.
#[verifier::external_body]
fn fresh_profile_id() -> (r: String)
    ensures
        r@.len() == 36,
{
    uuid::Uuid::new_v4().to_string()
}

/// What create leaves behind: the record under `(u, id)` holds exactly
/// the four submitted fields, and every other key reads as before.
pub open spec fn created_post(
    pre: Seq<Item>,
    post: Seq<Item>,
    u: Seq<char>,
    id: Seq<char>,
    bio: Seq<char>,
    vis: Seq<char>,
) -> bool {
    &&& rec_at(post, u, id) matches Some(it) && {
        &&& attr_at(it.attrs@, "user_id"@) == Some(AttrView::Str(u))
        &&& attr_at(it.attrs@, "profile_id"@) == Some(AttrView::Str(id))
        &&& attr_at(it.attrs@, "bio"@) == Some(AttrView::Str(bio))
        &&& attr_at(it.attrs@, "visibility"@) == Some(AttrView::Str(vis))
        &&& forall|n: Seq<char>|
            n != "user_id"@ && n != "profile_id"@ && n != "bio"@ && n != "visibility"@
                ==> attr_at(it.attrs@, n) is None
    }
    &&& forall|u2: Seq<char>, p2: Seq<char>|
        (u2, p2) != (u, id) ==> rec_at(post, u2, p2) == rec_at(pre, u2, p2)
}

/// Creates a profile: validates the visibility, draws a fresh
/// `profile_id`, and puts the full record unconditionally.  Returns the
/// generated `profile_id`: the key under which the record now stands.
pub fn create_profile(table: &mut Table, request: &CreateProfileRequest) -> (r: Result<
    String,
    ProfileError,
>)
    requires
        old(table).wf(),
    ensures
        final(table).wf(),
        r is Ok <==> is_valid_visibility(request.visibility@),
        match r {
            Ok(id) => created_post(
                old(table)@,
                final(table)@,
                request.user_id@,
                id@,
                request.bio@,
                request.visibility@,
            ),
            Err(e) => final(table)@ == old(table)@ && (e matches ProfileError::Validation(m)
                && m@ == invalid_visibility_note(request.visibility@)),
        },
{
    if !validate_visibility(request.visibility.as_str()) {
        return Err(
            ProfileError::Validation(invalid_visibility_message(request.visibility.as_str())),
        );
    }
    let id = fresh_profile_id();
    let mut item = Item::new();
    proof {
        reveal_strlit("user_id");
        reveal_strlit("profile_id");
        reveal_strlit("bio");
        reveal_strlit("visibility");
        assert("user_id"@.len() == 7);
        assert("profile_id"@.len() == 10);
        assert("bio"@.len() == 3);
        assert("visibility"@.len() == 10);
        assert("profile_id"@[0] == 'p');
        assert("visibility"@[0] == 'v');
        assert("user_id"@ != "profile_id"@);
        assert("user_id"@ != "bio"@);
        assert("user_id"@ != "visibility"@);
        assert("profile_id"@ != "bio"@);
        assert("profile_id"@ != "visibility"@);
        assert("bio"@ != "visibility"@);
    }
    item.set_attr("user_id", AttrValue::Str(request.user_id.clone()));
    proof {
        assert(attr_at(item.attrs@, "user_id"@) == Some(AttrView::Str(request.user_id@)));
    }
    item.set_attr("profile_id", AttrValue::Str(id.clone()));
    proof {
        assert(attr_at(item.attrs@, "user_id"@) == Some(AttrView::Str(request.user_id@)));
        assert(attr_at(item.attrs@, "profile_id"@) == Some(AttrView::Str(id@)));
    }
    item.set_attr("bio", AttrValue::Str(request.bio.clone()));
    proof {
        assert(attr_at(item.attrs@, "user_id"@) == Some(AttrView::Str(request.user_id@)));
        assert(attr_at(item.attrs@, "profile_id"@) == Some(AttrView::Str(id@)));
        assert(attr_at(item.attrs@, "bio"@) == Some(AttrView::Str(request.bio@)));
    }
    item.set_attr("visibility", AttrValue::Str(request.visibility.clone()));
    proof {
        assert(attr_at(item.attrs@, "user_id"@) == Some(AttrView::Str(request.user_id@)));
        assert(attr_at(item.attrs@, "profile_id"@) == Some(AttrView::Str(id@)));
        assert(attr_at(item.attrs@, "bio"@) == Some(AttrView::Str(request.bio@)));
        assert(attr_at(item.attrs@, "visibility"@) == Some(AttrView::Str(request.visibility@)));
        assert(has_string_keys(item.attrs@));
        assert(key_of(item) == (request.user_id@, id@));
    }
    table.put_item(item);
    Ok(id)
}

/// Reads the record under `(user_id, profile_id)` and returns its
/// string-typed attributes only; a missing record is NotFound, never a
/// store-level error.
pub fn get_profile(table: &Table, user_id: &str, profile_id: &str) -> (r: Result<
    Vec<(String, String)>,
    ProfileError,
>)
    requires
        table.wf(),
    ensures
        r is Ok <==> rec_at(table@, user_id@, profile_id@) is Some,
        match r {
            Ok(body) => rec_at(table@, user_id@, profile_id@) matches Some(it) && pairs_view(
                body@,
            ) == str_attrs(it.attrs@),
            Err(e) => e is NotFound,
        },
{
    match table.get_item(user_id, profile_id) {
        Some(it) => Ok(it.project_string_attrs()),
        None => Err(ProfileError::NotFound),
    }
}

/// What update leaves behind: exactly `bio` and `visibility` changed on
/// the addressed record, every other attribute and record untouched.
pub open spec fn updated_post(
    pre: Seq<Item>,
    post: Seq<Item>,
    u: Seq<char>,
    p: Seq<char>,
    bio: Seq<char>,
    vis: Seq<char>,
) -> bool {
    &&& rec_at(pre, u, p) matches Some(it0) && (rec_at(post, u, p) matches Some(it1) && forall|
        n: Seq<char>,
    |
        attr_at(it1.attrs@, n) == (if n == "bio"@ {
            Some(AttrView::Str(bio))
        } else if n == "visibility"@ {
            Some(AttrView::Str(vis))
        } else {
            attr_at(it0.attrs@, n)
        }))
    &&& forall|u2: Seq<char>, p2: Seq<char>|
        (u2, p2) != (u, p) ==> rec_at(post, u2, p2) == rec_at(pre, u2, p2)
}

/// Updates `bio` and `visibility` of an existing record.  The
/// visibility is validated first; then a point get checks existence, so
/// an update never creates a record; only then is the write issued.
pub fn update_profile(
    table: &mut Table,
    user_id: &str,
    profile_id: &str,
    request: &PutProfileRequest,
) -> (r: Result<(), ProfileError>)
    requires
        old(table).wf(),
    ensures
        final(table).wf(),
        r is Ok <==> (is_valid_visibility(request.visibility@) && rec_at(
            old(table)@,
            user_id@,
            profile_id@,
        ) is Some),
        match r {
            Ok(_) => updated_post(
                old(table)@,
                final(table)@,
                user_id@,
                profile_id@,
                request.bio@,
                request.visibility@,
            ),
            Err(e) => final(table)@ == old(table)@ && match e {
                ProfileError::Validation(m) => !is_valid_visibility(request.visibility@) && m@
                    == invalid_visibility_note(request.visibility@),
                ProfileError::NotFound => is_valid_visibility(request.visibility@) && rec_at(
                    old(table)@,
                    user_id@,
                    profile_id@,
                ) is None,
                ProfileError::Store(_) => false,
            },
        },
{
    if !validate_visibility(request.visibility.as_str()) {
        return Err(
            ProfileError::Validation(invalid_visibility_message(request.visibility.as_str())),
        );
    }
    let found = match table.get_item(user_id, profile_id) {
        Some(_) => true,
        None => false,
    };
    if !found {
        return Err(ProfileError::NotFound);
    }
    let mut assigns: Vec<(String, AttrValue)> = Vec::new();
    assigns.push((String::from_str("bio"), AttrValue::Str(request.bio.clone())));
    assigns.push((String::from_str("visibility"), AttrValue::Str(request.visibility.clone())));
    proof {
        reveal_strlit("bio");
        reveal_strlit("visibility");
        reveal_strlit("user_id");
        reveal_strlit("profile_id");
        assert("user_id"@.len() == 7);
        assert("profile_id"@.len() == 10);
        assert("bio"@.len() == 3);
        assert("visibility"@.len() == 10);
        assert("profile_id"@[0] == 'p');
        assert("visibility"@[0] == 'v');
        assert("bio"@ != "visibility"@);
        assert("user_id"@ != "bio"@ && "user_id"@ != "visibility"@);
        assert("profile_id"@ != "bio"@ && "profile_id"@ != "visibility"@);
        assert(assigns@.len() == 2);
        assert(assigns@[0].0@ == "bio"@);
        assert(assigns@[1].0@ == "visibility"@);
        assert(assigns@[0].1@ == AttrView::Str(request.bio@));
        assert(assigns@[1].1@ == AttrView::Str(request.visibility@));
        assert forall|n: Seq<char>|
            attr_at(assigns@, n) == (if n == "bio"@ {
                Some(AttrView::Str(request.bio@))
            } else if n == "visibility"@ {
                Some(AttrView::Str(request.visibility@))
            } else {
                None::<AttrView>
            }) by {
            assert(assigns@.skip(1)[0] == assigns@[1]);
            assert(assigns@.skip(1).skip(1) =~= Seq::<(String, AttrValue)>::empty());
            assert(attr_at(assigns@.skip(1).skip(1), n) is None);
            assert(attr_at(assigns@.skip(1), n) == (if n == "visibility"@ {
                Some(AttrView::Str(request.visibility@))
            } else {
                None::<AttrView>
            }));
        }
        assert(distinct_names(assigns@));
        assert(attr_at(assigns@, "user_id"@) is None);
        assert(attr_at(assigns@, "profile_id"@) is None);
    }
    table.update_item(user_id, profile_id, assigns);
    Ok(())
}

/// Deletes the record under `(user_id, profile_id)` unconditionally:
/// deleting an absent key succeeds all the same.
pub fn delete_profile(table: &mut Table, user_id: &str, profile_id: &str) -> (r: Result<
    (),
    ProfileError,
>)
    requires
        old(table).wf(),
    ensures
        final(table).wf(),
        r is Ok,
        forall|u2: Seq<char>, p2: Seq<char>|
            rec_at(final(table)@, u2, p2) == (if (u2, p2) == (user_id@, profile_id@) {
                None::<Item>
            } else {
                rec_at(old(table)@, u2, p2)
            }),
{
    table.delete_item(user_id, profile_id);
    Ok(())
}

/// Deletes every record in `user_id`'s partition: one range query, then
/// one point delete per returned key, in query order.  Afterwards the
/// partition is empty and every other user's records read as before.
pub fn delete_all_profiles(table: &mut Table, user_id: &str) -> (r: Result<(), ProfileError>)
    requires
        old(table).wf(),
    ensures
        final(table).wf(),
        r is Ok,
        forall|p2: Seq<char>| rec_at(final(table)@, user_id@, p2) is None,
        forall|u2: Seq<char>, p2: Seq<char>|
            u2 != user_id@ ==> rec_at(final(table)@, u2, p2) == rec_at(old(table)@, u2, p2),
{
    let ghost orig = table@;
    let keys = table.query_keys(user_id);
    let ghost gkeys = keys@;
    let mut i: usize = 0;
    while i < keys.len()
        invariant
            i <= gkeys.len(),
            keys@ == gkeys,
            table.wf(),
            pairs_view(gkeys) == partition_pairs(orig, user_id@),
            forall|u2: Seq<char>, p2: Seq<char>|
                rec_at(table@, u2, p2) == (if u2 == user_id@ && (exists|j: int|
                    0 <= j < i && gkeys[j].1@ == p2) {
                    None::<Item>
                } else {
                    rec_at(orig, u2, p2)
                }),
        decreases gkeys.len() - i,
    {
        let ghost prev = table@;
        proof {
            assert(pairs_view(gkeys)[i as int] == (gkeys[i as int].0@, gkeys[i as int].1@));
            lemma_partition_pairs_uid(orig, user_id@, i as int);
            assert(gkeys[i as int].0@ == user_id@);
        }
        table.delete_item(keys[i].0.as_str(), keys[i].1.as_str());
        proof {
            assert forall|u2: Seq<char>, p2: Seq<char>|
                rec_at(table@, u2, p2) == (if u2 == user_id@ && (exists|j: int|
                    0 <= j < i + 1 && gkeys[j].1@ == p2) {
                    None::<Item>
                } else {
                    rec_at(orig, u2, p2)
                }) by {
                if u2 == user_id@ && (exists|j: int| 0 <= j < i + 1 && gkeys[j].1@ == p2) {
                    let j = choose|j: int| 0 <= j < i + 1 && gkeys[j].1@ == p2;
                    if j < i {
                        assert(rec_at(prev, u2, p2) is None);
                        if (u2, p2) != (user_id@, gkeys[i as int].1@) {
                            assert(rec_at(table@, u2, p2) == rec_at(prev, u2, p2));
                        }
                    } else {
                        assert(p2 == gkeys[i as int].1@);
                    }
                } else {
                    if (u2, p2) == (user_id@, gkeys[i as int].1@) {
                        assert(gkeys[i as int].1@ == p2);
                        assert(false);
                    }
                    assert(rec_at(table@, u2, p2) == rec_at(prev, u2, p2));
                    assert(rec_at(prev, u2, p2) == rec_at(orig, u2, p2));
                }
            }
        }
        i = i + 1;
    }
    proof {
        assert forall|p2: Seq<char>| rec_at(table@, user_id@, p2) is None by {
            if rec_at(orig, user_id@, p2) is Some {
                lemma_rec_at_in_partition(orig, user_id@, p2);
                let j = choose|j: int|
                    0 <= j < partition_pairs(orig, user_id@).len() && partition_pairs(
                        orig,
                        user_id@,
                    )[j] == (user_id@, p2);
                assert(pairs_view(gkeys)[j] == (user_id@, p2));
                assert(gkeys[j].1@ == p2);
            } else {
                if !(exists|j: int| 0 <= j < gkeys.len() && gkeys[j].1@ == p2) {
                    assert(rec_at(table@, user_id@, p2) == rec_at(orig, user_id@, p2));
                }
            }
        }
    }
    Ok(())
}

} // verus!
