//! Laws of the record lifecycle, stated over the transition specs that the
//! operations of the store meet.

use crate::deposit::rent_exempt_minimum;
use crate::layout::{
    encode_record, lemma_decode_encode, record_space, utf8_len, RecordView, MAX_BODY_LEN,
    MAX_TITLE_LEN,
};
use crate::store::{
    create_outcome, delete_outcome, lookup, stored_record, update_outcome, valid_account, valid_store,
    BlogError, StoreView,
};
use vstd::prelude::*;

verus! {

/// A record that was just created reads back with exactly the owner, title
/// and body it was created with.
pub proof fn lemma_create_then_read(
    s: StoreView,
    user: Seq<u8>,
    lamports: nat,
    title: Seq<char>,
    body: Seq<char>,
)
    requires
        valid_store(s),
        user.len() == 32,
    ensures
        ({
            let (r, after, _) = create_outcome(s, user, lamports, title, body);
            let rec = RecordView { owner: user, title, body };
            r is Ok ==> r == Ok::<RecordView, BlogError>(rec) && stored_record(after, user, title) == Some(
                rec,
            )
        }),
{
    let rec = RecordView { owner: user, title, body };
    if utf8_len(title) <= MAX_TITLE_LEN && utf8_len(body) <= MAX_BODY_LEN {
        lemma_decode_encode(s.discriminator, rec);
    }
}

/// Creating a second record with the same owner and title fails with
/// `AddressCollision` and leaves the store, and so the first record, as it
/// was.
pub proof fn lemma_create_twice(
    s: StoreView,
    user: Seq<u8>,
    lamports: nat,
    title: Seq<char>,
    body: Seq<char>,
    lamports2: nat,
    body2: Seq<char>,
)
    requires
        valid_store(s),
        utf8_len(body2) <= MAX_BODY_LEN,
    ensures
        ({
            let (r, after, _) = create_outcome(s, user, lamports, title, body);
            r is Ok ==> create_outcome(after, user, lamports2, title, body2) == (
                Err::<RecordView, BlogError>(BlogError::AddressCollision),
                after,
                lamports2,
            )
        }),
{
}

/// An update by anyone but the stored owner fails with `NotOwner` and
/// leaves every stored byte as it was.
pub proof fn lemma_update_by_stranger(
    s: StoreView,
    owner: Seq<u8>,
    user: Seq<u8>,
    lamports: nat,
    title: Seq<char>,
    body: Seq<char>,
)
    requires
        valid_store(s),
        stored_record(s, owner, title) is Some,
        stored_record(s, owner, title)->Some_0.owner != user,
        utf8_len(body) <= MAX_BODY_LEN,
    ensures
        update_outcome(s, owner, user, lamports, title, body) == (
            Err::<RecordView, BlogError>(BlogError::NotOwner),
            s,
            lamports,
        ),
{
}

/// After a successful update the record keeps its owner and title, takes
/// exactly the space that its title and new body call for, and every one of
/// its bytes is written from the new record; its deposit follows that size.
pub proof fn lemma_update_exact_size(
    s: StoreView,
    owner: Seq<u8>,
    user: Seq<u8>,
    lamports: nat,
    title: Seq<char>,
    body: Seq<char>,
)
    requires
        valid_store(s),
    ensures
        ({
            let (r, after, _) = update_outcome(s, owner, user, lamports, title, body);
            r is Ok ==> {
                let rec = r->Ok_0;
                let acc = lookup(after, owner, title)->Some_0.1;
                &&& stored_record(s, owner, title) is Some
                &&& rec.owner == stored_record(s, owner, title)->Some_0.owner
                &&& rec.title == stored_record(s, owner, title)->Some_0.title
                &&& rec.body == body
                &&& lookup(after, owner, title) is Some
                &&& acc.data == encode_record(s.discriminator, rec)
                &&& acc.data.len() == record_space(utf8_len(rec.title), utf8_len(body))
                &&& acc.lamports == rent_exempt_minimum(acc.data.len())
                &&& stored_record(after, owner, title) == Some(rec)
            }
        }),
{
    let (r, after, _) = update_outcome(s, owner, user, lamports, title, body);
    if r is Ok {
        let (a, acc) = lookup(s, owner, title)->Some_0;
        assert(valid_account(s, a, acc));
        let rec = r->Ok_0;
        lemma_decode_encode(s.discriminator, rec);
        crate::layout::lemma_encode_len(s.discriminator, rec);
    }
}

/// Deleting a record and creating one again with the same owner and title
/// succeeds, and the new record holds its new body and nothing of the old.
pub proof fn lemma_delete_then_create(
    s: StoreView,
    owner: Seq<u8>,
    lamports: nat,
    title: Seq<char>,
    body: Seq<char>,
)
    requires
        valid_store(s),
        owner.len() == 32,
        utf8_len(title) <= MAX_TITLE_LEN,
        utf8_len(body) <= MAX_BODY_LEN,
        delete_outcome(s, owner, owner, lamports, title).0 is Ok,
        delete_outcome(s, owner, owner, lamports, title).2 >= rent_exempt_minimum(
            record_space(utf8_len(title), utf8_len(body)),
        ),
    ensures
        ({
            let (_, cleared, refunded) = delete_outcome(s, owner, owner, lamports, title);
            let (r, after, _) = create_outcome(cleared, owner, refunded, title, body);
            let rec = RecordView { owner, title, body };
            &&& r == Ok::<RecordView, BlogError>(rec)
            &&& stored_record(after, owner, title) == Some(rec)
            &&& lookup(after, owner, title)->Some_0.1.data == encode_record(s.discriminator, rec)
        }),
{
    let (_, cleared, refunded) = delete_outcome(s, owner, owner, lamports, title);
    let rec = RecordView { owner, title, body };
    lemma_decode_encode(s.discriminator, rec);
    assert(valid_store(cleared)) by {
        assert forall|a: Seq<u8>| #[trigger] cleared.accounts.contains_key(a) implies valid_account(
            cleared,
            a,
            cleared.accounts[a],
        ) by {
            assert(s.accounts.contains_key(a));
        }
    }
    lemma_create_then_read(cleared, owner, refunded, title, body);
}

/// A delete by anyone but the stored owner fails with `NotOwner`, and the
/// record still reads back as it was.
pub proof fn lemma_delete_by_stranger(
    s: StoreView,
    owner: Seq<u8>,
    user: Seq<u8>,
    lamports: nat,
    title: Seq<char>,
)
    requires
        valid_store(s),
        stored_record(s, owner, title) is Some,
        stored_record(s, owner, title)->Some_0.owner != user,
    ensures
        ({
            let (r, after, left) = delete_outcome(s, owner, user, lamports, title);
            &&& r == Err::<(), BlogError>(BlogError::NotOwner)
            &&& after == s
            &&& left == lamports
            &&& stored_record(after, owner, title) == stored_record(s, owner, title)
        }),
{
}

} // verus!
