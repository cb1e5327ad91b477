//! The record store: create, update and delete of owner-authenticated
//! records, each at its derived address, sized exactly and funded by a
//! deposit that follows its size.

use crate::address::{derive_record_address, record_address};
use crate::deposit::{minimum_balance, rent_exempt_minimum};
use crate::layout::{
    bytes_equal, copy_range, decode_record, deserialize_record, encode_record, lemma_decode_encode,
    serialize_record, space_of, utf8_len, within_limits, BlogAccount, RecordView, MAX_BODY_LEN,
    MAX_RECORD_SPACE, MAX_TITLE_LEN,
};
use vstd::prelude::*;

verus! {

/// Why an operation on the store failed. A failed operation changes nothing.
#[derive(Debug, Clone, Copy, PartialEq, Eq, Structural)]
pub enum BlogError {
    /// A record already lives at the address, or no address can be derived.
    AddressCollision,
    /// No record lives at the address.
    NotFound,
    /// The signer is not the record's owner.
    NotOwner,
    /// The title or the body is longer than its bound.
    SizeLimitExceeded,
    /// The signer cannot fund the deposit that the new size calls for.
    AllocationFailure,
    /// A concurrent operation on the same address was ordered first; the
    /// ledger that orders operations reports it, the store never does.
    Conflict,
}

/// An account of the store: the record's bytes and the lamports it holds.
pub struct StoredAccount {
    pub address: [u8; 32],
    pub bump: u8,
    pub lamports: u64,
    pub data: Vec<u8>,
}

/// The mathematical value of a [`StoredAccount`], without its address.
pub struct AccountState {
    pub bump: u8,
    pub lamports: nat,
    pub data: Seq<u8>,
}

impl View for StoredAccount {
    type V = AccountState;

    open spec fn view(&self) -> AccountState {
        AccountState { bump: self.bump, lamports: self.lamports as nat, data: self.data@ }
    }
}

/// The mathematical value of a [`RecordStore`]: its accounts by address.
pub struct StoreView {
    pub program_id: Seq<u8>,
    pub discriminator: Seq<u8>,
    pub accounts: Map<Seq<u8>, AccountState>,
}

/// The accounts of a `create_blog` call.
pub struct CreateBlogPost {
    /// The signer, who becomes the owner and pays the deposit.
    pub user: [u8; 32],
    /// The signer's lamports.
    pub user_lamports: u64,
}

/// The accounts of an `update_blog` call.
pub struct UpdateBlogPost {
    /// The owner whose record is addressed.
    pub owner: [u8; 32],
    /// The signer, who pays for growth and receives what shrinking frees.
    pub user: [u8; 32],
    /// The signer's lamports.
    pub user_lamports: u64,
}

/// The accounts of a `delete_blog` call.
pub struct Delete {
    /// The owner whose record is addressed.
    pub owner: [u8; 32],
    /// The signer, who receives the deposit back.
    pub user: [u8; 32],
    /// The signer's lamports.
    pub user_lamports: u64,
}

/// An account that the store may hold at `addr`: a record within its bounds
/// whose own owner and title derive `addr`, funded exactly for its size.
pub open spec fn valid_account(s: StoreView, addr: Seq<u8>, acc: AccountState) -> bool {
    match decode_record(s.discriminator, acc.data) {
        Some(r) => {
            &&& within_limits(r)
            &&& acc.data == encode_record(s.discriminator, r)
            &&& record_address(s.program_id, r.owner, r.title) == Some((addr, acc.bump))
            &&& acc.lamports == rent_exempt_minimum(acc.data.len())
        },
        None => false,
    }
}

/// A store whose every account is valid.
pub open spec fn valid_store(s: StoreView) -> bool {
    &&& s.program_id.len() == 32
    &&& s.discriminator.len() == 8
    &&& forall|a: Seq<u8>| #[trigger] s.accounts.contains_key(a) ==> valid_account(s, a, s.accounts[a])
}

/// The address and account of the record of `owner` titled `title`, if one lives.
pub open spec fn lookup(s: StoreView, owner: Seq<u8>, title: Seq<char>) -> Option<(Seq<u8>, AccountState)> {
    match record_address(s.program_id, owner, title) {
        Some((a, _)) => if s.accounts.contains_key(a) {
            Some((a, s.accounts[a]))
        } else {
            None
        },
        None => None,
    }
}

/// The record of `owner` titled `title`, as read from its stored bytes.
pub open spec fn stored_record(s: StoreView, owner: Seq<u8>, title: Seq<char>) -> Option<RecordView> {
    match lookup(s, owner, title) {
        Some((_, acc)) => decode_record(s.discriminator, acc.data),
        None => None,
    }
}

/// `s` with `acc` stored at `addr`.
pub open spec fn with_account(s: StoreView, addr: Seq<u8>, acc: AccountState) -> StoreView {
    StoreView {
        program_id: s.program_id,
        discriminator: s.discriminator,
        accounts: s.accounts.insert(addr, acc),
    }
}

/// `s` without an account at `addr`.
pub open spec fn without_account(s: StoreView, addr: Seq<u8>) -> StoreView {
    StoreView {
        program_id: s.program_id,
        discriminator: s.discriminator,
        accounts: s.accounts.remove(addr),
    }
}

/// The account that stores `r` at a bump of `bump`.
pub open spec fn account_for(s: StoreView, bump: u8, r: RecordView) -> AccountState {
    AccountState {
        bump,
        lamports: rent_exempt_minimum(space_of(r)),
        data: encode_record(s.discriminator, r),
    }
}

/// What `create_blog` does: the result, the store after, and the signer's
/// lamports after.
pub open spec fn create_outcome(
    s: StoreView,
    user: Seq<u8>,
    lamports: nat,
    title: Seq<char>,
    body: Seq<char>,
) -> (Result<RecordView, BlogError>, StoreView, nat) {
    let r = RecordView { owner: user, title, body };
    let need = rent_exempt_minimum(space_of(r));
    if utf8_len(title) > MAX_TITLE_LEN || utf8_len(body) > MAX_BODY_LEN {
        (Err(BlogError::SizeLimitExceeded), s, lamports)
    } else {
        match record_address(s.program_id, user, title) {
            None => (Err(BlogError::AddressCollision), s, lamports),
            Some((a, bump)) => if s.accounts.contains_key(a) {
                (Err(BlogError::AddressCollision), s, lamports)
            } else if lamports < need {
                (Err(BlogError::AllocationFailure), s, lamports)
            } else {
                (Ok(r), with_account(s, a, account_for(s, bump, r)), (lamports - need) as nat)
            },
        }
    }
}

/// What `update_blog` does: the result, the store after, and the signer's
/// lamports after.
pub open spec fn update_outcome(
    s: StoreView,
    owner: Seq<u8>,
    user: Seq<u8>,
    lamports: nat,
    title: Seq<char>,
    body: Seq<char>,
) -> (Result<RecordView, BlogError>, StoreView, nat) {
    if utf8_len(body) > MAX_BODY_LEN {
        (Err(BlogError::SizeLimitExceeded), s, lamports)
    } else {
        match lookup(s, owner, title) {
            None => (Err(BlogError::NotFound), s, lamports),
            Some((a, acc)) => match decode_record(s.discriminator, acc.data) {
                None => (Err(BlogError::NotFound), s, lamports),
                Some(old_r) => {
                    let r = RecordView { owner: old_r.owner, title: old_r.title, body };
                    let need = rent_exempt_minimum(space_of(r));
                    if old_r.owner != user {
                        (Err(BlogError::NotOwner), s, lamports)
                    } else if need > acc.lamports + lamports {
                        (Err(BlogError::AllocationFailure), s, lamports)
                    } else {
                        (
                            Ok(r),
                            with_account(s, a, account_for(s, acc.bump, r)),
                            (lamports + acc.lamports - need) as nat,
                        )
                    }
                },
            },
        }
    }
}

/// What `delete_blog` does: the result, the store after, and the signer's
/// lamports after.
pub open spec fn delete_outcome(
    s: StoreView,
    owner: Seq<u8>,
    user: Seq<u8>,
    lamports: nat,
    title: Seq<char>,
) -> (Result<(), BlogError>, StoreView, nat) {
    match lookup(s, owner, title) {
        None => (Err(BlogError::NotFound), s, lamports),
        Some((a, acc)) => match decode_record(s.discriminator, acc.data) {
            None => (Err(BlogError::NotFound), s, lamports),
            Some(r) => if r.owner != user {
                (Err(BlogError::NotOwner), s, lamports)
            } else {
                (Ok(()), without_account(s, a), lamports + acc.lamports)
            },
        },
    }
}

/// The mathematical value of a result that carries a record.
pub open spec fn result_view(r: Result<BlogAccount, BlogError>) -> Result<RecordView, BlogError> {
    match r {
        Ok(a) => Ok(a@),
        Err(e) => Err(e),
    }
}

/// Records of one program, each at the address derived from its owner and
/// title.
pub struct RecordStore {
    program_id: [u8; 32],
    discriminator: [u8; 8],
    accounts: Vec<StoredAccount>,
    by_address: Ghost<Map<Seq<u8>, AccountState>>,
}

impl View for RecordStore {
    type V = StoreView;

    closed spec fn view(&self) -> StoreView {
        StoreView {
            program_id: self.program_id@,
            discriminator: self.discriminator@,
            accounts: self.by_address@,
        }
    }
}

impl RecordStore {
    /// The store is consistent: one account per address, the ghost map
    /// holds exactly the accounts, and every account is valid.
    pub closed spec fn wf(&self) -> bool {
        &&& forall|i: int, j: int|
            0 <= i < j < self.accounts@.len() ==> self.accounts@[i].address@
                != self.accounts@[j].address@
        &&& forall|i: int|
            0 <= i < self.accounts@.len() ==> {
                &&& self.by_address@.contains_key(#[trigger] self.accounts@[i].address@)
                &&& self.by_address@[self.accounts@[i].address@] == self.accounts@[i]@
            }
        &&& forall|a: Seq<u8>|
            #[trigger] self.by_address@.contains_key(a) ==> exists|i: int|
                0 <= i < self.accounts@.len() && self.accounts@[i].address@ == a
        &&& valid_store(self@)
    }

    /// An empty store of program `program_id`, whose records open with
    /// `discriminator`.
    pub fn new(program_id: [u8; 32], discriminator: [u8; 8]) -> (r: RecordStore)
        ensures
            r.wf(),
            r@.program_id == program_id@,
            r@.discriminator == discriminator@,
            r@.accounts == Map::<Seq<u8>, AccountState>::empty(),
    {
        RecordStore {
            program_id,
            discriminator,
            accounts: Vec::new(),
            by_address: Ghost(Map::empty()),
        }
    }

    /// A consistent store is valid.
    pub proof fn lemma_valid(&self)
        requires
            self.wf(),
        ensures
            valid_store(self@),
    {
    }

    /// Number of records in the store.
    pub fn len(&self) -> (r: usize)
        requires
            self.wf(),
        ensures
            r == self@.accounts.dom().len(),
    {
        proof {
            self.lemma_dom_len();
        }
        self.accounts.len()
    }

    /// With one account per address, the map has as many keys as the
    /// vector has accounts.
    proof fn lemma_dom_len(&self)
        requires
            self.wf(),
        ensures
            self.by_address@.dom().len() == self.accounts@.len(),
    {
        let addrs = self.accounts@.map_values(|a: StoredAccount| a.address@);
        assert(addrs.no_duplicates());
        assert(self.by_address@.dom() =~= addrs.to_set()) by {
            assert forall|a: Seq<u8>| self.by_address@.dom().contains(a) implies addrs.to_set().contains(a) by {
                let i = choose|i: int| 0 <= i < self.accounts@.len() && self.accounts@[i].address@ == a;
                assert(addrs[i] == a);
            }
        }
        addrs.unique_seq_to_set();
    }

    /// Index of the account at `addr`, if any.
    fn find(&self, addr: &[u8; 32]) -> (r: Option<usize>)
        requires
            self.wf(),
        ensures
            match r {
                Some(i) => i < self.accounts@.len() && self.accounts@[i as int].address@ == addr@,
                None => !self@.accounts.contains_key(addr@),
            },
    {
        let mut i: usize = 0;
        while i < self.accounts.len()
            invariant
                self.wf(),
                i <= self.accounts@.len(),
                forall|j: int| 0 <= j < i ==> self.accounts@[j].address@ != addr@,
            decreases self.accounts@.len() - i,
        {
            if bytes_equal(self.accounts[i].address.as_slice(), addr.as_slice()) {
                return Some(i);
            }
            i += 1;
        }
        None
    }

    /// The record of `owner` titled `title`.
    pub fn read(&self, owner: &[u8; 32], title: &String) -> (r: Option<BlogAccount>)
        requires
            self.wf(),
        ensures
            match stored_record(self@, owner@, title@) {
                Some(v) => r is Some && r->Some_0@ == v,
                None => r is None,
            },
    {
        let (addr, _bump) = match derive_record_address(&self.program_id, owner, title) {
            Some(found) => found,
            None => return None,
        };
        match self.find(&addr) {
            Some(i) => deserialize_record(&self.discriminator, self.accounts[i].data.as_slice()),
            None => None,
        }
    }

    /// The stored bytes and the lamports of the record of `owner` titled `title`.
    pub fn account_data(&self, owner: &[u8; 32], title: &String) -> (r: Option<(Vec<u8>, u64)>)
        requires
            self.wf(),
        ensures
            match lookup(self@, owner@, title@) {
                Some((_, acc)) => r is Some && r->Some_0.0@ == acc.data && r->Some_0.1 == acc.lamports,
                None => r is None,
            },
    {
        let (addr, _bump) = match derive_record_address(&self.program_id, owner, title) {
            Some(found) => found,
            None => return None,
        };
        match self.find(&addr) {
            Some(i) => {
                let acc = &self.accounts[i];
                Some((copy_range(acc.data.as_slice(), 0, acc.data.len()), acc.lamports))
            },
            None => None,
        }
    }

    /// Adds an account at an address that holds none.
    fn push_account(&mut self, acc: StoredAccount)
        requires
            old(self).wf(),
            !old(self)@.accounts.contains_key(acc.address@),
            valid_account(old(self)@, acc.address@, acc@),
        ensures
            final(self).wf(),
            final(self)@ == with_account(old(self)@, acc.address@, acc@),
    {
        let ghost a = acc.address@;
        let ghost st = acc@;
        let ghost before = self.accounts@;
        self.accounts.push(acc);
        self.by_address = Ghost(self.by_address@.insert(a, st));
        proof {
            assert forall|i: int| 0 <= i < before.len() implies self.accounts@[i].address@ != a by {
                assert(old(self).by_address@.contains_key(before[i].address@));
            }
            assert forall|k: Seq<u8>| #[trigger] self.by_address@.contains_key(k) implies exists|i: int|
                0 <= i < self.accounts@.len() && self.accounts@[i].address@ == k by {
                if k == a {
                    assert(self.accounts@[before.len() as int].address@ == k);
                } else {
                    let i = choose|i: int| 0 <= i < before.len() && before[i].address@ == k;
                    assert(self.accounts@[i].address@ == k);
                }
            }
            assert forall|k: Seq<u8>| #[trigger] self@.accounts.contains_key(k) implies valid_account(self@, k, self@.accounts[k]) by {
                if k != a {
                    assert(old(self)@.accounts.contains_key(k));
                }
            }
        }
    }

    /// Replaces the account at index `i` with one at the same address.
    fn replace_account(&mut self, i: usize, acc: StoredAccount)
        requires
            old(self).wf(),
            i < old(self).accounts@.len(),
            old(self).accounts@[i as int].address@ == acc.address@,
            valid_account(old(self)@, acc.address@, acc@),
        ensures
            final(self).wf(),
            final(self)@ == with_account(old(self)@, acc.address@, acc@),
    {
        let ghost a = acc.address@;
        let ghost st = acc@;
        let ghost before = self.accounts@;
        self.accounts.set(i, acc);
        self.by_address = Ghost(self.by_address@.insert(a, st));
        proof {
            assert forall|j: int| 0 <= j < self.accounts@.len() implies {
                &&& self.by_address@.contains_key(#[trigger] self.accounts@[j].address@)
                &&& self.by_address@[self.accounts@[j].address@] == self.accounts@[j]@
            } by {
                if j != i {
                    assert(before[j].address@ != a);
                }
            }
            assert forall|k: Seq<u8>| #[trigger] self.by_address@.contains_key(k) implies exists|j: int|
                0 <= j < self.accounts@.len() && self.accounts@[j].address@ == k by {
                if k == a {
                    assert(self.accounts@[i as int].address@ == k);
                } else {
                    let j = choose|j: int| 0 <= j < before.len() && before[j].address@ == k;
                    assert(self.accounts@[j].address@ == k);
                }
            }
            assert forall|k: Seq<u8>| #[trigger] self@.accounts.contains_key(k) implies valid_account(self@, k, self@.accounts[k]) by {
                if k != a {
                    assert(old(self)@.accounts.contains_key(k));
                }
            }
        }
    }

    /// Removes the account at index `i`.
    fn remove_account(&mut self, i: usize)
        requires
            old(self).wf(),
            i < old(self).accounts@.len(),
        ensures
            final(self).wf(),
            final(self)@ == without_account(old(self)@, old(self).accounts@[i as int].address@),
    {
        let ghost a = self.accounts@[i as int].address@;
        let ghost before = self.accounts@;
        let _gone = self.accounts.remove(i);
        self.by_address = Ghost(self.by_address@.remove(a));
        proof {
            assert forall|j: int| 0 <= j < self.accounts@.len() implies {
                &&& self.by_address@.contains_key(#[trigger] self.accounts@[j].address@)
                &&& self.by_address@[self.accounts@[j].address@] == self.accounts@[j]@
            } by {
                let oj = if j < i { j } else { j + 1 };
                assert(self.accounts@[j] == before[oj]);
                assert(before[oj].address@ != a);
            }
            assert forall|k: Seq<u8>| #[trigger] self.by_address@.contains_key(k) implies exists|j: int|
                0 <= j < self.accounts@.len() && self.accounts@[j].address@ == k by {
                let oj = choose|oj: int| 0 <= oj < before.len() && before[oj].address@ == k;
                assert(oj != i);
                let j = if oj < i { oj } else { oj - 1 };
                assert(self.accounts@[j] == before[oj]);
            }
            assert forall|j1: int, j2: int| 0 <= j1 < j2 < self.accounts@.len() implies self.accounts@[j1].address@
                != self.accounts@[j2].address@ by {
                let o1 = if j1 < i { j1 } else { j1 + 1 };
                let o2 = if j2 < i { j2 } else { j2 + 1 };
                assert(self.accounts@[j1] == before[o1]);
                assert(self.accounts@[j2] == before[o2]);
            }
            assert forall|k: Seq<u8>| #[trigger] self@.accounts.contains_key(k) implies valid_account(self@, k, self@.accounts[k]) by {
                assert(old(self)@.accounts.contains_key(k));
            }
        }
    }
}

/// A valid account stores a record no larger than the largest one, so the
/// deposit it holds is at most that of the largest record.
proof fn lemma_account_bounds(s: StoreView, a: Seq<u8>)
    requires
        valid_store(s),
        s.accounts.contains_key(a),
    ensures
        s.accounts[a].data.len() <= MAX_RECORD_SPACE,
        s.accounts[a].lamports <= rent_exempt_minimum(MAX_RECORD_SPACE as nat),
{
    let acc = s.accounts[a];
    assert(valid_account(s, a, acc));
    let r = decode_record(s.discriminator, acc.data)->Some_0;
    crate::layout::lemma_encode_len(s.discriminator, r);
    assert(acc.lamports <= rent_exempt_minimum(MAX_RECORD_SPACE as nat)) by (nonlinear_arith)
        requires
            acc.lamports == (128 + acc.data.len()) * 6960,
            acc.data.len() <= MAX_RECORD_SPACE,
            rent_exempt_minimum(MAX_RECORD_SPACE as nat) == (128 + MAX_RECORD_SPACE) * 6960,
    ;
}

/// Creates the record of the signer titled `title` with body `body`, at the
/// address that the signer's key and the title derive. The signer pays a
/// deposit sized for exactly the bytes that the record takes.
pub fn create_blog(
    ctx: &mut CreateBlogPost,
    store: &mut RecordStore,
    title: String,
    body: String,
) -> (r: Result<BlogAccount, BlogError>)
    requires
        old(store).wf(),
    ensures
        final(store).wf(),
        final(ctx).user == old(ctx).user,
        create_outcome(old(store)@, old(ctx).user@, old(ctx).user_lamports as nat, title@, body@) == (
            result_view(r),
            final(store)@,
            final(ctx).user_lamports as nat,
        ),
{
    if title.as_str().as_bytes().len() > MAX_TITLE_LEN || body.as_str().as_bytes().len() > MAX_BODY_LEN {
        return Err(BlogError::SizeLimitExceeded);
    }
    let (addr, bump) = match derive_record_address(&store.program_id, &ctx.user, &title) {
        Some(found) => found,
        None => return Err(BlogError::AddressCollision),
    };
    if store.find(&addr).is_some() {
        return Err(BlogError::AddressCollision);
    }
    let account = BlogAccount { owner: ctx.user, title, body };
    let data = serialize_record(&store.discriminator, &account);
    let need = minimum_balance(data.len());
    if ctx.user_lamports < need {
        return Err(BlogError::AllocationFailure);
    }
    ctx.user_lamports = ctx.user_lamports - need;
    proof {
        lemma_decode_encode(store.discriminator@, account@);
    }
    store.push_account(StoredAccount { address: addr, bump, lamports: need, data });
    Ok(account)
}

/// Replaces the body of the record of `ctx.owner` titled `title`; only its
/// owner may. The record is laid out anew at exactly its new size, so no byte
/// of the old body survives, and its deposit follows the size: the signer
/// pays what growth needs and gets back what shrinking frees.
pub fn update_blog(
    ctx: &mut UpdateBlogPost,
    store: &mut RecordStore,
    title: String,
    body: String,
) -> (r: Result<BlogAccount, BlogError>)
    requires
        old(store).wf(),
        old(ctx).user_lamports + rent_exempt_minimum(MAX_RECORD_SPACE as nat) <= u64::MAX,
    ensures
        final(store).wf(),
        final(ctx).owner == old(ctx).owner,
        final(ctx).user == old(ctx).user,
        update_outcome(
            old(store)@,
            old(ctx).owner@,
            old(ctx).user@,
            old(ctx).user_lamports as nat,
            title@,
            body@,
        ) == (result_view(r), final(store)@, final(ctx).user_lamports as nat),
{
    if body.as_str().as_bytes().len() > MAX_BODY_LEN {
        return Err(BlogError::SizeLimitExceeded);
    }
    let (addr, _bump) = match derive_record_address(&store.program_id, &ctx.owner, &title) {
        Some(found) => found,
        None => return Err(BlogError::NotFound),
    };
    let i = match store.find(&addr) {
        Some(i) => i,
        None => return Err(BlogError::NotFound),
    };
    let old_record = match deserialize_record(
        &store.discriminator,
        store.accounts[i].data.as_slice(),
    ) {
        Some(rec) => rec,
        None => return Err(BlogError::NotFound),
    };
    if !bytes_equal(old_record.owner.as_slice(), ctx.user.as_slice()) {
        return Err(BlogError::NotOwner);
    }
    proof {
        assert(store.by_address@.contains_key(addr@));
        lemma_account_bounds(store@, addr@);
    }
    let held = store.accounts[i].lamports;
    let bump = store.accounts[i].bump;
    let account = BlogAccount { owner: old_record.owner, title: old_record.title, body };
    let data = serialize_record(&store.discriminator, &account);
    let need = minimum_balance(data.len());
    if need > held {
        if need - held > ctx.user_lamports {
            return Err(BlogError::AllocationFailure);
        }
        ctx.user_lamports = ctx.user_lamports - (need - held);
    } else {
        ctx.user_lamports = ctx.user_lamports + (held - need);
    }
    proof {
        lemma_decode_encode(store.discriminator@, account@);
    }
    store.replace_account(i, StoredAccount { address: addr, bump, lamports: need, data });
    Ok(account)
}

/// Deletes the record of `ctx.owner` titled `title`; only its owner may. The
/// whole deposit goes back to the signer and the address is free again.
pub fn delete_blog(ctx: &mut Delete, store: &mut RecordStore, title: String) -> (r: Result<
    (),
    BlogError,
>)
    requires
        old(store).wf(),
        old(ctx).user_lamports + rent_exempt_minimum(MAX_RECORD_SPACE as nat) <= u64::MAX,
    ensures
        final(store).wf(),
        final(ctx).owner == old(ctx).owner,
        final(ctx).user == old(ctx).user,
        delete_outcome(old(store)@, old(ctx).owner@, old(ctx).user@, old(ctx).user_lamports as nat, title@)
            == (r, final(store)@, final(ctx).user_lamports as nat),
{
    let (addr, _bump) = match derive_record_address(&store.program_id, &ctx.owner, &title) {
        Some(found) => found,
        None => return Err(BlogError::NotFound),
    };
    let i = match store.find(&addr) {
        Some(i) => i,
        None => return Err(BlogError::NotFound),
    };
    let record = match deserialize_record(&store.discriminator, store.accounts[i].data.as_slice()) {
        Some(rec) => rec,
        None => return Err(BlogError::NotFound),
    };
    if !bytes_equal(record.owner.as_slice(), ctx.user.as_slice()) {
        return Err(BlogError::NotOwner);
    }
    proof {
        assert(store.by_address@.contains_key(addr@));
        lemma_account_bounds(store@, addr@);
    }
    ctx.user_lamports = ctx.user_lamports + store.accounts[i].lamports;
    store.remove_account(i);
    Ok(())
}

} // verus!
