use anchor_lang::prelude::Pubkey;
use blog::address::derive_record_address;
use blog::layout::{deserialize_record, serialize_record, BlogAccount};
use blog::store::{
    create_blog, delete_blog, update_blog, BlogError, CreateBlogPost, Delete, RecordStore,
    UpdateBlogPost,
};

const PROGRAM: [u8; 32] = [7u8; 32];
const DISC: [u8; 8] = [1, 2, 3, 4, 5, 6, 7, 8];
const ALICE: [u8; 32] = [0xA1u8; 32];
const BOB: [u8; 32] = [0xB2u8; 32];
const FUNDS: u64 = 1_000_000_000;

fn deposit(space: u64) -> u64 {
    (128 + space) * 6960
}

fn create(store: &mut RecordStore, user: [u8; 32], title: &str, body: &str) -> (Result<BlogAccount, BlogError>, u64) {
    let mut ctx = CreateBlogPost { user, user_lamports: FUNDS };
    let r = create_blog(&mut ctx, store, title.to_string(), body.to_string());
    (r, ctx.user_lamports)
}

fn update(store: &mut RecordStore, owner: [u8; 32], user: [u8; 32], title: &str, body: &str) -> (Result<BlogAccount, BlogError>, u64) {
    let mut ctx = UpdateBlogPost { owner, user, user_lamports: FUNDS };
    let r = update_blog(&mut ctx, store, title.to_string(), body.to_string());
    (r, ctx.user_lamports)
}

fn delete(store: &mut RecordStore, owner: [u8; 32], user: [u8; 32], title: &str) -> (Result<(), BlogError>, u64) {
    let mut ctx = Delete { owner, user, user_lamports: FUNDS };
    let r = delete_blog(&mut ctx, store, title.to_string());
    (r, ctx.user_lamports)
}

fn stored(store: &RecordStore, owner: [u8; 32], title: &str) -> Option<(Vec<u8>, u64)> {
    store.account_data(&owner, &title.to_string())
}

#[test]
fn hello_world_lifecycle() {
    let mut store = RecordStore::new(PROGRAM, DISC);
    let (r, left) = create(&mut store, ALICE, "Hello", "World");
    let rec = r.unwrap();
    assert_eq!(rec.owner, ALICE);
    assert_eq!(rec.title, "Hello");
    assert_eq!(rec.body, "World");
    let (data, lamports) = stored(&store, ALICE, "Hello").unwrap();
    assert_eq!(data.len(), 58);
    assert_eq!(lamports, deposit(58));
    assert_eq!(lamports, 1_294_560);
    assert_eq!(left, FUNDS - 1_294_560);

    let (r, left) = update(&mut store, ALICE, ALICE, "Hello", "Goodbye, World!!");
    let rec = r.unwrap();
    assert_eq!(rec.title, "Hello");
    assert_eq!(rec.body, "Goodbye, World!!");
    let (data, lamports) = stored(&store, ALICE, "Hello").unwrap();
    assert_eq!(data.len(), 69);
    assert_eq!(lamports, deposit(69));
    assert_eq!(left, FUNDS - (deposit(69) - deposit(58)));

    let (r, left) = delete(&mut store, ALICE, ALICE, "Hello");
    assert_eq!(r, Ok(()));
    assert_eq!(left, FUNDS + deposit(69));
    assert!(store.read(&ALICE, &"Hello".to_string()).is_none());
    assert_eq!(store.len(), 0);

    let (r, _) = create(&mut store, ALICE, "Hello", "New");
    assert_eq!(r.unwrap().body, "New");
    let (data, _) = stored(&store, ALICE, "Hello").unwrap();
    assert_eq!(data.len(), 56);
    assert_eq!(&data[53..], b"New");
    let read = store.read(&ALICE, &"Hello".to_string()).unwrap();
    assert_eq!(read.body, "New");
}

#[test]
fn create_then_read_returns_what_was_written() {
    let mut store = RecordStore::new(PROGRAM, DISC);
    for (title, body) in [("", ""), ("a", "b"), ("Grüße", "naïve café ☕"), ("t", "x")] {
        let (r, _) = create(&mut store, ALICE, title, body);
        assert!(r.is_ok());
        let read = store.read(&ALICE, &title.to_string()).unwrap();
        assert_eq!(read, BlogAccount { owner: ALICE, title: title.to_string(), body: body.to_string() });
    }
    assert_eq!(store.len(), 4);
}

#[test]
fn second_create_collides_and_keeps_first() {
    let mut store = RecordStore::new(PROGRAM, DISC);
    create(&mut store, ALICE, "Same", "first").0.unwrap();
    let before = stored(&store, ALICE, "Same").unwrap();
    let (r, left) = create(&mut store, ALICE, "Same", "second");
    assert_eq!(r, Err(BlogError::AddressCollision));
    assert_eq!(left, FUNDS);
    assert_eq!(stored(&store, ALICE, "Same").unwrap(), before);
    assert_eq!(store.read(&ALICE, &"Same".to_string()).unwrap().body, "first");
}

#[test]
fn same_title_for_two_owners_is_two_records() {
    let mut store = RecordStore::new(PROGRAM, DISC);
    create(&mut store, ALICE, "Same", "alice").0.unwrap();
    create(&mut store, BOB, "Same", "bob").0.unwrap();
    assert_eq!(store.len(), 2);
    assert_eq!(store.read(&BOB, &"Same".to_string()).unwrap().body, "bob");
}

#[test]
fn update_by_stranger_is_refused_and_changes_nothing() {
    let mut store = RecordStore::new(PROGRAM, DISC);
    create(&mut store, ALICE, "Hello", "World").0.unwrap();
    let before = stored(&store, ALICE, "Hello").unwrap();
    let (r, left) = update(&mut store, ALICE, BOB, "Hello", "hacked");
    assert_eq!(r, Err(BlogError::NotOwner));
    assert_eq!(left, FUNDS);
    assert_eq!(stored(&store, ALICE, "Hello").unwrap(), before);
}

#[test]
fn update_shrinks_to_exact_size_and_refunds() {
    let mut store = RecordStore::new(PROGRAM, DISC);
    create(&mut store, ALICE, "Hello", "a rather long body").0.unwrap();
    let (r, left) = update(&mut store, ALICE, ALICE, "Hello", "ab");
    assert_eq!(r.unwrap().body, "ab");
    let (data, lamports) = stored(&store, ALICE, "Hello").unwrap();
    assert_eq!(data.len(), 8 + 32 + 4 + 5 + 4 + 2);
    assert_eq!(&data[44..49], b"Hello");
    assert_eq!(&data[49..53], &[2, 0, 0, 0]);
    assert_eq!(&data[53..], b"ab");
    assert_eq!(lamports, deposit(55));
    assert_eq!(left, FUNDS + deposit(8 + 32 + 4 + 5 + 4 + 18) - deposit(55));
}

#[test]
fn delete_then_create_leaves_no_trace() {
    let mut store = RecordStore::new(PROGRAM, DISC);
    create(&mut store, ALICE, "Hello", "Goodbye, World!!").0.unwrap();
    delete(&mut store, ALICE, ALICE, "Hello").0.unwrap();
    let (r, _) = create(&mut store, ALICE, "Hello", "New");
    assert_eq!(r.unwrap().body, "New");
    let (data, _) = stored(&store, ALICE, "Hello").unwrap();
    assert_eq!(data.len(), 56);
    assert!(!data.windows(7).any(|w| w == b"Goodbye"));
}

#[test]
fn delete_by_stranger_is_refused_and_record_stays() {
    let mut store = RecordStore::new(PROGRAM, DISC);
    create(&mut store, ALICE, "Hello", "World").0.unwrap();
    let (r, left) = delete(&mut store, ALICE, BOB, "Hello");
    assert_eq!(r, Err(BlogError::NotOwner));
    assert_eq!(left, FUNDS);
    assert_eq!(store.read(&ALICE, &"Hello".to_string()).unwrap().body, "World");
}

#[test]
fn missing_record_is_not_found() {
    let mut store = RecordStore::new(PROGRAM, DISC);
    create(&mut store, ALICE, "Hello", "World").0.unwrap();
    assert_eq!(update(&mut store, ALICE, ALICE, "Other", "x").0, Err(BlogError::NotFound));
    assert_eq!(delete(&mut store, ALICE, ALICE, "Other").0, Err(BlogError::NotFound));
    assert_eq!(delete(&mut store, BOB, BOB, "Hello").0, Err(BlogError::NotFound));
}

#[test]
fn size_limits_are_enforced() {
    let mut store = RecordStore::new(PROGRAM, DISC);
    let title_100 = "t".repeat(100);
    let body_500 = "b".repeat(500);
    let (r, _) = create(&mut store, ALICE, &title_100, &body_500);
    assert!(r.is_ok());
    let (data, lamports) = stored(&store, ALICE, &title_100).unwrap();
    assert_eq!(data.len(), 648);
    assert_eq!(lamports, deposit(648));
    assert_eq!(create(&mut store, ALICE, &"t".repeat(101), "x").0, Err(BlogError::SizeLimitExceeded));
    assert_eq!(create(&mut store, ALICE, "x", &"b".repeat(501)).0, Err(BlogError::SizeLimitExceeded));
    assert_eq!(create(&mut store, ALICE, "é".repeat(51).as_str(), "x").0, Err(BlogError::SizeLimitExceeded));
    assert_eq!(update(&mut store, ALICE, ALICE, &title_100, &"b".repeat(501)).0, Err(BlogError::SizeLimitExceeded));
    assert_eq!(store.len(), 1);
}

#[test]
fn create_without_funds_fails_allocation() {
    let mut store = RecordStore::new(PROGRAM, DISC);
    let mut ctx = CreateBlogPost { user: ALICE, user_lamports: deposit(58) - 1 };
    let r = create_blog(&mut ctx, &mut store, "Hello".to_string(), "World".to_string());
    assert_eq!(r, Err(BlogError::AllocationFailure));
    assert_eq!(ctx.user_lamports, deposit(58) - 1);
    assert_eq!(store.len(), 0);
    let mut ctx = CreateBlogPost { user: ALICE, user_lamports: deposit(58) };
    assert!(create_blog(&mut ctx, &mut store, "Hello".to_string(), "World".to_string()).is_ok());
    assert_eq!(ctx.user_lamports, 0);
}

#[test]
fn growing_update_without_funds_fails_allocation() {
    let mut store = RecordStore::new(PROGRAM, DISC);
    create(&mut store, ALICE, "Hello", "World").0.unwrap();
    let before = stored(&store, ALICE, "Hello").unwrap();
    let mut ctx = UpdateBlogPost { owner: ALICE, user: ALICE, user_lamports: 6960 * 10 };
    let r = update_blog(&mut ctx, &mut store, "Hello".to_string(), "World, but longer".to_string());
    assert_eq!(r, Err(BlogError::AllocationFailure));
    assert_eq!(ctx.user_lamports, 6960 * 10);
    assert_eq!(stored(&store, ALICE, "Hello").unwrap(), before);
}

#[test]
fn address_matches_program_derived_address() {
    let owner = ALICE;
    let program = Pubkey::new_from_array(PROGRAM);
    let (expected, bump) = Pubkey::find_program_address(&[owner.as_ref(), b"Hello"], &program);
    let got = derive_record_address(&PROGRAM, &owner, &"Hello".to_string()).unwrap();
    assert_eq!(got, (expected.to_bytes(), bump));
    assert_ne!(got.0, PROGRAM);
    assert_ne!(got.0, owner);
}

#[test]
fn long_title_is_split_into_seeds() {
    let title = "x".repeat(70);
    let program = Pubkey::new_from_array(PROGRAM);
    let bytes = title.as_bytes();
    let (expected, bump) = Pubkey::find_program_address(
        &[ALICE.as_ref(), &bytes[..32], &bytes[32..64], &bytes[64..]],
        &program,
    );
    let got = derive_record_address(&PROGRAM, &ALICE, &title).unwrap();
    assert_eq!(got, (expected.to_bytes(), bump));
}

#[test]
fn layout_is_exact() {
    let account = BlogAccount { owner: ALICE, title: "Hello".to_string(), body: "World".to_string() };
    let data = serialize_record(&DISC, &account);
    let mut expected: Vec<u8> = DISC.to_vec();
    expected.extend_from_slice(&ALICE);
    expected.extend_from_slice(&[5, 0, 0, 0]);
    expected.extend_from_slice(b"Hello");
    expected.extend_from_slice(&[5, 0, 0, 0]);
    expected.extend_from_slice(b"World");
    assert_eq!(data, expected);
    assert_eq!(deserialize_record(&DISC, &data), Some(account));
}

#[test]
fn malformed_bytes_do_not_decode() {
    let account = BlogAccount { owner: BOB, title: "Tï".to_string(), body: "Bø".to_string() };
    let data = serialize_record(&DISC, &account);
    assert_eq!(deserialize_record(&DISC, &data), Some(account));
    let other_disc = [9u8; 8];
    assert_eq!(deserialize_record(&other_disc, &data), None);
    let mut longer = data.clone();
    longer.push(0);
    assert_eq!(deserialize_record(&DISC, &longer), None);
    assert_eq!(deserialize_record(&DISC, &data[..data.len() - 1]), None);
    let mut bad_utf8 = data.clone();
    bad_utf8[44] = 0xFF;
    assert_eq!(deserialize_record(&DISC, &bad_utf8), None);
    assert_eq!(deserialize_record(&DISC, &[]), None);
}
