//! The persisted byte layout of a blog record:
//! `[discriminator: 8][owner: 32][title_len: u32 LE][title][body_len: u32 LE][body]`.

use vstd::bytes::{spec_u32_from_le_bytes, spec_u32_to_le_bytes, u32_from_le_bytes, u32_to_le_bytes, lemma_auto_spec_u32_to_from_le_bytes};
use vstd::prelude::*;
use vstd::utf8::{decode_utf8, encode_utf8, valid_utf8};

verus! {

/// Length of the type discriminator that opens every record.
pub const DISCRIMINATOR_LEN: usize = 8;

/// Length of an owner key.
pub const OWNER_LEN: usize = 32;

/// Largest title, in bytes, that a record may carry.
pub const MAX_TITLE_LEN: usize = 100;

/// Largest body, in bytes, that a record may carry.
pub const MAX_BODY_LEN: usize = 500;

/// Space of the largest record: every record fits in it.
pub const MAX_RECORD_SPACE: usize = 648;

/// A blog post as the store holds it.
#[derive(Debug, Clone, PartialEq, Eq)]
pub struct BlogAccount {
    pub owner: [u8; 32],
    pub title: String,
    pub body: String,
}

/// The mathematical value of a [`BlogAccount`].
pub struct RecordView {
    pub owner: Seq<u8>,
    pub title: Seq<char>,
    pub body: Seq<char>,
}

impl View for BlogAccount {
    type V = RecordView;

    open spec fn view(&self) -> RecordView {
        RecordView { owner: self.owner@, title: self.title@, body: self.body@ }
    }
}

/// Number of bytes in the UTF-8 encoding of a string.
pub open spec fn utf8_len(s: Seq<char>) -> nat {
    encode_utf8(s).len()
}

/// Bytes that a record with a title and a body of these byte lengths occupies.
pub open spec fn record_space(title_len: nat, body_len: nat) -> nat {
    8 + 32 + 4 + title_len + 4 + body_len
}

/// Space of the record `r`.
pub open spec fn space_of(r: RecordView) -> nat {
    record_space(utf8_len(r.title), utf8_len(r.body))
}

/// A record whose title and body stay within their bounds.
pub open spec fn within_limits(r: RecordView) -> bool {
    &&& r.owner.len() == 32
    &&& utf8_len(r.title) <= MAX_TITLE_LEN
    &&& utf8_len(r.body) <= MAX_BODY_LEN
}

/// The bytes that store record `r` under discriminator `disc`.
pub open spec fn encode_record(disc: Seq<u8>, r: RecordView) -> Seq<u8> {
    let t = encode_utf8(r.title);
    let b = encode_utf8(r.body);
    disc + r.owner + spec_u32_to_le_bytes(t.len() as u32) + t + spec_u32_to_le_bytes(
        b.len() as u32,
    ) + b
}

/// The record that `data` holds under discriminator `disc`, if `data` is a
/// well-formed record of exactly its own length.
pub open spec fn decode_record(disc: Seq<u8>, data: Seq<u8>) -> Option<RecordView> {
    if data.len() < 48 || data.subrange(0, 8) != disc {
        None
    } else {
        let tl = spec_u32_from_le_bytes(data.subrange(40, 44)) as int;
        if data.len() < 48 + tl {
            None
        } else {
            let t = data.subrange(44, 44 + tl);
            let bl = spec_u32_from_le_bytes(data.subrange(44 + tl, 48 + tl)) as int;
            let b = data.subrange(48 + tl, data.len() as int);
            if b.len() != bl || !valid_utf8(t) || !valid_utf8(b) {
                None
            } else {
                Some(
                    RecordView {
                        owner: data.subrange(8, 40),
                        title: decode_utf8(t),
                        body: decode_utf8(b),
                    },
                )
            }
        }
    }
}

/// A record's bytes have exactly the length that its title and body call for.
pub proof fn lemma_encode_len(disc: Seq<u8>, r: RecordView)
    requires
        disc.len() == 8,
        r.owner.len() == 32,
    ensures
        encode_record(disc, r).len() == space_of(r),
{
    lemma_auto_spec_u32_to_from_le_bytes();
}

/// Decoding the bytes of a record gives the record back.
pub proof fn lemma_decode_encode(disc: Seq<u8>, r: RecordView)
    requires
        disc.len() == 8,
        r.owner.len() == 32,
        utf8_len(r.title) <= u32::MAX,
        utf8_len(r.body) <= u32::MAX,
    ensures
        decode_record(disc, encode_record(disc, r)) == Some(r),
{
    lemma_auto_spec_u32_to_from_le_bytes();
    vstd::utf8::encode_utf8_valid_utf8(r.title);
    vstd::utf8::encode_utf8_valid_utf8(r.body);
    vstd::utf8::encode_utf8_decode_utf8(r.title);
    vstd::utf8::encode_utf8_decode_utf8(r.body);
    let t = encode_utf8(r.title);
    let b = encode_utf8(r.body);
    let tl = t.len() as int;
    let data = encode_record(disc, r);
    assert(data.subrange(0, 8) =~= disc);
    assert(data.subrange(8, 40) =~= r.owner);
    assert(data.subrange(40, 44) =~= spec_u32_to_le_bytes(tl as u32));
    assert(data.subrange(44, 44 + tl) =~= t);
    assert(data.subrange(44 + tl, 48 + tl) =~= spec_u32_to_le_bytes(b.len() as u32));
    assert(data.subrange(48 + tl, data.len() as int) =~= b);
}

/// Relies on `String::from_utf8`: it succeeds exactly on valid UTF-8, and
/// the string it returns is the one those bytes encode.
#[verifier::external_body]
fn utf8_to_string(bytes: Vec<u8>) -> (r: Option<String>)
    ensures
        r is Some <==> valid_utf8(bytes@),
        r is Some ==> r->Some_0@ == decode_utf8(bytes@),
{
    String::from_utf8(bytes).ok()
}

/// Appends `src` to `out`.
pub fn append_bytes(out: &mut Vec<u8>, src: &[u8])
    ensures
        final(out)@ == old(out)@ + src@,
{
    let mut i: usize = 0;
    while i < src.len()
        invariant
            i <= src@.len(),
            out@ == old(out)@ + src@.subrange(0, i as int),
        decreases src@.len() - i,
    {
        out.push(src[i]);
        i += 1;
        assert(out@ =~= old(out)@ + src@.subrange(0, i as int));
    }
    assert(src@.subrange(0, i as int) =~= src@);
}

/// Copies `src[start..end]` into a new vector.
pub fn copy_range(src: &[u8], start: usize, end: usize) -> (r: Vec<u8>)
    requires
        start <= end <= src@.len(),
    ensures
        r@ == src@.subrange(start as int, end as int),
{
    let mut r: Vec<u8> = Vec::new();
    append_bytes(&mut r, &src[start..end]);
    r
}

/// Whether two byte strings are equal.
pub fn bytes_equal(a: &[u8], b: &[u8]) -> (r: bool)
    ensures
        r == (a@ == b@),
{
    if a.len() != b.len() {
        return false;
    }
    let mut i: usize = 0;
    while i < a.len()
        invariant
            a@.len() == b@.len(),
            i <= a@.len(),
            forall|j: int| 0 <= j < i ==> a@[j] == b@[j],
        decreases a@.len() - i,
    {
        if a[i] != b[i] {
            return false;
        }
        i += 1;
    }
    assert(a@ =~= b@);
    true
}

/// Lays out `account` under discriminator `disc`.
pub fn serialize_record(disc: &[u8; 8], account: &BlogAccount) -> (r: Vec<u8>)
    requires
        utf8_len(account.title@) <= u32::MAX,
        utf8_len(account.body@) <= u32::MAX,
    ensures
        r@ == encode_record(disc@, account@),
        r@.len() == space_of(account@),
{
    let t = account.title.as_str().as_bytes();
    let b = account.body.as_str().as_bytes();
    let mut out: Vec<u8> = Vec::new();
    append_bytes(&mut out, disc.as_slice());
    append_bytes(&mut out, account.owner.as_slice());
    let tl = u32_to_le_bytes(t.len() as u32);
    append_bytes(&mut out, tl.as_slice());
    append_bytes(&mut out, t);
    let bl = u32_to_le_bytes(b.len() as u32);
    append_bytes(&mut out, bl.as_slice());
    append_bytes(&mut out, b);
    proof {
        lemma_encode_len(disc@, account@);
    }
    out
}

/// Reads back the record that `data` holds under discriminator `disc`.
pub fn deserialize_record(disc: &[u8; 8], data: &[u8]) -> (r: Option<BlogAccount>)
    ensures
        match decode_record(disc@, data@) {
            Some(v) => r is Some && r->Some_0@ == v,
            None => r is None,
        },
{
    if data.len() < 48 || !bytes_equal(&data[0..8], disc.as_slice()) {
        return None;
    }
    let tl = u32_from_le_bytes(&data[40..44]) as usize;
    if data.len() - 48 < tl {
        return None;
    }
    let t = copy_range(data, 44, 44 + tl);
    let bl = u32_from_le_bytes(&data[44 + tl..48 + tl]) as usize;
    let b = copy_range(data, 48 + tl, data.len());
    if b.len() != bl {
        return None;
    }
    let title = match utf8_to_string(t) {
        Some(s) => s,
        None => return None,
    };
    let body = match utf8_to_string(b) {
        Some(s) => s,
        None => return None,
    };
    let mut owner: [u8; 32] = [0u8; 32];
    let mut i: usize = 0;
    while i < 32
        invariant
            data@.len() >= 48,
            i <= 32,
            forall|j: int| 0 <= j < i ==> owner@[j] == data@[8 + j],
        decreases 32 - i,
    {
        owner[i] = data[8 + i];
        i += 1;
    }
    assert(owner@ =~= data@.subrange(8, 40));
    Some(BlogAccount { owner, title, body })
}

} // verus!
