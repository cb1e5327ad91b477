//! Deterministic record addresses: a program-derived address found from the
//! owner's key and the title, with the highest bump seed that gives one.

use crate::layout::{append_bytes, copy_range};
use vstd::prelude::*;
use vstd::utf8::encode_utf8;

verus! {

/// Longest seed that a program-derived address admits.
pub const MAX_SEED_LEN: usize = 32;

/// The address and bump seed that program `program_id` derives from `seeds`,
/// or `None` when no bump seed gives an address off the curve or the seeds
/// are not admissible.
pub uninterp spec fn program_address_of(seeds: Seq<Seq<u8>>, program_id: Seq<u8>) -> Option<(Seq<u8>, u8)>;

/// The byte strings held by a list of seeds.
pub open spec fn seeds_view(seeds: Seq<Vec<u8>>) -> Seq<Seq<u8>> {
    seeds.map_values(|s: Vec<u8>| s@)
}

/// A title cut into seeds of at most [`MAX_SEED_LEN`] bytes; a title that
/// fits in one seed stays whole, so an empty title is one empty seed.
pub open spec fn title_chunks(t: Seq<u8>) -> Seq<Seq<u8>>
    decreases t.len(),
{
    if t.len() <= MAX_SEED_LEN {
        seq![t]
    } else {
        seq![t.subrange(0, MAX_SEED_LEN as int)] + title_chunks(
            t.subrange(MAX_SEED_LEN as int, t.len() as int),
        )
    }
}

/// The seeds of the record of `owner` titled `title`.
pub open spec fn record_seeds(owner: Seq<u8>, title: Seq<char>) -> Seq<Seq<u8>> {
    seq![owner] + title_chunks(encode_utf8(title))
}

/// The address and bump of the record of `owner` titled `title`.
pub open spec fn record_address(program_id: Seq<u8>, owner: Seq<u8>, title: Seq<char>) -> Option<
    (Seq<u8>, u8),
> {
    program_address_of(record_seeds(owner, title), program_id)
}

/// Relies on `Pubkey::try_find_program_address`: it searches the bump seeds
/// from 255 down and returns the first address off the curve, which depends
/// on the seeds and the program id alone.
#[verifier::external_body]
fn find_program_address(seeds: &Vec<Vec<u8>>, program_id: &[u8; 32]) -> (r: Option<([u8; 32], u8)>)
    ensures
        match r {
            Some((a, b)) => program_address_of(seeds_view(seeds@), program_id@) == Some((a@, b)),
            None => program_address_of(seeds_view(seeds@), program_id@) is None,
        },
{
    let refs: Vec<&[u8]> = seeds.iter().map(|s| s.as_slice()).collect();
    let program = anchor_lang::prelude::Pubkey::new_from_array(*program_id);
    anchor_lang::prelude::Pubkey::try_find_program_address(&refs, &program).map(
        |(a, b)| (a.to_bytes(), b),
    )
}

/// The seeds of the record of `owner` titled `title`.
pub fn make_record_seeds(owner: &[u8; 32], title: &String) -> (r: Vec<Vec<u8>>)
    ensures
        seeds_view(r@) == record_seeds(owner@, title@),
{
    let t = title.as_str().as_bytes();
    let ghost tv = t@;
    let mut first: Vec<u8> = Vec::new();
    append_bytes(&mut first, owner.as_slice());
    let mut seeds: Vec<Vec<u8>> = Vec::new();
    seeds.push(first);
    let mut start: usize = 0;
    assert(tv.subrange(0, tv.len() as int) =~= tv);
    assert(seeds_view(seeds@) =~= seq![owner@]);
    while t.len() - start > MAX_SEED_LEN
        invariant
            start <= tv.len(),
            t@ == tv,
            tv == encode_utf8(title@),
            seeds_view(seeds@) + title_chunks(tv.subrange(start as int, tv.len() as int))
                == record_seeds(owner@, title@),
        decreases tv.len() - start,
    {
        let ghost rest = tv.subrange(start as int, tv.len() as int);
        let chunk = copy_range(t, start, start + MAX_SEED_LEN);
        let ghost before = seeds@;
        seeds.push(chunk);
        assert(rest.subrange(0, MAX_SEED_LEN as int) =~= chunk@);
        assert(rest.subrange(MAX_SEED_LEN as int, rest.len() as int) =~= tv.subrange(
            (start + MAX_SEED_LEN) as int,
            tv.len() as int,
        ));
        assert(seeds_view(seeds@) =~= seeds_view(before).push(chunk@));
        start = start + MAX_SEED_LEN;
        assert(seeds_view(seeds@) + title_chunks(tv.subrange(start as int, tv.len() as int))
            =~= seeds_view(before) + title_chunks(rest));
    }
    let ghost before = seeds@;
    let last = copy_range(t, start, t.len());
    seeds.push(last);
    assert(seeds_view(seeds@) =~= seeds_view(before).push(last@));
    assert(seeds_view(seeds@) =~= seeds_view(before) + title_chunks(
        tv.subrange(start as int, tv.len() as int),
    ));
    seeds
}

/// The address and bump of the record of `owner` titled `title`.
pub fn derive_record_address(program_id: &[u8; 32], owner: &[u8; 32], title: &String) -> (r:
    Option<([u8; 32], u8)>)
    ensures
        match r {
            Some((a, b)) => record_address(program_id@, owner@, title@) == Some((a@, b)),
            None => record_address(program_id@, owner@, title@) is None,
        },
{
    let seeds = make_record_seeds(owner, title);
    find_program_address(&seeds, program_id)
}

} // verus!
