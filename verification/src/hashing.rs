//! A hash of a fact, computed from its tag and the bytes of its names. The
//! knowledge base files each fact under its hash, so that looking one up
//! does not mean reading them all. Equal facts have equal hashes; nothing
//! else is asked of the hash.

use crate::fact::{Fact, FactView, Gender, Name};
use vstd::prelude::*;
use vstd::utf8::encode_utf8;

verus! {

/// The hash after one more byte.
pub open spec fn step(h: u64, b: u8) -> u64 {
    (((h + b) * 1099511628211) % 0x1_0000_0000_0000_0000) as u64
}

/// The hash after a run of bytes.
pub open spec fn mix(h: u64, bytes: Seq<u8>) -> u64
    decreases bytes.len(),
{
    if bytes.len() == 0 {
        h
    } else {
        step(mix(h, bytes.drop_last()), bytes.last())
    }
}

/// The hash after a name.
pub open spec fn name_hash(h: u64, name: Name) -> u64 {
    mix(h, encode_utf8(name))
}

/// The hash after two names, with a mark between them.
pub open spec fn pair_hash(tag: u8, first: Name, second: Name) -> u64 {
    name_hash(step(name_hash(tag as u64, first), 255), second)
}

pub open spec fn gender_code(gender: Gender) -> u8 {
    match gender {
        Gender::Male => 0,
        Gender::Female => 1,
        Gender::X => 2,
    }
}

/// The hash of a fact.
pub open spec fn fact_hash(f: FactView) -> u64 {
    match f {
        FactView::Person { name, gender } => step(name_hash(0, name), gender_code(gender)),
        FactView::Parent { parent, child } => pair_hash(1, parent, child),
        FactView::Father { father, child } => pair_hash(2, father, child),
        FactView::Mother { mother, child } => pair_hash(3, mother, child),
        FactView::Sibling { a, b } => pair_hash(4, a, b),
        FactView::Uncle { uncle, nibling } => pair_hash(5, uncle, nibling),
        FactView::Cousin { a, b } => pair_hash(6, a, b),
        FactView::Nibling { nibling, relative } => pair_hash(7, nibling, relative),
        FactView::Grandson { grandson, grandparent } => pair_hash(8, grandson, grandparent),
    }
}

fn hash_step(h: u64, b: u8) -> (r: u64)
    ensures
        r == step(h, b),
{
    let wide: u128 = (h as u128 + b as u128) * 1099511628211u128;
    (wide % 0x1_0000_0000_0000_0000u128) as u64
}

fn hash_name(h: u64, name: &String) -> (r: u64)
    ensures
        r == name_hash(h, name@),
{
    let bytes = name.as_str().as_bytes();
    let mut acc: u64 = h;
    let mut i: usize = 0;
    assert(bytes@.take(0) =~= Seq::<u8>::empty());
    while i < bytes.len()
        invariant
            i <= bytes.len(),
            bytes@ == encode_utf8(name@),
            acc == mix(h, bytes@.take(i as int)),
        decreases bytes.len() - i,
    {
        assert(bytes@.take(i + 1).drop_last() =~= bytes@.take(i as int));
        acc = hash_step(acc, bytes[i]);
        i += 1;
    }
    assert(bytes@.take(bytes.len() as int) =~= bytes@);
    acc
}

fn hash_pair(tag: u8, first: &String, second: &String) -> (r: u64)
    ensures
        r == pair_hash(tag, first@, second@),
{
    hash_name(hash_step(hash_name(tag as u64, first), 255), second)
}

/// The hash of `fact`.
pub fn hash_of(fact: &Fact) -> (h: u64)
    ensures
        h == fact_hash(fact@),
{
    match fact {
        Fact::Person { name, gender } => {
            let code: u8 = match gender {
                Gender::Male => 0,
                Gender::Female => 1,
                Gender::X => 2,
            };
            hash_step(hash_name(0, name), code)
        },
        Fact::Parent { parent, child } => hash_pair(1, parent, child),
        Fact::Father { father, child } => hash_pair(2, father, child),
        Fact::Mother { mother, child } => hash_pair(3, mother, child),
        Fact::Sibling { a, b } => hash_pair(4, a, b),
        Fact::Uncle { uncle, nibling } => hash_pair(5, uncle, nibling),
        Fact::Cousin { a, b } => hash_pair(6, a, b),
        Fact::Nibling { nibling, relative } => hash_pair(7, nibling, relative),
        Fact::Grandson { grandson, grandparent } => hash_pair(8, grandson, grandparent),
    }
}

} // verus!
