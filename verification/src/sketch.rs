//! Sketches that estimate how many distinct values they have seen.
//!
//! `pdatastructs` provides them. A contract speaks of what was added to a sketch, and of the
//! numbers that it may give for that.

use crate::key::Key;
use pdatastructs::hyperloglog::HyperLogLog;
use vstd::prelude::*;

verus! {

/// A sketch of `pdatastructs`.
#[verifier::external_type_specification]
#[verifier::external_body]
#[verifier::reject_recursive_types(T)]
#[verifier::reject_recursive_types(B)]
pub struct ExHyperLogLog<T: std::hash::Hash + ?Sized, B: std::hash::BuildHasher + Clone + Eq>(
    HyperLogLog<T, B>,
);

/// What makes the hashers of a sketch.
#[verifier::external_type_specification]
#[verifier::external_body]
#[verifier::reject_recursive_types(H)]
pub struct ExBuildHasherDefault<H>(std::hash::BuildHasherDefault<H>);

/// The texts that were added to a sketch.
pub uninterp spec fn text_items(h: HyperLogLog<String>) -> Set<Seq<char>>;

/// How many bits select a register of a sketch of texts.
pub uninterp spec fn text_bits(h: HyperLogLog<String>) -> nat;

/// Whether a sketch with registers selected by `bits` bits, to which just these texts were
/// added, may give `estimate` for their number.
pub uninterp spec fn text_estimate(bits: nat, items: Set<Seq<char>>, estimate: nat) -> bool;

/// The numbers that were added to a sketch.
pub uninterp spec fn number_items(h: HyperLogLog<u32>) -> Set<u32>;

/// How many bits select a register of a sketch of numbers.
pub uninterp spec fn number_bits(h: HyperLogLog<u32>) -> nat;

/// Whether a sketch with registers selected by `bits` bits, to which just these numbers were
/// added, may give `estimate` for how many they are.
pub uninterp spec fn number_estimate(bits: nat, items: Set<u32>, estimate: nat) -> bool;

/// `HyperLogLog::new`, for texts: an empty sketch. It panics on any other number of bits.
#[verifier::external_body]
fn new_text_sketch(bits: usize) -> (h: HyperLogLog<String>)
    requires
        4 <= bits <= 18,
    ensures
        text_items(h) == Set::<Seq<char>>::empty(),
        text_bits(h) == bits,
{
    HyperLogLog::new(bits)
}

/// `HyperLogLog::add`, for texts: the sketch has seen the text too, and its size stays.
#[verifier::external_body]
fn add_text(h: &mut HyperLogLog<String>, item: &String)
    ensures
        text_items(*final(h)) == text_items(*old(h)).insert(item@),
        text_bits(*final(h)) == text_bits(*old(h)),
{
    h.add(item)
}

/// `HyperLogLog::count`, for texts: one of the numbers that a sketch of this size may give for
/// what was added to it, and zero for an empty one.
///
/// How near the number comes to the truth is left unsaid: it rests on how the hashes of the
/// texts fall, and on floating-point functions that differ between machines.
#[verifier::external_body]
fn count_texts(h: &HyperLogLog<String>) -> (n: usize)
    ensures
        text_estimate(text_bits(*h), text_items(*h), n as nat),
        text_items(*h) == Set::<Seq<char>>::empty() ==> n == 0,
{
    h.count()
}

/// `HyperLogLog::new`, for numbers: an empty sketch. It panics on any other number of bits.
#[verifier::external_body]
fn new_number_sketch(bits: usize) -> (h: HyperLogLog<u32>)
    requires
        4 <= bits <= 18,
    ensures
        number_items(h) == Set::<u32>::empty(),
        number_bits(h) == bits,
{
    HyperLogLog::new(bits)
}

/// `HyperLogLog::add`, for numbers: the sketch has seen the number too, and its size stays.
#[verifier::external_body]
fn add_number(h: &mut HyperLogLog<u32>, item: &u32)
    ensures
        number_items(*final(h)) == number_items(*old(h)).insert(*item),
        number_bits(*final(h)) == number_bits(*old(h)),
{
    h.add(item)
}

/// `HyperLogLog::count`, for numbers: one of the numbers that a sketch of this size may give for
/// what was added to it, and zero for an empty one.
///
/// How near the number comes to the truth is left unsaid, as it is for texts.
#[verifier::external_body]
fn count_numbers(h: &HyperLogLog<u32>) -> (n: usize)
    ensures
        number_estimate(number_bits(*h), number_items(*h), n as nat),
        number_items(*h) == Set::<u32>::empty() ==> n == 0,
{
    h.count()
}

/// A value whose distinct occurrences can be estimated.
pub trait Item: Key + std::hash::Hash {
    /// What was added to a sketch.
    spec fn items(h: HyperLogLog<Self>) -> Set<Self::V>;

    /// How many bits select a register of a sketch.
    spec fn bits(h: HyperLogLog<Self>) -> nat;

    /// Whether a sketch may give `estimate` for these items.
    spec fn estimate(bits: nat, items: Set<Self::V>, estimate: nat) -> bool;

    /// An empty sketch.
    fn new_sketch(bits: usize) -> (h: HyperLogLog<Self>)
        requires
            4 <= bits <= 18,
        ensures
            Self::items(h) == Set::<Self::V>::empty(),
            Self::bits(h) == bits,
    ;

    /// Adds the value to a sketch.
    fn add_to(&self, h: &mut HyperLogLog<Self>)
        ensures
            Self::items(*final(h)) == Self::items(*old(h)).insert(self@),
            Self::bits(*final(h)) == Self::bits(*old(h)),
    ;

    /// Estimates how many distinct values were added to a sketch.
    fn count_in(h: &HyperLogLog<Self>) -> (n: usize)
        ensures
            Self::estimate(Self::bits(*h), Self::items(*h), n as nat),
            Self::items(*h) == Set::<Self::V>::empty() ==> n == 0,
    ;
}

impl Item for String {
    open spec fn items(h: HyperLogLog<String>) -> Set<Seq<char>> {
        text_items(h)
    }

    open spec fn bits(h: HyperLogLog<String>) -> nat {
        text_bits(h)
    }

    open spec fn estimate(bits: nat, items: Set<Seq<char>>, estimate: nat) -> bool {
        text_estimate(bits, items, estimate)
    }

    fn new_sketch(bits: usize) -> (h: HyperLogLog<String>) {
        new_text_sketch(bits)
    }

    fn add_to(&self, h: &mut HyperLogLog<String>) {
        add_text(h, self)
    }

    fn count_in(h: &HyperLogLog<String>) -> (n: usize) {
        count_texts(h)
    }
}

impl Item for u32 {
    open spec fn items(h: HyperLogLog<u32>) -> Set<u32> {
        number_items(h)
    }

    open spec fn bits(h: HyperLogLog<u32>) -> nat {
        number_bits(h)
    }

    open spec fn estimate(bits: nat, items: Set<u32>, estimate: nat) -> bool {
        number_estimate(bits, items, estimate)
    }

    fn new_sketch(bits: usize) -> (h: HyperLogLog<u32>) {
        new_number_sketch(bits)
    }

    fn add_to(&self, h: &mut HyperLogLog<u32>) {
        add_number(h, self)
    }

    fn count_in(h: &HyperLogLog<u32>) -> (n: usize) {
        count_numbers(h)
    }
}

} // verus!
