//! Drawing a bounded random sample of addresses.

use vstd::prelude::*;
use vstd::seq_lib::{lemma_multiset_commutative, to_multiset_len};

verus! {

/// The strings of a list, each as the characters it holds.
pub open spec fn texts(strings: Seq<String>) -> Seq<Seq<char>> {
    strings.map_values(|s: String| s@)
}

/// `picked` is a draw of `n` items from `pool` without replacement, or the
/// whole pool in some order where it holds no more than `n`: it has the
/// length of such a draw and takes no item more often than the pool has it.
pub open spec fn drawn_from(picked: Seq<Seq<char>>, pool: Seq<Seq<char>>, n: nat) -> bool {
    &&& picked.len() == if n <= pool.len() {
        n
    } else {
        pool.len()
    }
    &&& picked.to_multiset().subset_of(pool.to_multiset())
}

/// `rand::rngs::ThreadRng`, a handle to a thread's random number generator,
/// carried as it is.
#[verifier::external_type_specification]
#[verifier::external_body]
pub struct ExThreadRng(rand::rngs::ThreadRng);

/// `rand::thread_rng`: the random number generator of the calling thread.
/// Nothing is claimed of it.
#[verifier::external_body]
fn thread_generator() -> (rng: rand::rngs::ThreadRng) {
    rand::thread_rng()
}

/// `rand::seq::SliceRandom::shuffle` on the strings of a list: reorders the
/// list in place by a run of swaps, so the list afterwards holds the same
/// strings, each as often as before. Which order comes out is left open.
#[verifier::external_body]
fn shuffle(items: &mut Vec<String>, rng: &mut rand::rngs::ThreadRng)
    ensures
        texts(final(items)@).to_multiset() == texts(old(items)@).to_multiset(),
{
    rand::seq::SliceRandom::shuffle(items.as_mut_slice(), rng);
}

/// Whether `needle` is one of `list`.
pub fn contains_string(list: &Vec<String>, needle: &String) -> (found: bool)
    ensures
        found == texts(list@).contains(needle@),
{
    let mut i: usize = 0;
    while i < list.len()
        invariant
            i <= list.len(),
            forall|j: int| 0 <= j < i ==> list@[j]@ != needle@,
        decreases list.len() - i,
    {
        if list[i] == *needle {
            assert(texts(list@)[i as int] == needle@);
            return true;
        }
        i += 1;
    }
    false
}

/// The first `n` of `items`, or all of them where there are fewer.
pub fn first_n(items: Vec<String>, n: usize) -> (kept: Vec<String>)
    ensures
        kept@ == items@.take(
            if n <= items.len() {
                n as int
            } else {
                items.len() as int
            },
        ),
{
    let mut kept = items;
    kept.truncate(n);
    kept
}

/// Up to `n` of the strings of `a`, chosen at random: `a` is shuffled and cut
/// after the first `n`.
pub fn select_random_n_strings(a: Vec<String>, n: usize) -> (picked: Vec<String>)
    ensures
        drawn_from(texts(picked@), texts(a@), n as nat),
{
    let mut shuffled = a;
    let mut rng = thread_generator();
    shuffle(&mut shuffled, &mut rng);
    let ghost whole = texts(shuffled@);
    let picked = first_n(shuffled, n);
    proof {
        let k = picked@.len() as int;
        to_multiset_len(whole);
        to_multiset_len(texts(a@));
        assert(texts(picked@) =~= whole.take(k));
        assert(whole =~= whole.take(k) + whole.skip(k));
        lemma_multiset_commutative(whole.take(k), whole.skip(k));
    }
    picked
}

} // verus!
