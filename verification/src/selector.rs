//! Choosing the next episode to show: one that the rater has not seen yet,
//! at random among all of those.

use rand::distributions::IndependentSample;
use vstd::prelude::*;

use crate::errors::ErrorKind;
use crate::structs::{holds_key, EpisodeKey};

verus! {

/// The test that an episode has not been seen.
pub open spec fn is_unseen(seen: Seq<EpisodeKey>) -> spec_fn(EpisodeKey) -> bool {
    |key: EpisodeKey| !seen.contains(key)
}

/// The episodes of a catalog that have not been seen, in the order of the
/// catalog.
pub open spec fn unseen(keys: Seq<EpisodeKey>, seen: Seq<EpisodeKey>) -> Seq<EpisodeKey> {
    keys.filter(is_unseen(seen))
}

/// The episode that a draw selects: the one at the place of the draw among
/// the unseen episodes, counted round and round if the draw is too large.
/// `Exhausted` when every episode has been seen.
pub open spec fn pick(keys: Seq<EpisodeKey>, seen: Seq<EpisodeKey>, draw: nat) -> Result<
    EpisodeKey,
    ErrorKind,
> {
    let left = unseen(keys, seen);
    if left.len() == 0 {
        Err(ErrorKind::Exhausted)
    } else {
        Ok(left[(draw % left.len()) as int])
    }
}

/// An unseen episode is an episode of the catalog that has not been seen,
/// and every such episode is among the unseen ones.
pub proof fn lemma_unseen(keys: Seq<EpisodeKey>, seen: Seq<EpisodeKey>, key: EpisodeKey)
    ensures
        unseen(keys, seen).contains(key) <==> keys.contains(key) && !seen.contains(key),
{
    let left = unseen(keys, seen);
    if left.contains(key) {
        let i = choose|i: int| 0 <= i < left.len() && left[i] == key;
        keys.lemma_filter_pred(is_unseen(seen), i);
        keys.lemma_filter_contains_rev(is_unseen(seen), key);
    }
    if keys.contains(key) && !seen.contains(key) {
        let i = choose|i: int| 0 <= i < keys.len() && keys[i] == key;
        keys.lemma_filter_contains(is_unseen(seen), i);
    }
}

/// Whatever the draw, the episode picked belongs to the catalog and has not
/// been seen.
pub proof fn lemma_pick_avoids_seen(keys: Seq<EpisodeKey>, seen: Seq<EpisodeKey>, draw: nat)
    ensures
        pick(keys, seen, draw) matches Ok(key) ==> keys.contains(key) && !seen.contains(key),
{
    let left = unseen(keys, seen);
    if left.len() > 0 {
        let key = left[(draw % left.len()) as int];
        assert(left.contains(key));
        lemma_unseen(keys, seen, key);
    }
}

/// Whatever the draw, picking fails exactly when every episode of the
/// catalog has been seen, and it fails with `Exhausted`.
pub proof fn lemma_pick_exhausted(keys: Seq<EpisodeKey>, seen: Seq<EpisodeKey>, draw: nat)
    ensures
        pick(keys, seen, draw).is_err() <==> forall|i: int|
            0 <= i < keys.len() ==> seen.contains(#[trigger] keys[i]),
        pick(keys, seen, draw).is_err() ==> pick(keys, seen, draw) == Err::<EpisodeKey, ErrorKind>(
            ErrorKind::Exhausted,
        ),
{
    let left = unseen(keys, seen);
    if left.len() > 0 {
        lemma_unseen(keys, seen, left[0]);
        assert(left.contains(left[0]));
        let i = choose|i: int| 0 <= i < keys.len() && keys[i] == left[0];
        assert(!seen.contains(keys[i]));
    } else {
        assert forall|i: int| 0 <= i < keys.len() implies seen.contains(#[trigger] keys[i]) by {
            lemma_unseen(keys, seen, keys[i]);
            assert(keys.contains(keys[i]));
            if !seen.contains(keys[i]) {
                assert(left.contains(keys[i]));
            }
        }
    }
}

/// The episodes of `keys` that are not in `seen`, in the order of `keys`.
pub fn unseen_keys(keys: &Vec<EpisodeKey>, seen: &Vec<EpisodeKey>) -> (left: Vec<EpisodeKey>)
    ensures
        left@ == unseen(keys@, seen@),
{
    let mut left: Vec<EpisodeKey> = Vec::new();
    let mut i: usize = 0;
    assert(keys@.take(0) =~= Seq::<EpisodeKey>::empty());
    proof {
        keys@.take(0).lemma_filter_len(is_unseen(seen@));
    }
    while i < keys.len()
        invariant
            i <= keys.len(),
            left@ == unseen(keys@.take(i as int), seen@),
        decreases keys.len() - i,
    {
        proof {
            keys@.take(i as int).lemma_filter_push(keys@[i as int], is_unseen(seen@));
        }
        assert(keys@.take(i + 1) =~= keys@.take(i as int).push(keys@[i as int]));
        if !holds_key(seen, &keys[i]) {
            left.push(keys[i]);
        }
        i += 1;
    }
    assert(keys@.take(keys.len() as int) =~= keys@);
    left
}

/// The episode that `draw` selects among those of `keys` that are not in
/// `seen`. Fails with `Exhausted` when there is none.
pub fn pick_with(keys: &Vec<EpisodeKey>, seen: &Vec<EpisodeKey>, draw: usize) -> (r: Result<
    EpisodeKey,
    ErrorKind,
>)
    ensures
        r == pick(keys@, seen@, draw as nat),
{
    let left: Vec<EpisodeKey> = unseen_keys(keys, seen);
    if left.len() == 0 {
        Err(ErrorKind::Exhausted)
    } else {
        Ok(left[draw % left.len()])
    }
}

/// Draws a number from 0 up to, but not including, `n`. Calls
/// `rand::distributions::Range::new(0, n)`, which panics unless `0 < n`, and
/// samples it once with `ind_sample` from `rand::thread_rng()`; for integers
/// the sample lies in the range. Nothing is claimed of which number comes.
/// `thread_rng` panics on a machine that has no source of entropy.
#[verifier::external_body]
fn random_below(n: usize) -> (draw: usize)
    requires
        n > 0,
    ensures
        draw < n,
{
    rand::distributions::Range::new(0, n).ind_sample(&mut rand::thread_rng())
}

/// Picks, at random, an episode of `keys` that is not in `seen`. Every
/// unseen episode can come, and none that has been seen. Fails with
/// `Exhausted`, without drawing, when every episode has been seen.
pub fn pick_unseen(keys: &Vec<EpisodeKey>, seen: &Vec<EpisodeKey>) -> (r: Result<
    EpisodeKey,
    ErrorKind,
>)
    ensures
        exists|draw: nat| r == #[trigger] pick(keys@, seen@, draw),
        r matches Ok(key) ==> keys@.contains(key) && !seen@.contains(key),
        r matches Err(e) ==> e == ErrorKind::Exhausted,
        r.is_err() <==> forall|i: int| 0 <= i < keys@.len() ==> seen@.contains(#[trigger] keys@[i]),
{
    let left: Vec<EpisodeKey> = unseen_keys(keys, seen);
    if left.len() == 0 {
        proof {
            lemma_pick_exhausted(keys@, seen@, 0);
            assert(pick(keys@, seen@, 0) == Err::<EpisodeKey, ErrorKind>(ErrorKind::Exhausted));
        }
        Err(ErrorKind::Exhausted)
    } else {
        let draw: usize = random_below(left.len());
        proof {
            lemma_pick_avoids_seen(keys@, seen@, draw as nat);
            lemma_pick_exhausted(keys@, seen@, draw as nat);
            vstd::arithmetic::div_mod::lemma_small_mod(draw as nat, left@.len());
            assert(pick(keys@, seen@, draw as nat) == Ok::<EpisodeKey, ErrorKind>(left@[draw as int]));
        }
        Ok(left[draw])
    }
}

} // verus!
