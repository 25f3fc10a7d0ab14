//! The deterministic emote sequencer and the guess-masking rules.
//!
//! A room's emote sequence is a replayable function of its fixed 64-bit
//! seed: the draw after `advancement` warm-up draws is named by
//! [`seeded_choice`], and every transition's contract speaks of that name.
//! Guesses are compared case-insensitively, character by character, against
//! the target name; non-matching positions show a fixed mask glyph.

use vstd::prelude::*;

use crate::seventv::FinalEmote;

verus! {

/// The glyph shown at every position of an emote name that the guess did
/// not reveal.
pub const MASK_GLYPH: char = '\u{0DAC}';

/// The index drawn from a pseudorandom generator seeded with `seed`, over a
/// catalog of `n` items, after `advancement` warm-up draws (each drawing
/// and discarding one index of the same range).  A pure function of its
/// arguments: the generator's stream is fully determined by the seed.
pub uninterp spec fn seeded_choice(seed: u64, n: int, advancement: int) -> int;

/// What case-folding makes of a character sequence.
pub uninterp spec fn lower_of(s: Seq<char>) -> Seq<char>;

/// Relies on rand_chacha's `ChaCha8Rng`, whose stream is fully determined
/// by the 64-bit seed, and on rand's `Rng::random_range` — the same draw
/// that `IndexedRandom::choose` makes on a slice of length `n`.  Each
/// warm-up draw consumes generator state that depends only on `n`, so the
/// result is a function of `(seed, n, advancement)` alone.
#[verifier::external_body]
fn seeded_index(seed: u64, n: usize, advancement: u32) -> (r: usize)
    requires
        n > 0,
    ensures
        r < n,
        r == seeded_choice(seed, n as int, advancement as int),
{
    let mut rng = <rand_chacha::ChaCha8Rng as rand::SeedableRng>::seed_from_u64(seed);
    for _ in 0..advancement {
        let _ = rand::Rng::random_range(&mut rng, 0..n);
    }
    rand::Rng::random_range(&mut rng, 0..n)
}

/// The target emote for a member whose advancement counter is
/// `emote_index`: "wastes" `emote_index` draws, then takes the next one.
/// Replayable: the same `(seed, catalog, emote_index)` always picks the
/// same entry.
pub fn choose_random_emote<'a>(
    emotes: &'a Vec<FinalEmote>,
    seed: u64,
    emote_index: u32,
) -> (r: &'a FinalEmote)
    requires
        emotes@.len() > 0,
    ensures
        0 <= seeded_choice(seed, emotes@.len() as int, emote_index as int) < emotes@.len(),
        *r == emotes@[seeded_choice(seed, emotes@.len() as int, emote_index as int)],
{
    let idx = seeded_index(seed, emotes.len(), emote_index);
    &emotes[idx]
}

/// Relies on `str::to_lowercase`: the result depends on the characters
/// alone.
#[verifier::external_body]
pub(crate) fn lowercase_chars(s: &str) -> (r: Vec<char>)
    ensures
        r@ == lower_of(s@),
{
    s.to_lowercase().chars().collect()
}

/// Relies on `String`'s `FromIterator` over `char`: collecting yields
/// exactly the collected characters.
#[verifier::external_body]
pub(crate) fn string_from_chars(cs: &Vec<char>) -> (r: String)
    ensures
        r@ == cs@,
{
    cs.iter().copied().collect()
}

/// The masked comparison of a guess against a target: matching positions
/// reveal the target's character, all others (length mismatches included)
/// show the mask glyph.  Both sides are expected already case-folded.
pub open spec fn masked(guess: Seq<char>, target: Seq<char>) -> Seq<char> {
    Seq::new(
        target.len(),
        |i: int|
            if 0 <= i < guess.len() && guess[i] == target[i] {
                target[i]
            } else {
                MASK_GLYPH
            },
    )
}

/// A hint of `n` positions with nothing revealed yet.
pub open spec fn all_masked(n: nat) -> Seq<char> {
    Seq::new(n, |i: int| MASK_GLYPH)
}

/// Exact full-string equality of the case-folded guess and target is what
/// counts as a correct guess.
pub open spec fn guess_matches(guess: Seq<char>, target_name: Seq<char>) -> bool {
    lower_of(guess) == lower_of(target_name)
}

/// Builds the masked comparison of [`masked`].
pub fn mask_guess(guess: &Vec<char>, target: &Vec<char>) -> (r: Vec<char>)
    ensures
        r@ == masked(guess@, target@),
{
    let mut r: Vec<char> = Vec::new();
    let mut i: usize = 0;
    while i < target.len()
        invariant
            i <= target@.len(),
            r@ == masked(guess@, target@).take(i as int),
        decreases target@.len() - i,
    {
        if i < guess.len() && guess[i] == target[i] {
            r.push(target[i]);
        } else {
            r.push(MASK_GLYPH);
        }
        proof {
            assert(r@ =~= masked(guess@, target@).take(i + 1));
        }
        i = i + 1;
    }
    proof {
        assert(r@ =~= masked(guess@, target@));
    }
    r
}

/// A hint string of `n` mask glyphs.
pub fn masked_hint(n: usize) -> (r: Vec<char>)
    ensures
        r@ == all_masked(n as nat),
{
    let mut r: Vec<char> = Vec::new();
    let mut i: usize = 0;
    while i < n
        invariant
            i <= n,
            r@ == all_masked(i as nat),
        decreases n - i,
    {
        r.push(MASK_GLYPH);
        proof {
            assert(r@ =~= all_masked((i + 1) as nat));
        }
        i = i + 1;
    }
    r
}

/// Element-wise equality of two character vectors.
pub fn chars_eq(a: &Vec<char>, b: &Vec<char>) -> (r: bool)
    ensures
        r == (a@ == b@),
{
    if a.len() != b.len() {
        return false;
    }
    let mut i: usize = 0;
    while i < a.len()
        invariant
            i <= a@.len(),
            a@.len() == b@.len(),
            forall|j: int| 0 <= j < i ==> a@[j] == b@[j],
        decreases a@.len() - i,
    {
        if a[i] != b[i] {
            return false;
        }
        i = i + 1;
    }
    proof {
        assert(a@ =~= b@);
    }
    true
}

} // verus!
