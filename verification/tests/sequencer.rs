//! The deterministic sequencer and the masking rules, exercised end to
//! end against an independent simulation of the seeded generator.

use emote_guess::sequencer::{chars_eq, choose_random_emote, mask_guess, masked_hint, MASK_GLYPH};
use emote_guess::seventv::FinalEmote;
use rand::{Rng, SeedableRng};
use rand_chacha::ChaCha8Rng;

fn catalog() -> Vec<FinalEmote> {
    vec![
        FinalEmote {
            name: "PepeHands".to_string(),
            url: "https://cdn.example/pepehands.gif".to_string(),
        },
        FinalEmote {
            name: "KEKW".to_string(),
            url: "https://cdn.example/kekw.webp".to_string(),
        },
        FinalEmote {
            name: "monkaS".to_string(),
            url: "https://cdn.example/monkas.gif".to_string(),
        },
        FinalEmote {
            name: "LULW".to_string(),
            url: "https://cdn.example/lulw.webp".to_string(),
        },
        FinalEmote {
            name: "Sadge".to_string(),
            url: "https://cdn.example/sadge.webp".to_string(),
        },
    ]
}

fn chars(s: &str) -> Vec<char> {
    s.chars().collect()
}

#[test]
fn test_pick_is_pure() {
    let emotes = catalog();
    for seed in [0u64, 1, 42, u64::MAX] {
        for advancement in [0u32, 1, 2, 17] {
            let a = choose_random_emote(&emotes, seed, advancement);
            let b = choose_random_emote(&emotes, seed, advancement);
            assert_eq!(a.name, b.name);
            assert_eq!(a.url, b.url);
        }
    }
}

#[test]
fn test_pick_matches_independent_simulation() {
    let emotes = catalog();
    for seed in [0u64, 7, 123456789, u64::MAX - 1] {
        for advancement in [0u32, 1, 2, 3, 10] {
            // Cold-start simulation: `advancement` warm-up draws, discard,
            // then one more draw — the draw `choose` makes on a slice.
            let mut rng = ChaCha8Rng::seed_from_u64(seed);
            for _ in 0..advancement {
                let _ = rng.random_range(0..emotes.len());
            }
            let idx = rng.random_range(0..emotes.len());
            let picked = choose_random_emote(&emotes, seed, advancement);
            assert_eq!(picked.name, emotes[idx].name);
        }
    }
}

#[test]
fn test_mask_guess_reveals_matches_only() {
    let mask = mask_guess(&chars("pepehxnds"), &chars("pepehands"));
    assert_eq!(mask, chars(&format!("pepeh{}nds", MASK_GLYPH)));
}

#[test]
fn test_mask_guess_length_mismatch_is_masked() {
    let mask = mask_guess(&chars("pepe"), &chars("pepehands"));
    assert_eq!(
        mask,
        chars(&format!(
            "pepe{}{}{}{}{}",
            MASK_GLYPH, MASK_GLYPH, MASK_GLYPH, MASK_GLYPH, MASK_GLYPH
        ))
    );
    let mask2 = mask_guess(&chars("pepehandsss"), &chars("pepehands"));
    assert_eq!(mask2, chars("pepehands"));
}

#[test]
fn test_masked_hint_is_all_glyphs() {
    let hint = masked_hint(4);
    assert_eq!(hint, vec![MASK_GLYPH; 4]);
}

#[test]
fn test_chars_eq() {
    assert!(chars_eq(&chars("kekw"), &chars("kekw")));
    assert!(!chars_eq(&chars("kekw"), &chars("kek")));
    assert!(!chars_eq(&chars("kekw"), &chars("kekq")));
}
