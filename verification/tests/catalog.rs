//! The URL-picking rule over a catalog entry's host record.

use emote_guess::seventv::{get_emote_url, EmoteHost, EmoteHostFile};

fn host(url: &str, names: &[&str]) -> EmoteHost {
    EmoteHost {
        url: url.to_string(),
        files: names
            .iter()
            .map(|n| EmoteHostFile { name: n.to_string() })
            .collect(),
    }
}

#[test]
fn test_get_emote_url_prefers_first_gif() {
    let h = host(
        "//cdn.example/emote/abc",
        &["1x.webp", "4x.webp", "4x.gif", "4x_static.gif"],
    );
    assert_eq!(get_emote_url(h), "//cdn.example/emote/abc/4x.gif");
}

#[test]
fn test_get_emote_url_falls_back_to_first_largest() {
    let h = host("//cdn.example/emote/abc", &["2x.gif", "4x.webp", "4x.png"]);
    assert_eq!(
        get_emote_url(h),
        "https:////cdn.example/emote/abc/4x.webp"
    );
}

#[test]
fn test_get_emote_url_ignores_smaller_scales() {
    let h = host("//cdn.example/e", &["1x.gif", "4x.avif"]);
    assert_eq!(get_emote_url(h), "https:////cdn.example/e/4x.avif");
}
