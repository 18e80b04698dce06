use commit_race::palette::{assign_color, color_of_hash, hash_username, Palette, Shade};
use std::hash::{DefaultHasher, Hash, Hasher};

fn hashed(name: &str) -> u64 {
    let mut hasher = DefaultHasher::new();
    name.hash(&mut hasher);
    hasher.finish()
}

#[test]
fn the_hash_of_a_name_is_that_of_the_default_hasher() {
    assert_eq!(hash_username("octocat"), hashed("octocat"));
    assert_eq!(hash_username(""), hashed(""));
    assert_ne!(hash_username("octocat"), hash_username("octobot"));
    assert_ne!(hash_username("octocat"), DefaultHasher::new().finish());
    assert_eq!(hash_username("octocat"), hash_username("octocat"));
}

#[test]
fn a_hash_picks_its_palette_modulo_twelve_and_its_shade_modulo_eight() {
    assert_eq!(color_of_hash(0), (Palette::Red, Shade::C50));
    assert_eq!(color_of_hash(1), (Palette::Slate, Shade::C100));
    assert_eq!(color_of_hash(7), (Palette::Indigo, Shade::C700));
    assert_eq!(color_of_hash(8), (Palette::Pink, Shade::C50));
    assert_eq!(color_of_hash(11), (Palette::Yellow, Shade::C300));
    assert_eq!(color_of_hash(12), (Palette::Red, Shade::C400));
    assert_eq!(color_of_hash(13), (Palette::Slate, Shade::C500));
    assert_eq!(color_of_hash(22), (Palette::Teal, Shade::C600));
    assert_eq!(color_of_hash(26), (Palette::Zinc, Shade::C200));
    assert_eq!(color_of_hash(27), (Palette::Amber, Shade::C300));
    assert_eq!(color_of_hash(28), (Palette::Cyan, Shade::C400));
    assert_eq!(color_of_hash(29), (Palette::Blue, Shade::C500));
    assert_eq!(color_of_hash(30), (Palette::Green, Shade::C600));
    assert_eq!(color_of_hash(33), (Palette::Purple, Shade::C100));
}

#[test]
fn an_author_keeps_its_colour() {
    assert_eq!(assign_color("octocat"), color_of_hash(hashed("octocat")));
    assert_eq!(assign_color("octocat"), assign_color("octocat"));
}
