//! Which colour stands for an author.
//!
//! An author's colour is chosen by the hash of the author's name: the hash
//! picks one of twelve palettes and one of eight shades.

use std::hash::{DefaultHasher, Hash, Hasher};
use vstd::prelude::*;
use vstd::std_specs::hash::DefaultHasherAdditionalSpecFns;

verus! {

/// The palettes to choose from, in the order in which the hash counts them.
#[derive(Clone, Copy, Debug, PartialEq, Eq)]
pub enum Palette {
    Red,
    Slate,
    Zinc,
    Amber,
    Cyan,
    Blue,
    Green,
    Indigo,
    Pink,
    Purple,
    Teal,
    Yellow,
}

/// The shades to choose from, from the lightest on.
#[derive(Clone, Copy, Debug, PartialEq, Eq)]
pub enum Shade {
    C50,
    C100,
    C200,
    C300,
    C400,
    C500,
    C600,
    C700,
}

/// The palette at place `index` of twelve.
pub open spec fn palette_at(index: int) -> Palette {
    if index == 0 {
        Palette::Red
    } else if index == 1 {
        Palette::Slate
    } else if index == 2 {
        Palette::Zinc
    } else if index == 3 {
        Palette::Amber
    } else if index == 4 {
        Palette::Cyan
    } else if index == 5 {
        Palette::Blue
    } else if index == 6 {
        Palette::Green
    } else if index == 7 {
        Palette::Indigo
    } else if index == 8 {
        Palette::Pink
    } else if index == 9 {
        Palette::Purple
    } else if index == 10 {
        Palette::Teal
    } else {
        Palette::Yellow
    }
}

/// The shade at place `index` of eight.
pub open spec fn shade_at(index: int) -> Shade {
    if index == 0 {
        Shade::C50
    } else if index == 1 {
        Shade::C100
    } else if index == 2 {
        Shade::C200
    } else if index == 3 {
        Shade::C300
    } else if index == 4 {
        Shade::C400
    } else if index == 5 {
        Shade::C500
    } else if index == 6 {
        Shade::C600
    } else {
        Shade::C700
    }
}

/// What hashing a string writes to a hasher.
pub uninterp spec fn hashed_text(text: Seq<char>) -> Seq<Seq<u8>>;

/// The hash of an author's name: what the default hasher makes of the name
/// alone.
pub open spec fn username_hash(username: Seq<char>) -> u64 {
    DefaultHasher::spec_finish(hashed_text(username))
}

/// Calls `Hash::hash` of `str` with the default hasher.
///
/// Trusted: what is written to the hasher depends on the string alone and
/// comes after what the hasher was given before.
#[verifier::external_body]
fn hash_text(text: &str, hasher: &mut DefaultHasher)
    ensures
        final(hasher)@ == old(hasher)@ + hashed_text(text@),
{
    text.hash(hasher);
}

/// The hash of an author's name.
pub fn hash_username(username: &str) -> (hash: u64)
    ensures
        hash == username_hash(username@),
{
    let mut hasher = DefaultHasher::new();
    hash_text(username, &mut hasher);
    assert(hasher@ =~= hashed_text(username@));
    hasher.finish()
}

/// The palette and the shade that a hash picks: those at the places that the
/// hash, as a `usize`, has modulo twelve and modulo eight.
pub open spec fn color_of(hash: u64) -> (Palette, Shade) {
    (palette_at(((hash as usize) % 12) as int), shade_at(((hash as usize) % 8) as int))
}

/// The palette and the shade that a hash picks.
pub fn color_of_hash(hash: u64) -> (color: (Palette, Shade))
    ensures
        color == color_of(hash),
{
    let palettes = [
        Palette::Red,
        Palette::Slate,
        Palette::Zinc,
        Palette::Amber,
        Palette::Cyan,
        Palette::Blue,
        Palette::Green,
        Palette::Indigo,
        Palette::Pink,
        Palette::Purple,
        Palette::Teal,
        Palette::Yellow,
    ];
    let shades = [
        Shade::C50,
        Shade::C100,
        Shade::C200,
        Shade::C300,
        Shade::C400,
        Shade::C500,
        Shade::C600,
        Shade::C700,
    ];
    let palette_index: usize = (#[verifier::truncate] (hash as usize)) % 12;
    let color_index: usize = (#[verifier::truncate] (hash as usize)) % 8;
    (palettes[palette_index], shades[color_index])
}

/// The palette and the shade that stand for an author.
pub fn assign_color(username: &str) -> (color: (Palette, Shade))
    ensures
        color == color_of(username_hash(username@)),
{
    color_of_hash(hash_username(username))
}

} // verus!
