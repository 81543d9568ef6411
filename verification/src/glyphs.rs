//! The glyph atlas of a font at one pixel size: each character drawn once is
//! packed into a square texture, and found there again afterwards.

use rect_packer::Packer;
use std::collections::HashMap;
use vstd::prelude::*;

verus! {

#[verifier::external_type_specification]
#[verifier::external_body]
pub struct ExPacker(rect_packer::Packer);

/// The configuration a packer was made with: width, height, border padding
/// and padding between rectangles (`rect_packer` keeps it unchanged, and hands
/// it back from `Packer::config`).
pub uninterp spec fn packer_config(packer: Packer) -> (i32, i32, i32, i32);

/// Where a packer in its present state places a `width` by `height`
/// rectangle without rotation (`rect_packer::Packer::pack`): its position and
/// size, or `None` when it has no room. It depends only on the packer's state
/// and the size asked for.
pub uninterp spec fn pack_outcome(packer: Packer, width: i32, height: i32) -> Option<(i32, i32, i32, i32)>;

/// The room a packer places rectangles in along one side: its extent, plus
/// the padding between rectangles, less the border on both sides (never
/// below zero).
pub open spec fn packing_room(extent: int, border: int, padding: int) -> int {
    if extent + padding - 2 * border > 0 {
        extent + padding - 2 * border
    } else {
        0
    }
}

/// Calls `rect_packer::Packer::new` with the given configuration, which the
/// packer keeps (the sizes it derives from it must not overflow).
#[verifier::external_body]
fn new_packer(width: i32, height: i32, border_padding: i32, rectangle_padding: i32) -> (packer: Packer)
    requires
        i32::MIN <= 2 * border_padding <= i32::MAX,
        i32::MIN <= width + rectangle_padding <= i32::MAX,
        i32::MIN <= height + rectangle_padding <= i32::MAX,
        i32::MIN <= width + rectangle_padding - 2 * border_padding <= i32::MAX,
        i32::MIN <= height + rectangle_padding - 2 * border_padding <= i32::MAX,
    ensures
        packer_config(packer) == (width, height, border_padding, rectangle_padding),
{
    Packer::new(rect_packer::Config { width, height, border_padding, rectangle_padding })
}

/// Calls `rect_packer::Packer::pack` without rotation, whose answer is
/// `pack_outcome` of the packer and the size. As its source shows: nothing is
/// placed for an empty size; a placed rectangle has the size asked for and
/// lies, with the padding after it, within the packing room shifted by the
/// border; the configuration does not change. Which position the skyline
/// search picks, and that it overlaps nothing placed before, is not stated.
#[verifier::external_body]
fn pack_rectangle(packer: &mut Packer, width: i32, height: i32) -> (placed: Option<(i32, i32, i32, i32)>)
    requires
        ({
            let (w, h, border, padding) = packer_config(*old(packer));
            &&& 0 <= border
            &&& 0 <= padding
            &&& 0 <= w
            &&& 0 <= h
            &&& w + 2 * padding + width <= i32::MAX
            &&& h + 2 * padding + height <= i32::MAX
        }),
    ensures
        placed == pack_outcome(*old(packer), width, height),
        packer_config(*final(packer)) == packer_config(*old(packer)),
        (width <= 0 || height <= 0) ==> placed is None,
        ({
            let (w, h, border, padding) = packer_config(*old(packer));
            placed matches Some((x, y, pw, ph)) ==> {
                &&& pw == width
                &&& ph == height
                &&& border <= x
                &&& x + width + padding <= packing_room(w as int, border as int, padding as int) + border
                &&& border <= y
                &&& y + height + padding <= packing_room(h as int, border as int, padding as int) + border
            }
        }),
{
    match packer.pack(width, height, false) {
        Some(rect) => Some((rect.x, rect.y, rect.width, rect.height)),
        None => None,
    }
}

/// Side of the square atlas texture, in pixels.
pub const ATLAS_SIZE: u32 = 1024;

/// Largest glyph side the atlas is asked to place.
pub const MAX_GLYPH_SIDE: usize = 0x7fff_f000;

/// Where a glyph lies in the atlas, in pixels; an empty glyph has no area.
#[derive(Clone, Copy, Debug, PartialEq, Eq, Structural)]
pub struct GlyphRect {
    pub x: u32,
    pub y: u32,
    pub width: u32,
    pub height: u32,
}

pub open spec fn empty_glyph() -> GlyphRect {
    GlyphRect { x: 0, y: 0, width: 0, height: 0 }
}

/// The rectangle lies within the atlas.
pub open spec fn in_atlas(rect: GlyphRect) -> bool {
    rect.x + rect.width <= ATLAS_SIZE && rect.y + rect.height <= ATLAS_SIZE
}

/// What placing a character came to.
#[derive(Clone, Copy, Debug, PartialEq, Eq, Structural)]
pub enum Placement {
    /// The character draws nothing (white space): it is kept with no area.
    Empty,
    /// The character's bitmap goes at this place of the atlas texture.
    Packed(GlyphRect),
    /// The atlas has no room left for it; nothing is kept.
    Full,
}

/// The glyphs of one font at one pixel size, packed into one atlas texture.
/// Characters are keyed by their code point.
pub struct GlyphAtlas {
    pub px: u32,
    pub packer: Packer,
    pub characters: HashMap<u32, GlyphRect>,
}

impl GlyphAtlas {
    /// The packer fills the whole atlas without padding, and every glyph kept
    /// lies within the atlas.
    pub open spec fn wf(&self) -> bool {
        &&& packer_config(self.packer) == (ATLAS_SIZE as i32, ATLAS_SIZE as i32, 0i32, 0i32)
        &&& forall|c: u32| #[trigger] self.characters@.contains_key(c) ==> in_atlas(self.characters@[c])
    }

    /// An empty atlas for glyphs of `px` pixels.
    pub fn new(px: u32) -> (atlas: Self)
        ensures
            atlas.wf(),
            atlas.px == px,
            atlas.characters@ == Map::<u32, GlyphRect>::empty(),
    {
        let packer = new_packer(ATLAS_SIZE as i32, ATLAS_SIZE as i32, 0, 0);
        GlyphAtlas { px, packer, characters: HashMap::new() }
    }

    /// Whether `character` was placed already.
    pub fn contains(&self, character: char) -> (found: bool)
        ensures
            found == self.characters@.contains_key(character as u32),
    {
        broadcast use vstd::std_specs::hash::group_hash_axioms;
        self.characters.contains_key(&(character as u32))
    }

    /// Where `character` was placed, if it was.
    pub fn get(&self, character: char) -> (rect: Option<GlyphRect>)
        ensures
            rect == if self.characters@.contains_key(character as u32) {
                Some(self.characters@[character as u32])
            } else {
                None
            },
    {
        broadcast use vstd::std_specs::hash::group_hash_axioms;
        match self.characters.get(&(character as u32)) {
            Some(rect) => Some(*rect),
            None => None,
        }
    }

    /// Places `character`, whose bitmap is `width` by `height` pixels and
    /// `bitmap_len` bytes long: a glyph without area or bytes is kept empty;
    /// any other is packed into the atlas and kept there, unless no room is
    /// left.
    pub fn place_character(&mut self, character: char, width: usize, height: usize, bitmap_len: usize) -> (placement: Placement)
        requires
            old(self).wf(),
            width <= MAX_GLYPH_SIDE,
            height <= MAX_GLYPH_SIDE,
        ensures
            final(self).wf(),
            final(self).px == old(self).px,
            (width == 0 || height == 0 || bitmap_len == 0) ==> placement == Placement::Empty,
            (width > 0 && height > 0 && bitmap_len > 0) ==> match pack_outcome(
                old(self).packer,
                width as i32,
                height as i32,
            ) {
                Some((x, y, _, _)) => placement == Placement::Packed(
                    GlyphRect { x: x as u32, y: y as u32, width: width as u32, height: height as u32 },
                ),
                None => placement == Placement::Full,
            },
            match placement {
                Placement::Empty => (width == 0 || height == 0 || bitmap_len == 0) && final(self).characters@
                    == old(self).characters@.insert(character as u32, empty_glyph()),
                Placement::Packed(rect) => width > 0 && height > 0 && bitmap_len > 0 && rect.width == width
                    && rect.height == height && in_atlas(rect) && final(self).characters@
                    == old(self).characters@.insert(character as u32, rect),
                Placement::Full => width > 0 && height > 0 && bitmap_len > 0 && final(self).characters@
                    == old(self).characters@,
            },
    {
        broadcast use vstd::std_specs::hash::group_hash_axioms;
        let key = character as u32;
        if width == 0 || height == 0 || bitmap_len == 0 {
            self.characters.insert(key, GlyphRect { x: 0, y: 0, width: 0, height: 0 });
            return Placement::Empty;
        }
        let packed = pack_rectangle(&mut self.packer, width as i32, height as i32);
        match packed {
            Some((x, y, packed_width, packed_height)) => {
                let rect = GlyphRect {
                    x: x as u32,
                    y: y as u32,
                    width: packed_width as u32,
                    height: packed_height as u32,
                };
                self.characters.insert(key, rect);
                Placement::Packed(rect)
            },
            None => Placement::Full,
        }
    }
}

/// A glyph placed in the atlas is found there afterwards, where it was placed,
/// and placing it disturbs no other character.
pub proof fn law_placed_glyph_is_found(characters: Map<u32, GlyphRect>, key: u32, rect: GlyphRect, other: u32)
    requires
        other != key,
    ensures
        characters.insert(key, rect).contains_key(key),
        characters.insert(key, rect)[key] == rect,
        characters.insert(key, rect).contains_key(other) == characters.contains_key(other),
        characters.contains_key(other) ==> characters.insert(key, rect)[other] == characters[other],
{
}

} // verus!
