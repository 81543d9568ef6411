//! Renderer bookkeeping that does not touch the GPU: sizes, row padding of
//! texture read-backs, image decoding, the index buffer of rectangles,
//! tile-set indexing, texture reference counting and the batching of draw
//! calls.

use std::collections::HashMap;
use vstd::prelude::*;

verus! {

/// A size in pixels.
#[derive(Clone, Copy, Debug, PartialEq, Eq, Structural)]
pub struct SizeInPx {
    pub width: u32,
    pub height: u32,
}

impl SizeInPx {
    pub fn new(width: u32, height: u32) -> (size: Self)
        ensures
            size == (SizeInPx { width, height }),
    {
        Self { width, height }
    }
}

impl From<(u32, u32)> for SizeInPx {
    fn from(size: (u32, u32)) -> (converted: Self) {
        Self { width: size.0, height: size.1 }
    }
}

impl vstd::std_specs::convert::FromSpecImpl<(u32, u32)> for SizeInPx {
    open spec fn obeys_from_spec() -> bool {
        true
    }

    open spec fn from_spec(size: (u32, u32)) -> SizeInPx {
        SizeInPx { width: size.0, height: size.1 }
    }
}

/// A size in pixels, as the earlier canvas names it.
#[derive(Clone, Copy, Debug, PartialEq, Eq, Structural)]
pub struct Size {
    pub width: u32,
    pub height: u32,
}

impl From<(u32, u32)> for Size {
    fn from(size: (u32, u32)) -> (converted: Self) {
        Self { width: size.0, height: size.1 }
    }
}

impl vstd::std_specs::convert::FromSpecImpl<(u32, u32)> for Size {
    open spec fn obeys_from_spec() -> bool {
        true
    }

    open spec fn from_spec(size: (u32, u32)) -> Size {
        Size { width: size.0, height: size.1 }
    }
}

/// Where the canvas puts the origin of its coordinates.
#[derive(Clone, Copy, Debug, PartialEq, Eq, Structural)]
pub enum CanvasZero {
    TopLeft,
    Centered,
}

/// Which of a rectangle's four corners (left-top, left-bottom, right-bottom,
/// right-top) each of the six indices of its two triangles names.
pub open spec fn corner_of_index(i: int) -> int {
    let r = i % 6;
    if r == 0 || r == 5 {
        0
    } else if r == 1 {
        1
    } else if r == 4 {
        3
    } else {
        2
    }
}

/// The index buffer that draws `rect_count` rectangles whose corners lie
/// four by four in the vertex buffer: two triangles, `0 1 2` and `2 3 0`,
/// over the corners of each rectangle.
pub fn rectangle_indices(rect_count: usize) -> (indices: Vec<u16>)
    requires
        rect_count * 4 <= u16::MAX + 1,
    ensures
        indices@.len() == rect_count * 6,
        forall|i: int|
            0 <= i < indices@.len() ==> #[trigger] indices@[i] == 4 * (i / 6) + corner_of_index(i),
{
    let mut indices: Vec<u16> = Vec::with_capacity(rect_count * 6);
    let mut index: usize = 0;
    while index < rect_count
        invariant
            rect_count * 4 <= u16::MAX + 1,
            index <= rect_count,
            indices@.len() == index * 6,
            forall|i: int|
                0 <= i < indices@.len() ==> #[trigger] indices@[i] == 4 * (i / 6) + corner_of_index(i),
        decreases rect_count - index,
    {
        let step: u16 = (index * 4) as u16;
        let ghost start = indices@.len() as int;
        indices.push(step);
        indices.push(step + 1);
        indices.push(step + 2);
        indices.push(step + 2);
        indices.push(step + 3);
        indices.push(step);
        proof {
            assert forall|i: int| start <= i < start + 6 implies #[trigger] indices@[i] == 4 * (i / 6)
                + corner_of_index(i) by {
                assert(i / 6 == index as int && i % 6 == i - start);
            }
        }
        index = index + 1;
    }
    indices
}

/// Bytes per row when a texture of `width` RGBA pixels is copied to a buffer:
/// rows are padded to a multiple of 256 bytes.
pub open spec fn padded_row_spec(width: int) -> int {
    let bytes_per_row = width * 4;
    bytes_per_row + (256 - bytes_per_row % 256) % 256
}

pub fn padded_bytes_per_row(width: u32) -> (padded: usize)
    requires
        width as int * 4 + 255 <= usize::MAX,
    ensures
        padded == padded_row_spec(width as int),
        padded % 256 == 0,
        width * 4 <= padded < width * 4 + 256,
{
    let bytes_per_row = width as usize * 4;
    let padding = (256 - bytes_per_row % 256) % 256;
    bytes_per_row + padding
}

/// The pixels of a `width` by `height` RGBA image read back with rows padded
/// to `padded_row_spec(width)` bytes: each row's first `4 * width` bytes, in
/// order. Rows missing from `padded` stay zero.
pub fn unpad_texture_rows(padded: &[u8], width: u32, height: u32) -> (pixels: Vec<u8>)
    requires
        0 < width,
        width * height * 4 <= u32::MAX,
        width * 4 <= u32::MAX,
        width as int * 4 + 255 <= usize::MAX,
    ensures
        pixels@.len() == width * height * 4,
        forall|row: int, column: int|
            0 <= row < height && 0 <= column < width * 4 ==> #[trigger] pixels@[row * (width * 4) + column] == if (row
                + 1) * padded_row_spec(width as int) <= padded@.len() {
                padded@[row * padded_row_spec(width as int) + column]
            } else {
                0u8
            },
{
    let padded_bytes_per_row = padded_bytes_per_row(width);
    let unpadded_bytes_per_row = width as usize * 4;
    let pixel_count = (width * height * 4) as usize;
    let total = padded.len();
    let rows_available = total / padded_bytes_per_row;
    let mut pixels: Vec<u8> = Vec::with_capacity(pixel_count);
    let mut row: usize = 0;
    let ghost w4 = width * 4;
    let ghost p = padded_row_spec(width as int);
    while row < height as usize
        invariant
            0 < width,
            width * height * 4 <= u32::MAX,
            w4 == width * 4,
            p == padded_row_spec(width as int),
            padded_bytes_per_row == p,
            unpadded_bytes_per_row == w4,
            p >= w4,
            p > 0,
            rows_available == padded@.len() as int / p,
            total == padded@.len(),
            row <= height,
            pixels@.len() == row * w4,
            forall|r: int, c: int|
                0 <= r < row && 0 <= c < w4 ==> #[trigger] pixels@[r * w4 + c] == if (r + 1) * p <= padded@.len() {
                    padded@[r * p + c]
                } else {
                    0u8
                },
        decreases height - row,
    {
        proof {
            assert(row * w4 + w4 <= width * height * 4) by (nonlinear_arith)
                requires
                    row < height,
                    w4 == width * 4,
            ;
        }
        let row_present = row < rows_available;
        proof {
            vstd::arithmetic::div_mod::lemma_fundamental_div_mod(padded@.len() as int, p);
            let q = padded@.len() as int / p;
            let len = padded@.len() as int;
            assert(row_present == ((row + 1) * p <= len)) by (nonlinear_arith)
                requires
                    p > 0,
                    len == p * q + len % p,
                    0 <= len % p < p,
                    row_present == (row < q),
                    0 <= row,
            ;
        }
        let ghost row_start = pixels@.len();
        let mut column: usize = 0;
        while column < unpadded_bytes_per_row
            invariant
                w4 == width * 4,
                unpadded_bytes_per_row == w4,
                padded_bytes_per_row == p,
                p >= w4,
                p > 0,
                row < height,
                row_start == row * w4,
                row * w4 + w4 <= width * height * 4,
                width * height * 4 <= u32::MAX,
                row_present == ((row + 1) * p <= padded@.len()),
                total == padded@.len(),
                column <= w4,
                pixels@.len() == row_start + column,
                forall|r: int, c: int|
                    0 <= r < row && 0 <= c < w4 ==> #[trigger] pixels@[r * w4 + c] == if (r + 1) * p <= padded@.len() {
                        padded@[r * p + c]
                    } else {
                        0u8
                    },
                forall|c: int|
                    0 <= c < column ==> #[trigger] pixels@[row_start + c] == if row_present {
                        padded@[row * p + c]
                    } else {
                        0u8
                    },
            decreases w4 - column,
        {
            let value = if row_present {
                proof {
                    assert(row * p + column < padded@.len()) by (nonlinear_arith)
                        requires
                            (row + 1) * p <= padded@.len(),
                            column < w4,
                            w4 <= p,
                    ;
                    assert(row * p <= row * p + column);
                    assert((row as int) * (padded_bytes_per_row as int) + (column as int) < padded@.len());
                }
                padded[row * padded_bytes_per_row + column]
            } else {
                0u8
            };
            let ghost before = pixels@;
            pixels.push(value);
            proof {
                assert forall|r: int, c: int| 0 <= r < row && 0 <= c < w4 implies #[trigger] pixels@[r * w4 + c]
                    == if (r + 1) * p <= padded@.len() {
                    padded@[r * p + c]
                } else {
                    0u8
                } by {
                    assert(r * w4 + c < row * w4) by (nonlinear_arith)
                        requires
                            0 <= r < row,
                            0 <= c < w4,
                    ;
                    assert(pixels@[r * w4 + c] == before[r * w4 + c]);
                }
            }
            column = column + 1;
        }
        proof {
            assert forall|r: int, c: int| 0 <= r < row + 1 && 0 <= c < w4 implies #[trigger] pixels@[r * w4 + c]
                == if (r + 1) * p <= padded@.len() {
                padded@[r * p + c]
            } else {
                0u8
            } by {
                if r == row {
                    assert(pixels@[row_start + c] == pixels@[r * w4 + c]);
                }
            }
            assert((row + 1) * w4 == row * w4 + w4) by (nonlinear_arith);
        }
        row = row + 1;
    }
    proof {
        assert(height * w4 == width * height * 4) by (nonlinear_arith)
            requires
                w4 == width * 4,
        ;
    }
    pixels
}

/// `bytes` with the first and third byte of every whole four-byte pixel
/// swapped; a trailing partial pixel is left alone.
pub open spec fn swap_red_blue(bytes: Seq<u8>) -> Seq<u8> {
    Seq::new(
        bytes.len(),
        |i: int|
            if i >= bytes.len() - bytes.len() % 4 {
                bytes[i]
            } else if i % 4 == 0 {
                bytes[i + 2]
            } else if i % 4 == 2 {
                bytes[i - 2]
            } else {
                bytes[i]
            },
    )
}

/// Swapping red and blue twice gives back the pixels it started from.
pub proof fn law_swap_red_blue_involution(bytes: Seq<u8>)
    ensures
        swap_red_blue(swap_red_blue(bytes)) == bytes,
{
    let once = swap_red_blue(bytes);
    let twice = swap_red_blue(once);
    assert forall|i: int| 0 <= i < bytes.len() implies twice[i] == bytes[i] by {
        let whole = bytes.len() - bytes.len() % 4;
        assert(whole % 4 == 0);
        if i < whole {
            if i % 4 == 0 {
                assert((i + 2) % 4 == 2);
                assert(i + 2 < whole);
            } else if i % 4 == 2 {
                assert((i - 2) % 4 == 0);
            }
        }
    }
    assert(twice =~= bytes);
}

/// Swaps the blue and red bytes of every whole four-byte pixel, turning BGRA
/// pixels into RGBA ones.
pub fn bgra_to_rgba(pixels: &mut Vec<u8>)
    ensures
        final(pixels)@ == swap_red_blue(old(pixels)@),
{
    let whole = pixels.len() - pixels.len() % 4;
    let mut start: usize = 0;
    while start < whole
        invariant
            whole == old(pixels)@.len() - old(pixels)@.len() % 4,
            whole % 4 == 0,
            start % 4 == 0,
            start <= whole,
            pixels@.len() == old(pixels)@.len(),
            forall|i: int|
                0 <= i < old(pixels)@.len() ==> #[trigger] pixels@[i] == if i >= start {
                    old(pixels)@[i]
                } else if i % 4 == 0 {
                    old(pixels)@[i + 2]
                } else if i % 4 == 2 {
                    old(pixels)@[i - 2]
                } else {
                    old(pixels)@[i]
                },
        decreases whole - start,
    {
        let ghost before = pixels@;
        let blue = pixels[start];
        let red = pixels[start + 2];
        pixels.set(start, red);
        pixels.set(start + 2, blue);
        proof {
            let s = start as int;
            assert((s + 1) % 4 == 1 && (s + 2) % 4 == 2 && (s + 3) % 4 == 3);
            assert forall|i: int| 0 <= i < old(pixels)@.len() implies #[trigger] pixels@[i] == if i >= s + 4 {
                old(pixels)@[i]
            } else if i % 4 == 0 {
                old(pixels)@[i + 2]
            } else if i % 4 == 2 {
                old(pixels)@[i - 2]
            } else {
                old(pixels)@[i]
            } by {
                assert(before[i] == if i >= s {
                    old(pixels)@[i]
                } else if i % 4 == 0 {
                    old(pixels)@[i + 2]
                } else if i % 4 == 2 {
                    old(pixels)@[i - 2]
                } else {
                    old(pixels)@[i]
                });
                if i == s {
                    assert(pixels@[i] == before[s + 2]);
                } else if i == s + 2 {
                    assert(pixels@[i] == before[s]);
                } else {
                    assert(pixels@[i] == before[i]);
                }
            }
        }
        start = start + 4;
    }
    proof {
        assert(pixels@ =~= swap_red_blue(old(pixels)@));
    }
}

/// A tile set's layout: the image's size and the size of each tile, tiles
/// numbered row by row.
#[derive(Clone, Copy, Debug)]
pub struct TileGrid {
    pub dimensions: SizeInPx,
    pub tile_dimensions: SizeInPx,
}

impl TileGrid {
    pub open spec fn wf(&self) -> bool {
        self.tile_dimensions.width > 0 && self.tile_dimensions.height > 0
    }

    /// Tiles across and down the image (partial tiles do not count).
    pub fn tile_count(&self) -> (count: (u32, u32))
        requires
            self.wf(),
        ensures
            count.0 == self.dimensions.width / self.tile_dimensions.width,
            count.1 == self.dimensions.height / self.tile_dimensions.height,
    {
        (self.dimensions.width / self.tile_dimensions.width, self.dimensions.height / self.tile_dimensions.height)
    }

    /// The number of the tile at column `x`, row `y`. Columns and rows up to
    /// the tile count itself are accepted, as the tile set checks them.
    pub fn sprite_index(&self, x: u32, y: u32) -> (index: usize)
        requires
            self.wf(),
            x <= self.dimensions.width / self.tile_dimensions.width,
            y <= self.dimensions.height / self.tile_dimensions.height,
            y * (self.dimensions.width / self.tile_dimensions.width) + x <= u32::MAX,
        ensures
            index == y * (self.dimensions.width / self.tile_dimensions.width) + x,
    {
        let (width, _height) = self.tile_count();
        (y * width + x) as usize
    }

    /// The pixel where the tile at column `x`, row `y` starts.
    pub fn tile_origin(&self, x: u32, y: u32) -> (origin: (u32, u32))
        requires
            x * self.tile_dimensions.width <= u32::MAX,
            y * self.tile_dimensions.height <= u32::MAX,
        ensures
            origin == ((x * self.tile_dimensions.width) as u32, (y * self.tile_dimensions.height) as u32),
    {
        (x * self.tile_dimensions.width, y * self.tile_dimensions.height)
    }
}

/// The RGBA image that `image::load_from_memory` followed by `to_rgba8` makes
/// of `bytes`: its width, its height and its pixels, four bytes each, row by
/// row; `None` where the bytes hold no image the decoder reads.
pub uninterp spec fn rgba8_image(bytes: Seq<u8>) -> Option<(u32, u32, Seq<u8>)>;

/// Calls `image::load_from_memory`, which guesses the format from the bytes
/// and decodes them, and converts the image with `to_rgba8`, which fills a new
/// buffer of four bytes per pixel. The result depends on the bytes alone.
#[verifier::external_body]
fn decode_rgba8(bytes: &[u8]) -> (decoded: Option<(u32, u32, Vec<u8>)>)
    ensures
        match decoded {
            Some((width, height, pixels)) => rgba8_image(bytes@) == Some((width, height, pixels@))
                && pixels@.len() == 4 * width * height,
            None => rgba8_image(bytes@) is None,
        },
{
    match image::load_from_memory(bytes) {
        Ok(image) => {
            let rgba = image.to_rgba8();
            let (width, height) = rgba.dimensions();
            Some((width, height, rgba.into_raw()))
        },
        Err(_) => None,
    }
}

/// An image decoded to RGBA: four bytes a pixel, row by row.
pub struct DecodedImage {
    pub size: SizeInPx,
    pub pixels: Vec<u8>,
}

/// Decodes the image file held in `bytes` to RGBA, ready to upload as a
/// texture; `None` where the bytes hold no image the decoder reads.
pub fn decode_image(bytes: &[u8]) -> (image: Option<DecodedImage>)
    ensures
        match image {
            Some(image) => rgba8_image(bytes@) == Some((image.size.width, image.size.height, image.pixels@))
                && image.pixels@.len() == 4 * image.size.width * image.size.height,
            None => rgba8_image(bytes@) is None,
        },
{
    match decode_rgba8(bytes) {
        Some((width, height, pixels)) => Some(DecodedImage { size: SizeInPx { width, height }, pixels }),
        None => None,
    }
}

/// Identifies a texture held by a repository.
#[derive(Clone, Copy, Debug, PartialEq, Eq, Structural)]
pub struct TextureId(pub u32);

/// Textures shared by several sprites, each kept as long as a sprite uses it.
pub struct TextureRepository<T> {
    pub next_id: u32,
    pub textures: HashMap<u32, T>,
    pub use_count: HashMap<u32, u32>,
}

impl<T> TextureRepository<T> {
    /// Every texture has a use count of at least one, and no other count is
    /// kept; every identifier handed out lies below the next one.
    pub open spec fn wf(&self) -> bool {
        &&& self.textures@.dom() == self.use_count@.dom()
        &&& forall|id: u32| #[trigger] self.use_count@.contains_key(id) ==> self.use_count@[id] >= 1 && id
            < self.next_id
    }

    pub fn new() -> (repository: Self)
        ensures
            repository.wf(),
            repository.next_id == 0,
            repository.textures@ == Map::<u32, T>::empty(),
            repository.use_count@ == Map::<u32, u32>::empty(),
    {
        TextureRepository { next_id: 0, textures: HashMap::new(), use_count: HashMap::new() }
    }

    /// Keeps `texture` under a fresh identifier, used once.
    pub fn store_texture(&mut self, texture: T) -> (id: TextureId)
        requires
            old(self).wf(),
            old(self).next_id < u32::MAX,
        ensures
            final(self).wf(),
            id.0 == old(self).next_id,
            final(self).next_id == old(self).next_id + 1,
            final(self).textures@ == old(self).textures@.insert(id.0, texture),
            final(self).use_count@ == old(self).use_count@.insert(id.0, 1),
            !old(self).textures@.contains_key(id.0),
    {
        broadcast use vstd::std_specs::hash::group_hash_axioms;

        let texture_id = TextureId(self.next_id);
        self.next_id = self.next_id + 1;
        self.textures.insert(texture_id.0, texture);
        self.use_count.insert(texture_id.0, 1);
        texture_id
    }

    pub fn get_texture(&self, texture_id: &TextureId) -> (texture: Option<&T>)
        ensures
            match texture {
                Some(t) => self.textures@.contains_key(texture_id.0) && *t == self.textures@[texture_id.0],
                None => !self.textures@.contains_key(texture_id.0),
            },
    {
        broadcast use vstd::std_specs::hash::group_hash_axioms;

        self.textures.get(&texture_id.0)
    }

    /// One user fewer: the texture goes when its last user does.
    pub fn release_texture(&mut self, texture_id: &TextureId)
        requires
            old(self).wf(),
        ensures
            final(self).wf(),
            final(self).next_id == old(self).next_id,
            !old(self).use_count@.contains_key(texture_id.0) ==> final(self).use_count@ == old(self).use_count@
                && final(self).textures@ == old(self).textures@,
            old(self).use_count@.contains_key(texture_id.0) && old(self).use_count@[texture_id.0] > 1
                ==> final(self).use_count@ == old(self).use_count@.insert(
                texture_id.0,
                (old(self).use_count@[texture_id.0] - 1) as u32,
            ) && final(self).textures@ == old(self).textures@,
            old(self).use_count@.contains_key(texture_id.0) && old(self).use_count@[texture_id.0] == 1
                ==> final(self).use_count@ == old(self).use_count@.remove(texture_id.0) && final(self).textures@
                == old(self).textures@.remove(texture_id.0),
    {
        broadcast use vstd::std_specs::hash::group_hash_axioms;

        let id = texture_id.0;
        let count = match self.use_count.get(&id) {
            Some(count) => Some(*count),
            None => None,
        };
        if let Some(count) = count {
            let new_count = count - 1;
            self.use_count.insert(id, new_count);
            if new_count == 0 {
                self.use_count.remove(&id);
                self.textures.remove(&id);
            }
            proof {
                if new_count == 0 {
                    assert(self.use_count@ =~= old(self).use_count@.remove(id));
                    assert(self.textures@ =~= old(self).textures@.remove(id));
                } else {
                    assert(self.use_count@.dom() =~= old(self).use_count@.dom().insert(id));
                }
                assert(self.textures@.dom() =~= self.use_count@.dom());
            }
        }
    }
}

/// A texture stored and then released by its only user is gone again: the
/// repository holds what it held before.
pub proof fn law_store_then_release<T>(textures: Map<u32, T>, use_count: Map<u32, u32>, id: u32, texture: T)
    requires
        !textures.contains_key(id),
        !use_count.contains_key(id),
    ensures
        textures.insert(id, texture)[id] == texture,
        use_count.insert(id, 1)[id] == 1,
        textures.insert(id, texture).remove(id) == textures,
        use_count.insert(id, 1).remove(id) == use_count,
{
    assert(textures.insert(id, texture).remove(id) =~= textures);
    assert(use_count.insert(id, 1).remove(id) =~= use_count);
}

/// What a draw call draws: plain rectangles, or a given texture.
#[derive(Clone, Copy, Debug, PartialEq, Eq, Structural)]
pub enum OperationType {
    DrawRect,
    DrawTexture(TextureId),
}

/// Numbers draw operations so that consecutive operations of the same kind
/// share a batch: the number goes up each time the kind changes.
pub struct DrawOrder {
    pub index: u16,
    pub previous_operation: Option<OperationType>,
}

impl DrawOrder {
    pub fn new() -> (order: Self)
        ensures
            order.index == 0,
            order.previous_operation is None,
    {
        DrawOrder { index: 0, previous_operation: None }
    }

    /// Starts numbering again from zero for the next frame (the last kind
    /// drawn is remembered).
    pub fn reset(&mut self)
        ensures
            final(self).index == 0,
            final(self).previous_operation == old(self).previous_operation,
    {
        self.index = 0;
    }

    /// The batch number of an operation of kind `current_operation`.
    pub fn next_index(&mut self, current_operation: OperationType) -> (index: u16)
        requires
            old(self).previous_operation matches Some(p) && p != current_operation ==> old(self).index < u16::MAX,
        ensures
            index == final(self).index,
            final(self).index == if old(self).previous_operation matches Some(p) && p != current_operation {
                old(self).index + 1
            } else {
                old(self).index as int
            },
            final(self).previous_operation == Some(current_operation),
    {
        if let Some(previous_operation) = &self.previous_operation {
            if previous_operation != &current_operation {
                self.index = self.index + 1;
            }
        }
        self.previous_operation = Some(current_operation);
        self.index
    }
}

/// Operations gathered into one instanced draw call at most.
pub const OPERATION_CAPACITY: usize = 2048;

/// Whether the operation block being filled, if any, can take one more
/// operation drawn with `texture_id`: it must use that texture and not be full.
pub fn block_accepts(current: Option<(usize, usize)>, texture_id: usize) -> (accepts: bool)
    ensures
        accepts == match current {
            Some((block_texture, length)) => block_texture == texture_id && length < OPERATION_CAPACITY,
            None => false,
        },
{
    match current {
        Some((block_texture, length)) => block_texture == texture_id && length < OPERATION_CAPACITY,
        None => false,
    }
}

/// The operations of a block, or none for no block.
pub open spec fn block_operations<Op>(block: Option<(usize, Vec<Op>)>) -> Seq<Op> {
    match block {
        Some((_, operations)) => operations@,
        None => Seq::empty(),
    }
}

/// A block draws with one texture and holds between one and
/// `OPERATION_CAPACITY` operations.
pub open spec fn block_wf<Op>(block: Option<(usize, Vec<Op>)>) -> bool {
    match block {
        Some((_, operations)) => 0 < operations@.len() <= OPERATION_CAPACITY,
        None => true,
    }
}

/// Gathers draw operations into blocks that each draw with one texture, up to
/// `OPERATION_CAPACITY` operations: each block is one instanced draw call.
pub struct OperationBatcher<Op> {
    pub current: Option<(usize, Vec<Op>)>,
}

impl<Op> OperationBatcher<Op> {
    pub open spec fn wf(&self) -> bool {
        block_wf(self.current)
    }

    pub fn new() -> (batcher: Self)
        ensures
            batcher.wf(),
            batcher.current is None,
    {
        OperationBatcher { current: None }
    }

    /// Adds an operation drawn with texture `texture_id`. It joins the block
    /// being filled when that block uses the same texture and has room; else
    /// that block is finished and handed back, and a new one starts with the
    /// operation. Nothing is lost or reordered: the block handed back followed
    /// by the block being filled holds the operations of the block filled
    /// before, then the new one.
    pub fn push(&mut self, texture_id: usize, operation: Op) -> (finished: Option<(usize, Vec<Op>)>)
        requires
            old(self).wf(),
        ensures
            final(self).wf(),
            block_wf(finished),
            final(self).current matches Some((t, _)) && t == texture_id,
            block_operations(finished) + block_operations(final(self).current) == block_operations(
                old(self).current,
            ).push(operation),
            finished == if old(self).current matches Some((t, ops)) && t == texture_id && ops@.len()
                < OPERATION_CAPACITY {
                None
            } else {
                old(self).current
            },
    {
        let joins = match &self.current {
            Some((block_texture, operations)) => block_accepts(Some((*block_texture, operations.len())), texture_id),
            None => false,
        };
        if joins {
            let ghost before = self.current;
            match &mut self.current {
                Some((_, operations)) => {
                    operations.push(operation);
                },
                None => {},
            }
            proof {
                assert(block_operations(self.current) =~= block_operations(before).push(operation));
            }
            None
        } else {
            let mut operations: Vec<Op> = Vec::with_capacity(OPERATION_CAPACITY);
            operations.push(operation);
            let finished = self.current.take();
            self.current = Some((texture_id, operations));
            proof {
                assert(block_operations(finished) + block_operations(self.current) =~= block_operations(
                    finished,
                ).push(operation));
            }
            finished
        }
    }

    /// Hands back the block being filled, if any, leaving none.
    pub fn finish(&mut self) -> (finished: Option<(usize, Vec<Op>)>)
        requires
            old(self).wf(),
        ensures
            final(self).wf(),
            final(self).current is None,
            finished == old(self).current,
    {
        self.current.take()
    }
}

} // verus!
