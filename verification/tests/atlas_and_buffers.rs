use tiefring::buffers::reusable_usage;
use tiefring::buffers::BufferCache;
use tiefring::buffers::ReusableBuffer;
use tiefring::glyphs::GlyphAtlas;
use tiefring::glyphs::GlyphRect;
use tiefring::glyphs::Placement;
use tiefring::glyphs::ATLAS_SIZE;
use tiefring::graphics::OperationBatcher;
use tiefring::graphics::OPERATION_CAPACITY;

const VERTEX: u32 = 32;
const INDEX: u32 = 16;
const COPY_DST: u32 = 8;
const UNIFORM: u32 = 64;

#[test]
fn glyphs_are_packed_and_found_again() {
    let mut atlas = GlyphAtlas::new(16);
    assert_eq!(atlas.px, 16);
    assert!(!atlas.contains('a'));
    assert_eq!(atlas.get('a'), None);
    let placement = atlas.place_character('a', 10, 12, 120);
    let rect = match placement {
        Placement::Packed(rect) => rect,
        other => panic!("expected a packed glyph, got {:?}", other),
    };
    assert_eq!((rect.width, rect.height), (10, 12));
    assert!(rect.x + rect.width <= ATLAS_SIZE && rect.y + rect.height <= ATLAS_SIZE);
    assert!(atlas.contains('a'));
    assert_eq!(atlas.get('a'), Some(rect));

    let other = match atlas.place_character('b', 8, 9, 72) {
        Placement::Packed(rect) => rect,
        other => panic!("expected a packed glyph, got {:?}", other),
    };
    let apart = other.x >= rect.x + rect.width
        || rect.x >= other.x + other.width
        || other.y >= rect.y + rect.height
        || rect.y >= other.y + other.height;
    assert!(apart);
    assert_eq!(atlas.get('a'), Some(rect));
}

#[test]
fn white_space_is_kept_empty() {
    let mut atlas = GlyphAtlas::new(20);
    assert_eq!(atlas.place_character(' ', 0, 0, 0), Placement::Empty);
    assert_eq!(atlas.place_character('x', 5, 5, 0), Placement::Empty);
    let empty = GlyphRect { x: 0, y: 0, width: 0, height: 0 };
    assert_eq!(atlas.get(' '), Some(empty));
    assert_eq!(atlas.get('x'), Some(empty));
}

#[test]
fn a_full_atlas_refuses_glyphs() {
    let mut atlas = GlyphAtlas::new(900);
    let whole = atlas.place_character('W', ATLAS_SIZE as usize, ATLAS_SIZE as usize, 4);
    assert_eq!(
        whole,
        Placement::Packed(GlyphRect { x: 0, y: 0, width: ATLAS_SIZE, height: ATLAS_SIZE })
    );
    assert_eq!(atlas.place_character('i', 1, 1, 1), Placement::Full);
    assert!(!atlas.contains('i'));
    assert_eq!(atlas.place_character('T', 2000, 10, 4), Placement::Full);
}

#[test]
fn new_buffers_are_made_reusable() {
    assert_eq!(reusable_usage(VERTEX), VERTEX | COPY_DST);
    assert_eq!(reusable_usage(INDEX | COPY_DST), INDEX | COPY_DST);
    let mut buffer = ReusableBuffer::new(5u8, VERTEX | COPY_DST, 64);
    assert_eq!((buffer.max_size, buffer.current_size), (64, 64));
    buffer.update(10);
    assert_eq!((buffer.max_size, buffer.current_size), (64, 10));
}

#[test]
fn released_buffers_serve_later_requests() {
    let mut cache: BufferCache<u32> = BufferCache::new();
    assert!(cache.take_buffer(10, VERTEX).is_none());
    cache.release_buffer(ReusableBuffer::new(7, VERTEX | COPY_DST, 100));
    assert!(cache.take_buffer(101, VERTEX).is_none());
    assert!(cache.take_buffer(50, INDEX).is_none());
    let taken = cache.take_buffer(50, VERTEX).expect("a large enough vertex buffer");
    assert_eq!(taken.buffer, 7);
    assert!(cache.take_buffer(50, VERTEX).is_none());
}

#[test]
fn the_smallest_fitting_buffer_is_taken() {
    let mut cache: BufferCache<u32> = BufferCache::new();
    cache.release_buffer(ReusableBuffer::new(1, INDEX | COPY_DST, 100));
    cache.release_buffer(ReusableBuffer::new(2, INDEX | COPY_DST, 300));
    cache.release_buffer(ReusableBuffer::new(3, INDEX | COPY_DST, 200));
    cache.release_buffer(ReusableBuffer::new(4, INDEX | COPY_DST, 200));
    assert_eq!(cache.take_buffer(150, INDEX).map(|b| b.buffer), Some(4));
    assert_eq!(cache.take_buffer(150, INDEX).map(|b| b.buffer), Some(3));
    assert_eq!(cache.take_buffer(150, INDEX).map(|b| b.buffer), Some(2));
    assert_eq!(cache.take_buffer(150, INDEX).map(|b| b.buffer), None);
    assert_eq!(cache.take_buffer(0, INDEX).map(|b| b.buffer), Some(1));
}

#[test]
fn unwritable_or_other_buffers_are_dropped() {
    let mut cache: BufferCache<u32> = BufferCache::new();
    cache.release_buffer(ReusableBuffer::new(1, VERTEX, 100));
    cache.release_buffer(ReusableBuffer::new(2, UNIFORM | COPY_DST, 100));
    assert!(cache.vertex_map.is_empty());
    assert!(cache.index_map.is_empty());
    assert!(cache.take_buffer(10, UNIFORM).is_none());
    cache.release_buffer(ReusableBuffer::new(3, VERTEX | INDEX | COPY_DST, 100));
    assert!(cache.take_buffer(10, INDEX).is_none());
    assert_eq!(cache.take_buffer(10, VERTEX | INDEX).map(|b| b.buffer), Some(3));
    cache.release_buffer(ReusableBuffer::new(4, VERTEX | COPY_DST, 10));
    cache.clear();
    assert!(cache.take_buffer(1, VERTEX).is_none());
}

#[test]
fn operations_are_batched_by_texture() {
    let mut batcher: OperationBatcher<u32> = OperationBatcher::new();
    assert_eq!(batcher.push(1, 10), None);
    assert_eq!(batcher.push(1, 11), None);
    assert_eq!(batcher.push(2, 12), Some((1, vec![10, 11])));
    assert_eq!(batcher.push(1, 13), Some((2, vec![12])));
    assert_eq!(batcher.finish(), Some((1, vec![13])));
    assert_eq!(batcher.finish(), None);
}

#[test]
fn full_blocks_are_handed_over() {
    let mut batcher: OperationBatcher<usize> = OperationBatcher::new();
    for k in 0..OPERATION_CAPACITY {
        assert_eq!(batcher.push(3, k), None);
    }
    let (texture, operations) = batcher.push(3, OPERATION_CAPACITY).expect("a full block");
    assert_eq!(texture, 3);
    assert_eq!(operations, (0..OPERATION_CAPACITY).collect::<Vec<_>>());
    assert_eq!(batcher.finish(), Some((3, vec![OPERATION_CAPACITY])));
}
