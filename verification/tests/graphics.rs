use tiefring::graphics::decode_image;
use tiefring::graphics::rectangle_indices;
use tiefring::graphics::block_accepts;
use tiefring::graphics::bgra_to_rgba;
use tiefring::graphics::padded_bytes_per_row;
use tiefring::graphics::unpad_texture_rows;
use tiefring::graphics::DrawOrder;
use tiefring::graphics::OperationType;
use tiefring::graphics::Size;
use tiefring::graphics::SizeInPx;
use tiefring::graphics::TextureId;
use tiefring::graphics::TextureRepository;
use tiefring::graphics::TileGrid;
use tiefring::graphics::OPERATION_CAPACITY;

#[test]
fn rows_are_padded_to_256_bytes() {
    assert_eq!(padded_bytes_per_row(0), 0);
    assert_eq!(padded_bytes_per_row(1), 256);
    assert_eq!(padded_bytes_per_row(64), 256);
    assert_eq!(padded_bytes_per_row(65), 512);
    assert_eq!(padded_bytes_per_row(800), 3328);
}

#[test]
fn unpadding_keeps_each_row_start() {
    let mut padded = vec![0u8; 512];
    for (i, byte) in padded.iter_mut().enumerate() {
        *byte = (i % 251) as u8;
    }
    let pixels = unpad_texture_rows(&padded, 2, 2);
    assert_eq!(pixels.len(), 16);
    assert_eq!(&pixels[0..8], &padded[0..8]);
    assert_eq!(&pixels[8..16], &padded[256..264]);
}

#[test]
fn unpadding_zero_fills_missing_rows() {
    let padded = vec![9u8; 256];
    let pixels = unpad_texture_rows(&padded, 1, 3);
    assert_eq!(pixels, vec![9, 9, 9, 9, 0, 0, 0, 0, 0, 0, 0, 0]);
}

#[test]
fn bgra_becomes_rgba_and_back() {
    let mut pixels = vec![1, 2, 3, 4, 5, 6, 7, 8, 9];
    bgra_to_rgba(&mut pixels);
    assert_eq!(pixels, vec![3, 2, 1, 4, 7, 6, 5, 8, 9]);
    bgra_to_rgba(&mut pixels);
    assert_eq!(pixels, vec![1, 2, 3, 4, 5, 6, 7, 8, 9]);
}

#[test]
fn sizes_from_pairs() {
    assert_eq!(SizeInPx::from((3, 4)), SizeInPx::new(3, 4));
    let size = Size::from((5, 6));
    assert_eq!((size.width, size.height), (5, 6));
}

#[test]
fn tile_grid_numbers_tiles_by_row() {
    let grid = TileGrid { dimensions: SizeInPx::new(100, 64), tile_dimensions: SizeInPx::new(32, 32) };
    assert_eq!(grid.tile_count(), (3, 2));
    assert_eq!(grid.sprite_index(2, 1), 5);
    assert_eq!(grid.sprite_index(0, 0), 0);
    assert_eq!(grid.tile_origin(2, 1), (64, 32));
}

#[test]
fn repository_counts_users() {
    let mut repository: TextureRepository<&str> = TextureRepository::new();
    let first = repository.store_texture("grass");
    let second = repository.store_texture("water");
    assert_eq!(first, TextureId(0));
    assert_eq!(second, TextureId(1));
    assert_eq!(repository.get_texture(&first), Some(&"grass"));
    repository.use_count.insert(1, 2);
    repository.release_texture(&second);
    assert_eq!(repository.get_texture(&second), Some(&"water"));
    repository.release_texture(&second);
    assert_eq!(repository.get_texture(&second), None);
    repository.release_texture(&first);
    assert_eq!(repository.get_texture(&first), None);
    assert!(repository.use_count.is_empty());
    repository.release_texture(&first);
    assert_eq!(repository.next_id, 2);
}

#[test]
fn store_then_release_leaves_nothing() {
    let mut repository: TextureRepository<u8> = TextureRepository::new();
    let id = repository.store_texture(3);
    repository.release_texture(&id);
    assert!(repository.textures.is_empty());
    assert!(repository.use_count.is_empty());
}

#[test]
fn draw_order_changes_with_the_kind() {
    let mut order = DrawOrder::new();
    assert_eq!(order.next_index(OperationType::DrawRect), 0);
    assert_eq!(order.next_index(OperationType::DrawRect), 0);
    assert_eq!(order.next_index(OperationType::DrawTexture(TextureId(4))), 1);
    assert_eq!(order.next_index(OperationType::DrawTexture(TextureId(4))), 1);
    assert_eq!(order.next_index(OperationType::DrawTexture(TextureId(5))), 2);
    order.reset();
    assert_eq!(order.index, 0);
    assert_eq!(order.next_index(OperationType::DrawTexture(TextureId(5))), 0);
    assert_eq!(order.next_index(OperationType::DrawRect), 1);
}

#[test]
fn blocks_take_their_texture_until_full() {
    assert!(block_accepts(Some((2, 0)), 2));
    assert!(!block_accepts(Some((2, 0)), 3));
    assert!(!block_accepts(Some((2, OPERATION_CAPACITY)), 2));
    assert!(block_accepts(Some((2, OPERATION_CAPACITY - 1)), 2));
    assert!(!block_accepts(None, 2));
}

#[test]
fn it_works() {
    let result = 2 + 2;
    assert_eq!(result, 4);
}

#[test]
fn rectangle_indices_draw_two_triangles_per_rectangle() {
    assert_eq!(rectangle_indices(0), Vec::<u16>::new());
    assert_eq!(
        rectangle_indices(2),
        vec![0, 1, 2, 2, 3, 0, 4, 5, 6, 6, 7, 4]
    );
    let last = rectangle_indices(16_384);
    assert_eq!(last.len(), 98_304);
    assert_eq!(&last[98_298..], &[65_532, 65_533, 65_534, 65_534, 65_535, 65_532]);
}

#[test]
fn decode_image_reads_a_png_to_rgba() {
    let mut source = image::RgbaImage::new(2, 1);
    source.put_pixel(0, 0, image::Rgba([10, 20, 30, 255]));
    source.put_pixel(1, 0, image::Rgba([40, 50, 60, 128]));
    let mut bytes: Vec<u8> = Vec::new();
    image::DynamicImage::ImageRgba8(source)
        .write_to(&mut std::io::Cursor::new(&mut bytes), image::ImageOutputFormat::Png)
        .unwrap();

    let decoded = decode_image(&bytes).unwrap();
    assert_eq!(decoded.size, SizeInPx { width: 2, height: 1 });
    assert_eq!(decoded.pixels, vec![10, 20, 30, 255, 40, 50, 60, 128]);
}

#[test]
fn decode_image_refuses_bytes_that_hold_no_image() {
    assert!(decode_image(&[1, 2, 3, 4, 5]).is_none());
    assert!(decode_image(&[]).is_none());
}
