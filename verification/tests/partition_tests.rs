use image_guesser::my_image::create_black_image;
use image_guesser::tiles::gen_tiles;

#[test]
fn gen_tiles_counts_and_origin() {
    let td = gen_tiles(400, 400, 4, 4);
    assert_eq!(td.tiles.len(), 16);
    assert_eq!(td.tile_width, 100);
    assert_eq!(td.tile_height, 100);
    assert_eq!(td.tiles[0].x, 0);
    assert_eq!(td.tiles[0].y, 0);
    assert!(td.tile_width * 4 <= 400);
    assert!(400 < td.tile_width * 5);
    let mut offsets: Vec<(u32, u32)> = td.tiles.iter().map(|t| (t.x, t.y)).collect();
    offsets.sort();
    offsets.dedup();
    assert_eq!(offsets.len(), 16, "all tile offsets are distinct");
}

#[test]
fn gen_tiles_row_major_order() {
    let td = gen_tiles(200, 200, 2, 2);
    assert_eq!(td.tiles.len(), 4);
    assert_eq!(td.tile_width, 100);
    assert_eq!(td.tile_height, 100);
    let offsets: Vec<(u32, u32)> = td.tiles.iter().map(|t| (t.x, t.y)).collect();
    assert_eq!(offsets, vec![(0, 0), (100, 0), (0, 100), (100, 100)]);
}

#[test]
fn gen_tiles_drops_remainder() {
    let td = gen_tiles(10, 7, 3, 4);
    assert_eq!(td.tile_width, 2);
    assert_eq!(td.tile_height, 2);
    assert_eq!(td.tiles.len(), 12);
    assert!(td.tile_width * 4 <= 10);
    assert!(td.tile_height * 3 <= 7);
    let last = td.tiles[td.tiles.len() - 1];
    assert_eq!((last.x, last.y), (6, 4));
}

#[test]
fn gen_tiles_single_cell() {
    let td = gen_tiles(640, 480, 1, 1);
    assert_eq!(td.tiles.len(), 1);
    assert_eq!((td.tiles[0].x, td.tiles[0].y), (0, 0));
    assert_eq!(td.tile_width, 640);
    assert_eq!(td.tile_height, 480);
}

#[test]
fn create_black_image_pixels() {
    let img = create_black_image(3, 2);
    assert_eq!(img.width, 3);
    assert_eq!(img.height, 2);
    assert_eq!(img.pixels.len(), 24);
    for (i, b) in img.pixels.iter().enumerate() {
        if i % 4 == 3 {
            assert_eq!(*b, 255);
        } else {
            assert_eq!(*b, 0);
        }
    }
}
