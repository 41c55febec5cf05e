use image_guesser::my_image::Image;
use image_guesser::worker::{
    handle_signal, load, reset, reveal_at, reveal_random, ControlSignal, ImageUpdate, WorkerState,
};

/// A test image whose byte at pixel (x, y), channel c, is a recognizable
/// function of the coordinate, so crops can be checked byte for byte.
fn patterned(width: u32, height: u32) -> Image {
    let mut pixels = Vec::with_capacity((4 * width * height) as usize);
    for y in 0..height {
        for x in 0..width {
            for c in 0..4u32 {
                pixels.push(((x * 7 + y * 13 + c * 29) % 251) as u8);
            }
        }
    }
    Image { width, height, pixels }
}

fn source_byte(img: &Image, x: u32, y: u32, c: u32) -> u8 {
    img.pixels[(4 * (y * img.width + x) + c) as usize]
}

fn assert_is_crop(piece: &Image, src: &Image, x0: u32, y0: u32, w: u32, h: u32) {
    assert_eq!(piece.width, w);
    assert_eq!(piece.height, h);
    assert_eq!(piece.pixels.len(), (4 * w * h) as usize);
    for y in 0..h {
        for x in 0..w {
            for c in 0..4 {
                assert_eq!(
                    source_byte(piece, x, y, c),
                    source_byte(src, x0 + x, y0 + y, c),
                    "byte mismatch at ({}, {}, {})",
                    x,
                    y,
                    c
                );
            }
        }
    }
}

#[test]
fn load_emits_full_black_placeholder() {
    let mut state = WorkerState::Unloaded;
    let img = patterned(8, 6);
    let upd = load(&mut state, img, 2, 2);
    match upd {
        ImageUpdate::Full(black) => {
            assert_eq!(black.width, 8);
            assert_eq!(black.height, 6);
            for (i, b) in black.pixels.iter().enumerate() {
                if i % 4 == 3 {
                    assert_eq!(*b, 255);
                } else {
                    assert_eq!(*b, 0);
                }
            }
        }
        _ => panic!("load must emit a full update"),
    }
    match state {
        WorkerState::Loaded(ps) => {
            assert_eq!(ps.tile_data.tiles.len(), 4);
            assert_eq!(ps.rows, 2);
            assert_eq!(ps.columns, 2);
        }
        WorkerState::Unloaded => panic!("load must leave the worker loaded"),
    }
}

#[test]
fn reveal_exhaustion() {
    let mut state = WorkerState::Unloaded;
    load(&mut state, patterned(20, 20), 2, 2);
    for step in 0..4 {
        let upd = reveal_random(&mut state);
        assert!(upd.is_some(), "reveal {} must emit an update", step);
    }
    let extra = reveal_random(&mut state);
    assert!(extra.is_none(), "a reveal on the emptied set is a no-op");
    match state {
        WorkerState::Loaded(ps) => assert_eq!(ps.tile_data.tiles.len(), 0),
        WorkerState::Unloaded => panic!("still loaded"),
    }
}

#[test]
fn no_duplicate_reveal_offsets() {
    let mut state = WorkerState::Unloaded;
    load(&mut state, patterned(30, 30), 3, 3);
    let mut seen: Vec<(u32, u32)> = Vec::new();
    for _ in 0..9 {
        match reveal_random(&mut state) {
            Some(ImageUpdate::Partial { x, y, .. }) => {
                assert!(!seen.contains(&(x, y)), "offset ({}, {}) emitted twice", x, y);
                seen.push((x, y));
            }
            _ => panic!("expected a partial update"),
        }
    }
    assert_eq!(seen.len(), 9);
}

#[test]
fn reveal_random_uncovers_source_pixels() {
    let src = patterned(12, 12);
    let mut state = WorkerState::Unloaded;
    load(&mut state, patterned(12, 12), 2, 2);
    match reveal_random(&mut state) {
        Some(ImageUpdate::Partial { x, y, image }) => {
            assert!(x == 0 || x == 6);
            assert!(y == 0 || y == 6);
            assert_is_crop(&image, &src, x, y, 6, 6);
        }
        _ => panic!("expected a partial update"),
    }
}

#[test]
fn reveal_random_reaches_every_tile() {
    // The chosen tile is sampled from the whole remaining set: over many
    // one-reveal rounds on a fresh two-tile partition, each of the two
    // offsets must come up at least once.
    let mut state = WorkerState::Unloaded;
    load(&mut state, patterned(8, 4), 1, 2);
    let mut seen_left = false;
    let mut seen_right = false;
    for _ in 0..100 {
        reset(&mut state, 1, 2);
        match reveal_random(&mut state) {
            Some(ImageUpdate::Partial { x, y, .. }) => {
                assert_eq!(y, 0);
                match x {
                    0 => seen_left = true,
                    4 => seen_right = true,
                    _ => panic!("unexpected offset {}", x),
                }
            }
            _ => panic!("expected a partial update"),
        }
    }
    assert!(seen_left && seen_right, "both tiles must be reachable by the random choice");
}

#[test]
fn reveal_at_resolves_coordinates() {
    let src = patterned(400, 400);
    let mut state = WorkerState::Unloaded;
    load(&mut state, patterned(400, 400), 4, 4);
    match reveal_at(&mut state, 2, 3) {
        Some(ImageUpdate::Partial { x, y, image }) => {
            assert_eq!(x, 300);
            assert_eq!(y, 200);
            assert_is_crop(&image, &src, 300, 200, 100, 100);
        }
        _ => panic!("expected the tile at column 3, row 2"),
    }
    match state {
        WorkerState::Loaded(ps) => assert_eq!(ps.tile_data.tiles.len(), 15),
        WorkerState::Unloaded => panic!("still loaded"),
    }
}

#[test]
fn reset_preserves_source() {
    let src = patterned(16, 16);
    let mut state = WorkerState::Unloaded;
    load(&mut state, patterned(16, 16), 2, 2);
    reveal_random(&mut state);
    reveal_random(&mut state);
    let upd = reset(&mut state, 4, 4);
    match upd {
        Some(ImageUpdate::Full(black)) => {
            assert_eq!(black.width, 16);
            assert_eq!(black.height, 16);
            assert!(black.pixels.iter().enumerate().all(|(i, b)| if i % 4 == 3 {
                *b == 255
            } else {
                *b == 0
            }));
        }
        _ => panic!("reset must emit a full update"),
    }
    match state {
        WorkerState::Loaded(ref ps) => assert_eq!(ps.tile_data.tiles.len(), 16),
        WorkerState::Unloaded => panic!("still loaded"),
    }
    match reveal_at(&mut state, 1, 1) {
        Some(ImageUpdate::Partial { x, y, image }) => {
            assert_eq!((x, y), (4, 4));
            assert_is_crop(&image, &src, 4, 4, 4, 4);
        }
        _ => panic!("expected a partial update from the original image"),
    }
}

#[test]
fn concrete_scenario_200_by_200() {
    let src = patterned(200, 200);
    let mut state = WorkerState::Unloaded;
    load(&mut state, patterned(200, 200), 2, 2);
    match state {
        WorkerState::Loaded(ref ps) => {
            let offsets: Vec<(u32, u32)> = ps.tile_data.tiles.iter().map(|t| (t.x, t.y)).collect();
            assert_eq!(offsets, vec![(0, 0), (100, 0), (0, 100), (100, 100)]);
        }
        WorkerState::Unloaded => panic!("loaded"),
    }
    match reveal_at(&mut state, 0, 0) {
        Some(ImageUpdate::Partial { x, y, image }) => {
            assert_eq!((x, y), (0, 0));
            assert_is_crop(&image, &src, 0, 0, 100, 100);
        }
        _ => panic!("expected the top-left tile"),
    }
    assert!(reveal_at(&mut state, 0, 0).is_none(), "a second reveal of the same cell is a no-op");
}

#[test]
fn commands_are_noops_when_unloaded() {
    let mut state = WorkerState::Unloaded;
    assert!(reveal_random(&mut state).is_none());
    assert!(matches!(state, WorkerState::Unloaded));
    assert!(reveal_at(&mut state, 0, 0).is_none());
    assert!(matches!(state, WorkerState::Unloaded));
    assert!(reset(&mut state, 2, 2).is_none());
    assert!(matches!(state, WorkerState::Unloaded));
}

#[test]
fn reveal_at_out_of_range_is_noop() {
    let mut state = WorkerState::Unloaded;
    load(&mut state, patterned(20, 20), 2, 2);
    assert!(reveal_at(&mut state, 5, 5).is_none());
    match state {
        WorkerState::Loaded(ps) => assert_eq!(ps.tile_data.tiles.len(), 4),
        WorkerState::Unloaded => panic!("still loaded"),
    }
}

#[test]
fn handle_signal_dispatches_and_exits() {
    let mut state = WorkerState::Unloaded;
    let (upd, running) = handle_signal(&mut state, ControlSignal::Load(patterned(10, 10), 2, 2));
    assert!(running);
    assert!(matches!(upd, Some(ImageUpdate::Full(_))));
    let (upd, running) = handle_signal(&mut state, ControlSignal::RevealTile);
    assert!(running);
    assert!(matches!(upd, Some(ImageUpdate::Partial { .. })));
    let (_, running) = handle_signal(&mut state, ControlSignal::RevealTileAt(0, 0));
    assert!(running);
    let (upd2, running) = handle_signal(&mut state, ControlSignal::RevealTileAt(0, 0));
    assert!(running);
    assert!(upd2.is_none());
    let (upd, running) = handle_signal(&mut state, ControlSignal::Reset(2, 2));
    assert!(running);
    assert!(matches!(upd, Some(ImageUpdate::Full(_))));
    let (upd, running) = handle_signal(&mut state, ControlSignal::Exit);
    assert!(!running);
    assert!(upd.is_none());
}
