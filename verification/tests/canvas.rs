use bevy_r_place::canvas::{
    chunk_key_of, Chunk, ChunkSnapshot, ChunkedCanvas, CanvasResponse, Pixel, CHUNKS_X, CHUNKS_Y,
    CHUNK_PIXELS, CHUNK_SIZE, IMAGE_BYTES, NO_OWNER, WORLD_HEIGHT, WORLD_WIDTH,
};

fn px(r: u8, g: u8, b: u8, timestamp: u64, who: u8) -> Pixel {
    Pixel { r, g, b, timestamp, owner: [who; 32] }
}

fn pixel_at(canvas: &ChunkedCanvas, wx: u32, wy: u32) -> Pixel {
    let chunk = canvas.chunks.get(&chunk_key_of(wx / CHUNK_SIZE, wy / CHUNK_SIZE)).unwrap();
    chunk.pixels[((wy % CHUNK_SIZE) * CHUNK_SIZE + wx % CHUNK_SIZE) as usize]
}

#[test]
fn world_constants() {
    assert_eq!(CHUNKS_X, 16);
    assert_eq!(CHUNKS_Y, 16);
    assert_eq!(CHUNK_PIXELS, (CHUNK_SIZE * CHUNK_SIZE) as usize);
    assert_eq!(IMAGE_BYTES, (WORLD_WIDTH * WORLD_HEIGHT * 4) as usize);
}

#[test]
fn default_chunk_is_blank() {
    let chunk = Chunk::default();
    assert_eq!(chunk.pixels.len(), 4096);
    assert!(chunk.pixels.iter().all(|p| *p == Pixel::default()));
    assert_eq!(Pixel::default(), Pixel { r: 0, g: 0, b: 0, timestamp: 0, owner: NO_OWNER });
}

#[test]
fn update_pixel_last_writer_wins() {
    let mut chunk = Chunk::default();
    assert!(chunk.update_pixel(3, 5, px(1, 2, 3, 10, 1)));
    assert_eq!(chunk.pixels[5 * 64 + 3], px(1, 2, 3, 10, 1));
    // an older or equally old write is ignored
    assert!(!chunk.update_pixel(3, 5, px(9, 9, 9, 10, 2)));
    assert!(!chunk.update_pixel(3, 5, px(9, 9, 9, 9, 2)));
    assert_eq!(chunk.pixels[5 * 64 + 3], px(1, 2, 3, 10, 1));
    // a newer write replaces it
    assert!(chunk.update_pixel(3, 5, px(7, 7, 7, 11, 3)));
    assert_eq!(chunk.pixels[5 * 64 + 3], px(7, 7, 7, 11, 3));
}

#[test]
fn update_pixel_out_of_bounds() {
    let mut chunk = Chunk::default();
    assert!(!chunk.update_pixel(64, 0, px(1, 1, 1, 5, 1)));
    assert!(!chunk.update_pixel(0, 64, px(1, 1, 1, 5, 1)));
    assert!(chunk.pixels.iter().all(|p| *p == Pixel::default()));
}

#[test]
fn new_canvas_holds_every_chunk() {
    let canvas = ChunkedCanvas::new();
    assert_eq!(canvas.chunks.len(), 256);
    for cx in 0..16 {
        for cy in 0..16 {
            let chunk = canvas.chunks.get(&chunk_key_of(cx, cy)).unwrap();
            assert_eq!(chunk.pixels.len(), 4096);
        }
    }
    assert_eq!(chunk_key_of(3, 7), (3u64 << 32) | 7);
}

#[test]
fn set_pixel_writes_the_right_chunk() {
    let mut canvas = ChunkedCanvas::new();
    assert!(canvas.set_pixel(100, 200, px(10, 20, 30, 1, 4)));
    assert_eq!(pixel_at(&canvas, 100, 200), px(10, 20, 30, 1, 4));
    let chunk = canvas.chunks.get(&chunk_key_of(1, 3)).unwrap();
    assert_eq!(chunk.pixels[(200 % 64 * 64 + 100 % 64) as usize], px(10, 20, 30, 1, 4));
    assert_eq!(pixel_at(&canvas, 101, 200), Pixel::default());
}

#[test]
fn set_pixel_rejects_outside_and_stale() {
    let mut canvas = ChunkedCanvas::new();
    assert!(!canvas.set_pixel(1024, 0, px(1, 1, 1, 5, 1)));
    assert!(!canvas.set_pixel(0, 1024, px(1, 1, 1, 5, 1)));
    assert!(canvas.set_pixel(0, 0, px(1, 1, 1, 5, 1)));
    assert!(!canvas.set_pixel(0, 0, px(2, 2, 2, 4, 1)));
    assert_eq!(pixel_at(&canvas, 0, 0), px(1, 1, 1, 5, 1));
    // a canvas without chunks takes no writes
    let mut empty = ChunkedCanvas::default();
    assert!(!empty.set_pixel(0, 0, px(1, 1, 1, 5, 1)));
    assert!(empty.chunks.is_empty());
}

#[test]
fn replicas_converge_in_any_order() {
    let updates = [
        (5, 5, px(1, 0, 0, 3, 1)),
        (5, 5, px(0, 1, 0, 7, 2)),
        (6, 5, px(0, 0, 1, 2, 3)),
        (5, 5, px(1, 1, 0, 5, 4)),
        (900, 1000, px(4, 4, 4, 1, 5)),
    ];
    let mut a = ChunkedCanvas::new();
    let mut b = ChunkedCanvas::new();
    for (x, y, p) in updates.iter() {
        a.set_pixel(*x, *y, *p);
    }
    for (x, y, p) in updates.iter().rev() {
        b.set_pixel(*x, *y, *p);
    }
    assert!(a.same_pixels(&b));
    assert_eq!(pixel_at(&a, 5, 5), px(0, 1, 0, 7, 2));
    // applying the same writes again changes nothing
    let mut c = ChunkedCanvas::new();
    for (x, y, p) in updates.iter() {
        c.set_pixel(*x, *y, *p);
        c.set_pixel(*x, *y, *p);
    }
    assert!(a.same_pixels(&c));
}

#[test]
fn same_pixels_detects_differences() {
    let a = ChunkedCanvas::new();
    let mut b = ChunkedCanvas::new();
    assert!(a.same_pixels(&b));
    b.set_pixel(1023, 1023, px(1, 2, 3, 1, 1));
    assert!(!a.same_pixels(&b));
    assert!(!a.same_pixels(&ChunkedCanvas::default()));
}

#[test]
fn image_of_the_canvas() {
    let mut canvas = ChunkedCanvas::new();
    canvas.set_pixel(2, 1, px(10, 20, 30, 1, 1));
    let img = canvas.to_image();
    assert_eq!(img.len(), 4 * 1024 * 1024);
    let i = (1 * 1024 + 2) * 4;
    assert_eq!(&img[i..i + 4], &[10, 20, 30, 255]);
    assert_eq!(&img[0..4], &[0, 0, 0, 255]);
    // pixels of missing chunks are transparent
    let mut entries = canvas.to_entries();
    entries.retain(|(cx, cy, _)| !(*cx == 0 && *cy == 0));
    let partial = ChunkedCanvas::from_entries(entries).unwrap();
    let img2 = partial.to_image();
    assert_eq!(&img2[i..i + 4], &[0, 0, 0, 0]);
    let far = (1000 * 1024 + 1000) * 4;
    assert_eq!(&img2[far..far + 4], &[0, 0, 0, 255]);
}

#[test]
fn image_restores_colours() {
    let mut canvas = ChunkedCanvas::new();
    canvas.set_pixel(700, 3, px(9, 8, 7, 42, 6));
    let img = canvas.to_image();
    let restored = ChunkedCanvas::from_bytes(&img).unwrap();
    let p = pixel_at(&restored, 700, 3);
    assert_eq!((p.r, p.g, p.b, p.timestamp, p.owner), (9, 8, 7, 0, NO_OWNER));
    assert_eq!(pixel_at(&restored, 0, 0), Pixel::default());
    assert!(ChunkedCanvas::from_bytes(&img[1..]).is_none());
}

#[test]
fn entries_roundtrip() {
    let mut canvas = ChunkedCanvas::new();
    canvas.set_pixel(512, 512, px(3, 3, 3, 9, 9));
    let entries = canvas.to_entries();
    assert_eq!(entries.len(), 256);
    let back = ChunkedCanvas::from_entries(entries).unwrap();
    assert!(back.same_pixels(&canvas));
    // entries outside the grid, or with a short chunk, are refused
    assert!(ChunkedCanvas::from_entries(vec![(16, 0, Chunk::default())]).is_none());
    assert!(ChunkedCanvas::from_entries(vec![(0, 0, Chunk { pixels: vec![] })]).is_none());
}

#[test]
fn entries_come_in_grid_order() {
    let entries = ChunkedCanvas::new().to_entries();
    let coords: Vec<(u32, u32)> = entries.iter().map(|e| (e.0, e.1)).collect();
    let mut sorted = coords.clone();
    sorted.sort();
    assert_eq!(coords, sorted);
    assert_eq!(coords[0], (0, 0));
    assert_eq!(coords[1], (0, 1));
    assert_eq!(coords[16], (1, 0));
}

#[test]
fn well_formedness_check() {
    assert!(ChunkedCanvas::new().is_well_formed());
    assert!(ChunkedCanvas::default().is_well_formed());
    let mut outside = ChunkedCanvas::new();
    outside.chunks.insert(chunk_key_of(16, 0), Chunk::default());
    assert!(!outside.is_well_formed());
    let mut short = ChunkedCanvas::new();
    short.chunks.insert(chunk_key_of(3, 3), Chunk { pixels: vec![] });
    assert!(!short.is_well_formed());
}

#[test]
fn chunk_snapshot_copies() {
    let mut chunk = Chunk::default();
    chunk.update_pixel(1, 1, px(5, 5, 5, 1, 1));
    let snap = ChunkSnapshot::from_chunk(4, 9, &chunk);
    assert_eq!((snap.cx, snap.cy), (4, 9));
    assert_eq!(snap.chunk.pixels, chunk.pixels);
    let dup = chunk.duplicate();
    assert_eq!(dup.pixels, chunk.pixels);
}

#[test]
fn empty_response() {
    let r = CanvasResponse::default();
    assert!(r.canvas.chunks.is_empty());
}
