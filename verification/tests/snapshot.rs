use image::ImageEncoder;
use bevy_r_place::args::BevyPlaceConfig;
use bevy_r_place::canvas::{chunk_key_of, ChunkedCanvas, Pixel, CHUNK_SIZE, NO_OWNER};
use bevy_r_place::snapshot::{
    canvas_from_image, canvas_from_png, recovery_source, snapshot_png, RecoverySource, SnapshotMemory,
    format_u64, latest_snapshot, length_prefix, parse_u64, snapshot_file_name,
    snapshot_file_timestamp, snapshot_key, snapshot_key_timestamp, stream_file_name,
    PixelArtifactStream, WritePlan,
};

#[test]
fn parse_like_std() {
    let cases: [&str; 14] = [
        "0", "42", "+7", "007", "18446744073709551615", "18446744073709551616", "", "+", "-1",
        "1a", " 1", "++1", "99999999999999999999", "-0",
    ];
    for c in cases.iter() {
        assert_eq!(parse_u64(c.as_bytes()), c.parse::<u64>().ok(), "case {c:?}");
    }
}

#[test]
fn format_like_std() {
    for n in [0u64, 1, 9, 10, 1234567890, u64::MAX] {
        assert_eq!(format_u64(n), n.to_string().into_bytes());
        assert_eq!(parse_u64(&format_u64(n)), Some(n));
    }
}

#[test]
fn snapshot_names() {
    assert_eq!(snapshot_file_name(1700000000), b"1700000000.png".to_vec());
    assert_eq!(snapshot_key(1700000000), b"snapshot/1700000000.png".to_vec());
    assert_eq!(stream_file_name(12), b"12.brp".to_vec());
    assert_eq!(snapshot_key_timestamp(b"snapshot/1700000000.png"), Some(1700000000));
    assert_eq!(snapshot_key_timestamp(b"snapshot/.png"), None);
    assert_eq!(snapshot_key_timestamp(b"snapshot/12.jpg"), None);
    assert_eq!(snapshot_key_timestamp(b"other/12.png"), None);
    assert_eq!(snapshot_key_timestamp(b"snapshot/x1.png"), None);
    assert_eq!(snapshot_file_timestamp(b"55", b"png"), Some(55));
    assert_eq!(snapshot_file_timestamp(b"55", b"brp"), None);
    assert_eq!(snapshot_file_timestamp(b"abc", b"png"), None);
}

#[test]
fn latest_snapshot_is_the_first_newest() {
    assert_eq!(latest_snapshot(&vec![]), None);
    assert_eq!(latest_snapshot(&vec![None, Some(0)]), None);
    assert_eq!(latest_snapshot(&vec![Some(3), None, Some(9), Some(9), Some(4)]), Some(2));
    let keys: Vec<Vec<u8>> = [5u64, 100, 42].iter().map(|t| snapshot_key(*t)).collect();
    let stamps: Vec<Option<u64>> = keys.iter().map(|k| snapshot_key_timestamp(k)).collect();
    assert_eq!(latest_snapshot(&stamps), Some(1));
}

#[test]
fn stream_rotation() {
    let mut s = PixelArtifactStream::new(Some("artifacts/stream".to_string()), Some(1));
    assert_eq!(s.max_file_size, Some(1024 * 1024));
    assert_eq!(s.plan_write(51), WritePlan { write: true, open_first: true, rotate: false });
    assert!(s.file_open);
    assert_eq!(s.current_file_size, 55);
    assert_eq!(s.plan_write(51), WritePlan { write: true, open_first: false, rotate: false });
    assert_eq!(s.current_file_size, 110);
    s.current_file_size = 1024 * 1024 - 54;
    assert_eq!(s.plan_write(51), WritePlan { write: true, open_first: false, rotate: true });
    assert_eq!(s.current_file_size, 55);
    s.current_file_size = 1024 * 1024 - 54;
    assert_eq!(s.plan_write(50), WritePlan { write: true, open_first: false, rotate: false });
    assert_eq!(s.current_file_size, 1024 * 1024);
    // a message larger than a file opens a file and at once starts another for itself
    let mut big = PixelArtifactStream::new(Some("x".to_string()), Some(1));
    assert_eq!(big.plan_write(2 * 1024 * 1024), WritePlan { write: true, open_first: true, rotate: true });
    assert_eq!(big.current_file_size, 2 * 1024 * 1024 + 4);
    let mut off = PixelArtifactStream::new(None, Some(1));
    assert_eq!(off.plan_write(51), WritePlan { write: false, open_first: false, rotate: false });
    assert!(!off.file_open);
    let mut off = PixelArtifactStream::new(Some("x".to_string()), None);
    assert_eq!(off.plan_write(51), WritePlan { write: false, open_first: false, rotate: false });
    assert_eq!(off.current_file_size, 0);
}

#[test]
fn length_prefix_is_big_endian() {
    assert_eq!(length_prefix(51), (51u32).to_be_bytes());
    assert_eq!(length_prefix(0x0102_0304), [1, 2, 3, 4]);
    assert_eq!(length_prefix(0x1_0000_0005), 5u32.to_be_bytes());
}

fn world_pixel(canvas: &ChunkedCanvas, wx: u32, wy: u32) -> Pixel {
    let chunk = canvas.chunks.get(&chunk_key_of(wx / CHUNK_SIZE, wy / CHUNK_SIZE)).unwrap();
    chunk.pixels[((wy % CHUNK_SIZE) * CHUNK_SIZE + wx % CHUNK_SIZE) as usize]
}

#[test]
fn snapshot_png_roundtrips_through_the_canvas() {
    let mut canvas = ChunkedCanvas::new();
    canvas.set_pixel(5, 7, Pixel { r: 10, g: 20, b: 30, timestamp: 3, owner: [1; 32] });
    canvas.set_pixel(1023, 1023, Pixel { r: 200, g: 100, b: 50, timestamp: 4, owner: [2; 32] });
    let png = snapshot_png(&canvas).unwrap();
    assert_eq!(&png[..8], &[0x89, b'P', b'N', b'G', 0x0d, 0x0a, 0x1a, 0x0a]);
    let decoded = image::load_from_memory(&png).unwrap().to_rgba8().into_raw();
    assert_eq!(decoded, canvas.to_image());
    let restored = canvas_from_png(&png);
    let p = world_pixel(&restored, 5, 7);
    assert_eq!((p.r, p.g, p.b, p.timestamp, p.owner), (10, 20, 30, 0, NO_OWNER));
    let p = world_pixel(&restored, 1023, 1023);
    assert_eq!((p.r, p.g, p.b), (200, 100, 50));
    assert!(restored.same_pixels(&ChunkedCanvas::from_bytes(&canvas.to_image()).unwrap()));
}

#[test]
fn canvas_from_png_falls_back_to_a_fresh_canvas() {
    assert!(canvas_from_png(b"not a png").same_pixels(&ChunkedCanvas::new()));
    // a PNG of the wrong size
    let mut small = Vec::new();
    image::codecs::png::PngEncoder::new(&mut small)
        .write_image(&[9u8; 16], 2, 2, image::ExtendedColorType::Rgba8)
        .unwrap();
    assert!(canvas_from_png(&small).same_pixels(&ChunkedCanvas::new()));
}

#[test]
fn recovery_looks_locally_then_in_the_bucket() {
    let mut c = BevyPlaceConfig::default();
    c.artifact_folder = Some("artifacts".to_string());
    c.artifact_s3_bucket = Some("bucket".to_string());
    assert_eq!(recovery_source(&c, false), RecoverySource::Fresh);
    c.bootstrap = true;
    assert_eq!(recovery_source(&c, false), RecoverySource::LocalFolder);
    assert_eq!(recovery_source(&c, true), RecoverySource::Bucket);
    c.artifact_s3_bucket = None;
    assert_eq!(recovery_source(&c, true), RecoverySource::Fresh);
    c.artifact_folder = None;
    c.artifact_s3_bucket = Some("bucket".to_string());
    assert_eq!(recovery_source(&c, false), RecoverySource::Bucket);
}

#[test]
fn canvas_from_image_reads_a_stored_png() {
    let mut canvas = ChunkedCanvas::new();
    canvas.set_pixel(100, 200, Pixel { r: 1, g: 2, b: 3, timestamp: 5, owner: [7; 32] });
    let png = snapshot_png(&canvas).unwrap();
    let restored = canvas_from_image(&png);
    let p = world_pixel(&restored, 100, 200);
    assert_eq!((p.r, p.g, p.b), (1, 2, 3));
    assert!(canvas_from_image(b"garbage").same_pixels(&ChunkedCanvas::new()));
}

#[test]
fn snapshots_only_when_the_canvas_changed() {
    let mut memory = SnapshotMemory::default();
    let mut canvas = ChunkedCanvas::new();
    assert!(memory.snapshot_due(&canvas));
    assert!(!memory.snapshot_due(&canvas));
    canvas.set_pixel(1, 1, Pixel { r: 9, g: 9, b: 9, timestamp: 1, owner: [0; 32] });
    assert!(memory.snapshot_due(&canvas));
    assert!(!memory.snapshot_due(&canvas));
}
