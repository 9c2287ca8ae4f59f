use sovereign::capture::{FrameDeduplicator, FrameVerdict};
use sovereign::frame::{compose_frames, fit_capture_limit, frame_rgb_bytes, RgbaFrame};
use sovereign::indexing::{decode_embedding, encode_embedding};
use sovereign::layout::CaptureError;
use sovereign::model::{choose_model_dir, model_files_complete, required_model_files};
use sovereign::privacy::{blacklist_match, privacy_blacklist};

fn solid(width: u32, height: u32, rgba: [u8; 4]) -> RgbaFrame {
    let mut pixels = Vec::new();
    for _ in 0..width * height {
        pixels.extend_from_slice(&rgba);
    }
    RgbaFrame { width, height, pixels }
}

fn pixel(frame: &RgbaFrame, x: u32, y: u32) -> [u8; 4] {
    let i = (4 * (y * frame.width + x)) as usize;
    [frame.pixels[i], frame.pixels[i + 1], frame.pixels[i + 2], frame.pixels[i + 3]]
}

fn gradient(width: u32, height: u32) -> RgbaFrame {
    let mut pixels = Vec::new();
    for y in 0..height {
        for x in 0..width {
            let v = ((x * 255) / width.max(1)) as u8;
            pixels.extend_from_slice(&[v, (y % 256) as u8, 255 - v, 255]);
        }
    }
    RgbaFrame { width, height, pixels }
}

#[test]
fn no_capture_is_an_error() {
    assert!(matches!(compose_frames(vec![]), Err(CaptureError::NoMonitors)));
}

#[test]
fn single_capture_is_kept_as_it_is() {
    let frame = solid(3, 2, [10, 20, 30, 40]);
    let combined = compose_frames(vec![frame]).ok().unwrap();
    assert_eq!((combined.width, combined.height), (3, 2));
    assert_eq!(pixel(&combined, 2, 1), [10, 20, 30, 40]);
}

#[test]
fn captures_are_placed_side_by_side() {
    let left = solid(2, 1, [1, 2, 3, 255]);
    let mut right = solid(1, 2, [9, 8, 7, 255]);
    right.pixels[4..8].copy_from_slice(&[5, 5, 5, 0]);
    let combined = compose_frames(vec![left, right]).ok().unwrap();
    assert_eq!((combined.width, combined.height), (3, 2));
    assert_eq!(combined.pixels.len(), 24);
    assert_eq!(pixel(&combined, 0, 0), [1, 2, 3, 255]);
    assert_eq!(pixel(&combined, 1, 0), [1, 2, 3, 255]);
    assert_eq!(pixel(&combined, 2, 0), [9, 8, 7, 255]);
    // Transparent pixel of the right capture, and the area below the left one.
    assert_eq!(pixel(&combined, 2, 1), [0, 0, 0, 0]);
    assert_eq!(pixel(&combined, 0, 1), [0, 0, 0, 0]);
    assert_eq!(pixel(&combined, 1, 1), [0, 0, 0, 0]);
}

#[test]
fn captures_within_the_limit_are_kept() {
    let frame = solid(1920, 2, [7, 7, 7, 255]);
    let fitted = fit_capture_limit(frame, 100, 100);
    assert_eq!((fitted.width, fitted.height), (1920, 2));
    assert_eq!(pixel(&fitted, 1919, 1), [7, 7, 7, 255]);
}

#[test]
fn large_captures_are_scaled_into_the_box() {
    let wide = solid(7700, 1, [100, 100, 100, 255]);
    let fitted = fit_capture_limit(wide, 7680, 4320);
    assert_eq!((fitted.width, fitted.height), (7680, 1));
    assert_eq!(fitted.pixels.len(), 4 * 7680);

    let tall = solid(100, 5000, [100, 100, 100, 255]);
    let fitted = fit_capture_limit(tall, 86, 4320);
    assert_eq!((fitted.width, fitted.height), (86, 4300));
    assert_eq!(fitted.pixels.len(), 4 * 86 * 4300);
}

#[test]
fn rgb_bytes_drop_alpha_of_opaque_pixels() {
    let mut frame = solid(2, 1, [1, 2, 3, 255]);
    frame.pixels[4..8].copy_from_slice(&[4, 5, 6, 255]);
    assert_eq!(frame_rgb_bytes(&frame), vec![1, 2, 3, 4, 5, 6]);
    assert_eq!(frame_rgb_bytes(&solid(5, 3, [0, 0, 0, 7])).len(), 45);
    assert_eq!(frame_rgb_bytes(&solid(1, 1, [9, 8, 7, 0])), vec![9, 8, 7]);
}

#[test]
fn same_screen_is_recorded_once() {
    let mut dedup = FrameDeduplicator::new();
    let screen = gradient(64, 48);
    match dedup.observe_image(&screen) {
        FrameVerdict::Changed { perceptual_hash } => assert_eq!(perceptual_hash.len(), 43),
        FrameVerdict::Unchanged => panic!("first frame must be recorded"),
    }
    assert_eq!(dedup.last_hash().map(|h| h.len()), Some(32));
    assert!(matches!(dedup.observe_image(&screen), FrameVerdict::Unchanged));
}

#[test]
fn empty_captures_are_hashed_too() {
    let mut dedup = FrameDeduplicator::new();
    let empty = RgbaFrame { width: 0, height: 0, pixels: vec![] };
    assert!(matches!(dedup.observe_image(&empty), FrameVerdict::Changed { .. }));
    assert!(matches!(dedup.observe_image(&empty), FrameVerdict::Unchanged));
}

#[test]
fn empty_hash_is_recorded_with_empty_text() {
    let mut dedup = FrameDeduplicator::new();
    match dedup.observe(vec![]) {
        FrameVerdict::Changed { perceptual_hash } => assert_eq!(perceptual_hash, ""),
        FrameVerdict::Unchanged => panic!("first frame must be recorded"),
    }
    assert!(matches!(dedup.observe(vec![]), FrameVerdict::Unchanged));
}

#[test]
fn embedding_blob_round_trip() {
    let components: Vec<u32> = [0.25f32, -3.0, 7.5].iter().map(|x| x.to_bits()).collect();
    let blob = encode_embedding(&components);
    assert_eq!(decode_embedding(&blob), Some(components.clone()));
    let mut longer = blob.clone();
    longer.push(0xaa);
    assert_eq!(decode_embedding(&longer), Some(components));
    assert_eq!(decode_embedding(&blob[..blob.len() - 1].to_vec()), None);
    assert_eq!(decode_embedding(&vec![1, 2, 3]), None);
    assert_eq!(decode_embedding(&vec![0; 8]), Some(vec![]));
}

#[test]
fn private_windows_are_matched_ignoring_case() {
    let blacklist = privacy_blacklist();
    assert_eq!(blacklist.len(), 13);
    assert_eq!(blacklist[0], "Incognito");
    assert_eq!(blacklist_match("Google Chrome - New INCOGNITO tab", &blacklist), Some(0));
    assert_eq!(blacklist_match("bitwarden vault", &blacklist), Some(2));
    assert_eq!(blacklist_match("Firefox - Private Browsing", &blacklist), Some(7));
    assert_eq!(blacklist_match("Terminal - cargo build", &blacklist), None);
    assert_eq!(blacklist_match("", &blacklist), None);
    assert_eq!(blacklist_match("anything", &vec![String::new()]), Some(0));
}

#[test]
fn model_directory_choice() {
    assert_eq!(choose_model_dir(&vec![false, true, true]), Some(1));
    assert_eq!(choose_model_dir(&vec![true, false]), Some(0));
    assert_eq!(choose_model_dir(&vec![false, false]), None);
    assert_eq!(choose_model_dir(&vec![]), None);
    assert!(model_files_complete(&vec![true; 5]));
    assert!(!model_files_complete(&vec![true, true, false, true, true]));
    let files = required_model_files();
    assert_eq!(files, vec![
        "model.onnx",
        "tokenizer.json",
        "config.json",
        "special_tokens_map.json",
        "tokenizer_config.json",
    ]);
}
