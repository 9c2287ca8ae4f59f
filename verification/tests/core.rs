use sovereign::capture::{hashes_differ, FrameDeduplicator, FrameVerdict};
use sovereign::indexing::{encode_embedding, plan_embedding, plan_indexing, EmbeddingRequest};
use sovereign::layout::{exceeds_capture_limit, frame_file_name, plan_canvas, CaptureError};
use sovereign::ranking::rank_by_score;
use sovereign::retention::{select_expired, RETENTION_DAYS, SECONDS_PER_DAY};
use sovereign::search::{
    lookup_score, order_fetched_frames, recent_frames_limit, similarity_bits, similarity_key,
    top_matches,
    validate_query, QueryCheck, MAX_SEARCH_RESULTS, ZERO_SIMILARITY_KEY,
};
use sovereign::stats::DatabaseStats;
use sovereign::text::trim_whitespace;

#[test]
fn trim_removes_surrounding_white_space() {
    assert_eq!(trim_whitespace("  hello world \n\t"), "hello world");
    assert_eq!(trim_whitespace("\u{3000}x y\u{a0}"), "x y");
    assert_eq!(trim_whitespace(""), "");
    assert_eq!(trim_whitespace(" \r\n "), "");
    assert_eq!(trim_whitespace("inner  space"), "inner  space");
}

#[test]
fn trim_is_idempotent() {
    let once = trim_whitespace("\t  screen text  \n");
    let twice = trim_whitespace(&once);
    assert_eq!(once, twice);
    assert_eq!(once, "screen text");
}

#[test]
fn recent_limit_is_capped() {
    assert_eq!(recent_frames_limit(0), 0);
    assert_eq!(recent_frames_limit(50), 50);
    assert_eq!(recent_frames_limit(1000), 1000);
    assert_eq!(recent_frames_limit(1001), 1000);
    assert_eq!(recent_frames_limit(usize::MAX), 1000);
}

#[test]
fn blank_query_has_no_results() {
    assert!(matches!(validate_query(""), QueryCheck::Blank));
    assert!(matches!(validate_query("   \n\t"), QueryCheck::Blank));
}

#[test]
fn query_is_trimmed() {
    match validate_query("  terminal output  ") {
        QueryCheck::Accepted(q) => assert_eq!(q, "terminal output"),
        _ => panic!("query should be accepted"),
    }
}

#[test]
fn query_length_is_counted_in_bytes_after_trimming() {
    let exact = "a".repeat(1000);
    assert!(matches!(validate_query(&exact), QueryCheck::Accepted(_)));
    let padded = format!("   {}   ", exact);
    assert!(matches!(validate_query(&padded), QueryCheck::Accepted(_)));
    assert!(matches!(validate_query(&"a".repeat(1001)), QueryCheck::TooLong));
    // 501 characters of two bytes each: 1002 bytes.
    assert!(matches!(validate_query(&"\u{e9}".repeat(501)), QueryCheck::TooLong));
    assert!(matches!(validate_query(&"\u{e9}".repeat(500)), QueryCheck::Accepted(_)));
}

#[test]
fn similarity_keys_follow_float_order() {
    let key = |x: f32| similarity_key(x.to_bits());
    assert_eq!(key(0.0), ZERO_SIMILARITY_KEY);
    assert_eq!(key(-0.0), ZERO_SIMILARITY_KEY);
    assert_eq!(key(1.0), 0x8000_0000 + 0x3f80_0000);
    assert!(key(1.0) > key(0.5));
    assert!(key(0.5) > key(0.0));
    assert!(key(0.0) > key(-0.25));
    assert!(key(-0.25) > key(-1.0));
    assert!(key(f32::MIN) < key(f32::MAX));
}

#[test]
fn similarity_keys_map_back_to_scores() {
    for x in [0.0f32, 1.0, -1.0, 0.3333, -0.75, f32::MAX, f32::MIN, f32::INFINITY] {
        assert_eq!(f32::from_bits(similarity_bits(similarity_key(x.to_bits()))), x);
    }
    assert_eq!(similarity_bits(similarity_key((-0.0f32).to_bits())), 0);
    assert_eq!(similarity_bits(ZERO_SIMILARITY_KEY), 0);
}

#[test]
fn top_matches_keeps_twenty_best_in_order() {
    let scores: Vec<(i64, u32)> = (0..30).map(|i| (i as i64, (i * 7 % 30) as u32)).collect();
    let top = top_matches(&scores);
    assert_eq!(top.len(), MAX_SEARCH_RESULTS);
    for w in top.windows(2) {
        assert!(w[0].1 >= w[1].1);
    }
    assert_eq!(top[0].1, 29);
    assert_eq!(top[19].1, 10);
    let best: Vec<u32> = top.iter().map(|e| e.1).collect();
    for (_, s) in &scores {
        if !best.contains(s) {
            assert!(*s < 10);
        }
    }
}

#[test]
fn ties_keep_store_order() {
    let scores = vec![(1, 5u32), (2, 9), (3, 5), (4, 9), (5, 1)];
    assert_eq!(top_matches(&scores), vec![(2, 9), (4, 9), (1, 5), (3, 5), (5, 1)]);
    assert_eq!(rank_by_score(&scores, 3), vec![(2, 9), (4, 9), (1, 5)]);
    assert_eq!(rank_by_score(&scores, 0), Vec::<(i64, u32)>::new());
    assert_eq!(top_matches(&Vec::new()), Vec::<(i64, u32)>::new());
}

#[test]
fn score_lookup_takes_first_match_or_zero() {
    let top = vec![(7, 40u32), (3, 30), (7, 10)];
    assert_eq!(lookup_score(&top, 7), 40);
    assert_eq!(lookup_score(&top, 3), 30);
    assert_eq!(lookup_score(&top, 99), ZERO_SIMILARITY_KEY);
}

#[test]
fn fetched_frames_are_ordered_by_score() {
    let top = vec![(10, 0x8000_0300u32), (20, 0x8000_0200), (30, 0x8000_0100)];
    // The store returned the frames in another order, and one unknown frame.
    let fetched = vec![30, 99, 10, 20];
    assert_eq!(
        order_fetched_frames(&top, &fetched),
        vec![(2, 0x8000_0300), (3, 0x8000_0200), (0, 0x8000_0100), (1, ZERO_SIMILARITY_KEY)]
    );
}

#[test]
fn hash_distance_counts_shared_bytes() {
    assert!(!hashes_differ(&vec![1, 2, 3], &vec![1, 2, 3]));
    assert!(hashes_differ(&vec![1, 2, 3], &vec![1, 2, 7]));
    assert!(hashes_differ(&vec![0b1000_0000], &vec![0]));
    assert!(!hashes_differ(&vec![1, 2], &vec![1, 2, 3]));
    assert!(!hashes_differ(&vec![], &vec![5]));
}

#[test]
fn first_frame_is_recorded_with_base64_hash() {
    let mut dedup = FrameDeduplicator::new();
    assert!(dedup.last_hash().is_none());
    match dedup.observe(vec![1, 2, 3, 4]) {
        FrameVerdict::Changed { perceptual_hash } => assert_eq!(perceptual_hash, "AQIDBA"),
        FrameVerdict::Unchanged => panic!("first frame must be recorded"),
    }
    assert_eq!(dedup.last_hash(), Some(&vec![1, 2, 3, 4]));
}

#[test]
fn repeated_frame_is_unchanged() {
    let mut dedup = FrameDeduplicator::new();
    let hash: Vec<u8> = (0..32).collect();
    assert!(matches!(dedup.observe(hash.clone()), FrameVerdict::Changed { .. }));
    assert!(matches!(dedup.observe(hash.clone()), FrameVerdict::Unchanged));
    assert!(matches!(dedup.observe(hash.clone()), FrameVerdict::Unchanged));
    assert_eq!(dedup.last_hash(), Some(&hash));
}

#[test]
fn changed_frame_is_recorded() {
    let mut dedup = FrameDeduplicator::new();
    let first: Vec<u8> = (0..32).collect();
    let mut second = first.clone();
    second[31] ^= 1;
    dedup.observe(first);
    match dedup.observe(second.clone()) {
        FrameVerdict::Changed { perceptual_hash } => {
            assert_eq!(perceptual_hash, "AAECAwQFBgcICQoLDA0ODxAREhMUFRYXGBkaGxwdHh4")
        }
        FrameVerdict::Unchanged => panic!("changed frame must be recorded"),
    }
    assert_eq!(dedup.last_hash(), Some(&second));
}

#[test]
fn base64_tail_groups() {
    for (bytes, text) in [(vec![0u8, 0, 0], "AAAA"), (vec![0xff], "/w"), (vec![0xfb, 0xff], "+/8")] {
        let mut dedup = FrameDeduplicator::new();
        match dedup.observe(bytes) {
            FrameVerdict::Changed { perceptual_hash } => assert_eq!(perceptual_hash, text),
            FrameVerdict::Unchanged => panic!("first frame must be recorded"),
        }
    }
}

#[test]
fn no_monitor_is_an_error() {
    assert!(matches!(plan_canvas(&vec![]), Err(CaptureError::NoMonitors)));
}

#[test]
fn monitors_are_laid_side_by_side() {
    let layout = plan_canvas(&vec![(1920, 1080), (2560, 1440), (1280, 1024)]).ok().unwrap();
    assert_eq!(layout.width, 5760);
    assert_eq!(layout.height, 1440);
    assert_eq!(layout.offsets, vec![0, 1920, 4480]);
    let single = plan_canvas(&vec![(3024, 1964)]).ok().unwrap();
    assert_eq!((single.width, single.height, single.offsets), (3024, 1964, vec![0]));
}

#[test]
fn capture_limit_is_8k() {
    assert!(!exceeds_capture_limit(7680, 4320));
    assert!(exceeds_capture_limit(7681, 100));
    assert!(exceeds_capture_limit(100, 4321));
    assert!(!exceeds_capture_limit(0, 0));
}

#[test]
fn frame_file_names() {
    assert_eq!(frame_file_name(0), "0.webp");
    assert_eq!(frame_file_name(7), "7.webp");
    assert_eq!(frame_file_name(1700000000), "1700000000.webp");
    assert_eq!(frame_file_name(u64::MAX), "18446744073709551615.webp");
}

#[test]
fn embedding_blob_layout() {
    let bits: Vec<u32> = [1.0f32, -2.5].iter().map(|x| x.to_bits()).collect();
    let blob = encode_embedding(&bits);
    assert_eq!(blob, vec![2, 0, 0, 0, 0, 0, 0, 0, 0, 0, 0x80, 0x3f, 0, 0, 0x20, 0xc0]);
    assert_eq!(blob, bincode::serialize(&[1.0f32, -2.5][..]).unwrap());
    assert_eq!(encode_embedding(&Vec::new()), vec![0u8; 8]);
}

#[test]
fn text_indexing_plans() {
    let plan = plan_indexing("some text", true);
    assert!(plan.store_text && plan.embed_text);
    let plan = plan_indexing("some text", false);
    assert!(plan.store_text && !plan.embed_text);
    let plan = plan_indexing("", true);
    assert!(!plan.store_text && !plan.embed_text);
}

#[test]
fn embedding_requests() {
    assert_eq!(plan_embedding("", false), EmbeddingRequest::EmptyText);
    assert_eq!(plan_embedding("", true), EmbeddingRequest::EmptyText);
    assert_eq!(plan_embedding("x", false), EmbeddingRequest::ModelMissing);
    assert_eq!(plan_embedding("x", true), EmbeddingRequest::Embed);
}

#[test]
fn frames_older_than_retention_are_pruned() {
    let day = SECONDS_PER_DAY;
    let now = 100 * day;
    let frames = vec![
        (1, now - 15 * day),
        (2, now - 14 * day),
        (3, now - 14 * day - 1),
        (4, now),
        (5, 0),
    ];
    assert_eq!(select_expired(&frames, now, RETENTION_DAYS), vec![1, 3, 5]);
    assert_eq!(select_expired(&frames, now, u64::MAX), Vec::<i64>::new());
    assert_eq!(select_expired(&frames, 0, RETENTION_DAYS), Vec::<i64>::new());
}

#[test]
fn stats_hold_their_counts() {
    let stats = DatabaseStats { total_frames: 3, total_ocr_entries: 2, total_embeddings: 1 };
    assert_eq!(stats.total_frames, 3);
    assert_eq!(stats.total_ocr_entries, 2);
    assert_eq!(stats.total_embeddings, 1);
}
