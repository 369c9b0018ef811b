use figif::decoders::BufferedDecoder;
use figif::encoders::StandardEncoder;
use figif::pipeline::Figif;
use figif::types::{EncodableFrame, EncodeConfig, RgbaImage};

/// A test GIF with `static_frames` identical red frames followed by `motion_frames`
/// changing ones, 100ms each.
fn create_test_gif(width: u16, height: u16, static_frames: usize, motion_frames: usize) -> Vec<u8> {
    let mut frames = Vec::new();

    for _ in 0..static_frames {
        let img = RgbaImage::from_pixel(width as u32, height as u32, [255, 0, 0, 255]);
        frames.push(EncodableFrame::new(img, 10));
    }

    for i in 0..motion_frames {
        let mut data = Vec::with_capacity(width as usize * height as usize * 4);
        for y in 0..height as u32 {
            for x in 0..width as u32 {
                let color = (i * 20).min(255) as u8;
                data.extend_from_slice(&[color, x as u8, y as u8, 255]);
            }
        }
        let img = RgbaImage { width: width as u32, height: height as u32, data };
        frames.push(EncodableFrame::new(img, 10));
    }

    let encoder = StandardEncoder::new();
    let config = EncodeConfig::default();
    encoder.encode(&frames, &config).unwrap()
}

#[test]
fn test_full_pipeline_analysis() {
    let bytes = create_test_gif(32, 32, 5, 5);

    let figif = Figif::new().similarity_threshold(5).min_segment_frames(2);
    let analysis = figif.analyze_bytes(&bytes).expect("Failed to analyze GIF");

    assert_eq!(analysis.frame_count(), 10);
    assert!(analysis.segment_count() >= 2);

    let static_segments: Vec<_> = analysis.segments.iter().filter(|s| s.is_static).collect();
    assert!(!static_segments.is_empty(), "Should have detected at least one static segment");
    assert_eq!(static_segments[0].frame_count(), 5);
}

#[test]
fn test_optimization_removals() {
    let bytes = create_test_gif(32, 32, 5, 5);

    let figif = Figif::new().similarity_threshold(5).min_segment_frames(2);
    let analysis = figif.analyze_bytes(&bytes).expect("Failed to analyze GIF");

    let ops = analysis.pauses().remove();
    let optimized_frames = analysis.apply_operations(&ops);

    assert_eq!(optimized_frames.len(), 5);
}

#[test]
fn test_optimization_capping() {
    let bytes = create_test_gif(32, 32, 10, 0);

    let figif = Figif::new().similarity_threshold(5).min_segment_frames(2);
    let analysis = figif.analyze_bytes(&bytes).expect("Failed to analyze GIF");

    let ops = analysis.pauses().cap(200);
    let optimized_frames = analysis.apply_operations(&ops);

    assert_eq!(optimized_frames.len(), 1);
    assert_eq!(optimized_frames[0].delay_centiseconds, 20);
}

#[test]
fn test_metadata_extraction() {
    let bytes = create_test_gif(16, 24, 1, 0);

    let decoder = BufferedDecoder::new();
    let metadata = decoder.metadata_from_bytes(&bytes).expect("Failed to get metadata");

    assert_eq!(metadata.width, 16);
    assert_eq!(metadata.height, 24);
    assert_eq!(metadata.frame_count, 1);
}

#[test]
fn metadata_totals_durations() {
    let bytes = create_test_gif(8, 8, 3, 2);
    let metadata = BufferedDecoder::new().metadata_from_bytes(&bytes).unwrap();
    assert_eq!(metadata.frame_count, 5);
    assert_eq!(metadata.total_duration_ms, 500);
}

#[test]
fn empty_data_is_refused() {
    let figif = Figif::new();
    assert!(matches!(figif.analyze_bytes(&[]), Err(figif::error::FigifError::EmptyData)));
}

#[test]
fn garbage_is_a_decode_error() {
    let figif = Figif::new();
    assert!(matches!(figif.analyze_bytes(b"not a gif"), Err(figif::error::FigifError::DecodeError { .. })));
}

#[test]
fn decoding_gives_back_the_encoded_frames() {
    let bytes = create_test_gif(4, 3, 2, 1);
    let frames = BufferedDecoder::new().decode_bytes(&bytes).unwrap();
    assert_eq!(frames.len(), 3);
    assert_eq!(frames[0].image.width, 4);
    assert_eq!(frames[0].image.height, 3);
    assert_eq!(&frames[0].image.data[0..4], &[255, 0, 0, 255]);
    assert_eq!(frames[2].delay_centiseconds, 10);
}

#[test]
fn export_roundtrip_keeps_frame_count() {
    let bytes = create_test_gif(8, 8, 4, 3);
    let analysis = Figif::new().analyze_bytes(&bytes).unwrap();
    let ops = analysis.pauses().collapse(300);
    let out = analysis.export(&StandardEncoder::new(), &ops, &EncodeConfig::default()).unwrap();
    let meta = BufferedDecoder::new().metadata_from_bytes(&out).unwrap();
    assert_eq!(meta.frame_count, 4);
    assert_eq!(meta.total_duration_ms, 600);
}

#[test]
fn memory_limit_refuses_large_screens() {
    let bytes = create_test_gif(16, 16, 1, 0);
    match BufferedDecoder::new().with_memory_limit(100).decode_bytes(&bytes) {
        Err(figif::error::FigifError::InvalidConfig { message }) => {
            assert_eq!(message, "GIF dimensions 16x16 exceed memory limit")
        }
        _ => panic!("expected a refusal"),
    }
    assert!(BufferedDecoder::new().with_memory_limit(4096).decode_bytes(&bytes).is_ok());
}
