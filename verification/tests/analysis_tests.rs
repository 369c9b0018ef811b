use figif::analysis::AnalysisConfig;

#[test]
fn test_analysis_config_defaults() {
    let config = AnalysisConfig::default();
    assert_eq!(config.similarity_threshold, 5);
    assert_eq!(config.min_segment_frames, 2);
    assert!(config.detect_static);
}

#[test]
fn test_analysis_config_builder() {
    let config = AnalysisConfig::new()
        .with_similarity_threshold(10)
        .with_min_segment_frames(3)
        .with_static_detection(false);

    assert_eq!(config.similarity_threshold, 10);
    assert_eq!(config.min_segment_frames, 3);
    assert!(!config.detect_static);
}

#[test]
fn analysis_config_min_frames_at_least_one() {
    let config = AnalysisConfig::new().with_min_segment_frames(0);
    assert_eq!(config.min_segment_frames, 1);
    let config = AnalysisConfig::new().with_identical_threshold(3);
    assert_eq!(config.identical_threshold, 3);
}
