use vnm_player::cover::{base64_fits, cover_from_visuals, CoverCache, CoverVisual, VisualUsage};
use vnm_player::error::DecoderError;
use vnm_player::media::{
    is_audio_extension, is_nwa_path, seek_time_parts, sort_by_path, stream_format, track_time_nanos,
    track_duration_ms,
};

#[test]
fn audio_extensions_in_any_case() {
    for ext in ["mp3", "MP3", "wav", "Ogg", "fLaC", "nwa", "NWA"] {
        assert!(is_audio_extension(ext), "{}", ext);
    }
    for ext in ["mp4", "", "flacc", "wa", "txt", "mp3 "] {
        assert!(!is_audio_extension(ext), "{}", ext);
    }
}

#[test]
fn nwa_paths() {
    assert!(is_nwa_path("/music/bgm01.nwa"));
    assert!(is_nwa_path("C:\\VN\\BGM.NWA"));
    assert!(is_nwa_path(".nwa"));
    assert!(!is_nwa_path("nwa"));
    assert!(!is_nwa_path("/music/song.mp3"));
    assert!(!is_nwa_path("/music/song.nwav"));
}

#[test]
fn folder_files_come_sorted_by_path() {
    let files = vec![
        ("/m/b.mp3".to_string(), 2),
        ("/m/a.nwa".to_string(), 1),
        ("/m/B.wav".to_string(), 3),
        ("/m/a.mp3".to_string(), 4),
        ("/m/ä.ogg".to_string(), 5),
    ];
    let sorted = sort_by_path(files);
    let paths: Vec<&str> = sorted.iter().map(|f| f.0.as_str()).collect();
    assert_eq!(paths, vec!["/m/B.wav", "/m/a.mp3", "/m/a.nwa", "/m/b.mp3", "/m/ä.ogg"]);
    assert_eq!(sorted[0].1, 3);
    let mut expected: Vec<String> = paths.iter().map(|p| p.to_string()).collect();
    expected.sort();
    assert_eq!(paths, expected);
}

#[test]
fn sort_handles_prefixes_and_empty() {
    assert!(sort_by_path(Vec::new()).is_empty());
    let sorted = sort_by_path(vec![("ab".to_string(), 1), ("a".to_string(), 2)]);
    assert_eq!(sorted[0].0, "a");
    assert_eq!(sorted[1].0, "ab");
}

#[test]
fn track_numbers() {
    assert_eq!(stream_format(None, None), (44100, 2));
    assert_eq!(stream_format(Some(48000), Some(1)), (48000, 1));
    assert_eq!(track_duration_ms(Some(2_500_000_000), Some(10), 44100), 2500);
    assert_eq!(track_duration_ms(None, Some(88200), 44100), 2000);
    assert_eq!(track_duration_ms(None, None, 44100), 0);
    assert_eq!(seek_time_parts(61234), (61, 234_000_000));
    assert_eq!(seek_time_parts(999), (0, 999_000_000));
}

fn visual(usage: Option<VisualUsage>, media_type: Option<&str>, data: &[u8]) -> CoverVisual {
    CoverVisual { usage, media_type: media_type.map(|m| m.to_string()), data: data.to_vec() }
}

#[test]
fn cover_is_first_usable_picture() {
    let visuals = vec![
        visual(Some(VisualUsage::Different), Some("image/png"), b"back"),
        visual(Some(VisualUsage::FrontCover), Some("image/png"), b"hello"),
        visual(None, None, b"other"),
    ];
    assert_eq!(cover_from_visuals(&visuals), Some("data:image/png;base64,aGVsbG8=".to_string()));
    let visuals = vec![visual(None, None, b"hell")];
    assert_eq!(cover_from_visuals(&visuals), Some("data:image/jpeg;base64,aGVsbA==".to_string()));
    let visuals = vec![visual(Some(VisualUsage::Other), Some("image/gif"), b"hel")];
    assert_eq!(cover_from_visuals(&visuals), Some("data:image/gif;base64,aGVs".to_string()));
    let visuals = vec![visual(Some(VisualUsage::Different), None, b"x")];
    assert_eq!(cover_from_visuals(&visuals), None);
    assert_eq!(cover_from_visuals(&Vec::new()), None);
}

#[test]
fn error_descriptions() {
    assert_eq!(DecoderError::Decode("bad".to_string()).describe(), "Decode error: bad");
    assert_eq!(DecoderError::EndOfStream.describe(), "End of stream");
    assert_eq!(DecoderError::SeekError("far".to_string()).describe(), "Seek error: far");
    assert_eq!(
        DecoderError::UnsupportedFormat("x".to_string()).describe(),
        "Unsupported format: x"
    );
    let io = std::io::Error::new(std::io::ErrorKind::Other, "disk");
    assert_eq!(DecoderError::Io(io).describe(), "IO error: disk");
    let from: DecoderError = std::io::Error::new(std::io::ErrorKind::Other, "x").into();
    assert!(matches!(from, DecoderError::Io(_)));
}

#[test]
fn cover_cache_gives_back_what_was_recorded() {
    let mut cache = CoverCache::new();
    assert_eq!(cache.get("a.mp3"), None);
    cache.insert("a.mp3".to_string(), None);
    cache.insert("b.mp3".to_string(), Some("data:x".to_string()));
    assert_eq!(cache.get("a.mp3"), Some(None));
    assert_eq!(cache.get("b.mp3"), Some(Some("data:x".to_string())));
    cache.insert("a.mp3".to_string(), Some("data:y".to_string()));
    assert_eq!(cache.get("a.mp3"), Some(Some("data:y".to_string())));
    assert_eq!(cache.entries.len(), 2);
    assert!(base64_fits(1000));
    assert!(!base64_fits(usize::MAX));
}

#[test]
fn sort_keeps_order_of_equal_paths() {
    let sorted = sort_by_path(vec![
        ("b".to_string(), 1),
        ("a".to_string(), 2),
        ("b".to_string(), 3),
        ("a".to_string(), 4),
    ]);
    let got: Vec<(&str, u64)> = sorted.iter().map(|f| (f.0.as_str(), f.1)).collect();
    assert_eq!(got, vec![("a", 2), ("a", 4), ("b", 1), ("b", 3)]);
}

#[test]
fn track_times_from_time_bases() {
    assert_eq!(track_time_nanos(1, 44100, 88200), Some(2_000_000_000));
    assert_eq!(track_time_nanos(1, 1000, 1500), Some(1_500_000_000));
    assert_eq!(track_time_nanos(1, 3, -1), Some(-333_333_333));
    // the product overflows an i64 but the time still fits
    assert_eq!(track_time_nanos(1000, 1000, 10_000_000_000), Some(10_000_000_000_000_000_000));
    // the whole seconds overflow an i64
    assert_eq!(track_time_nanos(u32::MAX, 1, i64::MAX), None);
    let nanos = track_time_nanos(1, 48000, 480000);
    assert_eq!(track_duration_ms(nanos, None, 48000), 10000);
}
