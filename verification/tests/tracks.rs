use spotify_reshuffle::tracks::{
    deduplicate_tracks, deduplicate_unordered, filter_valid_track_uris, is_valid_spotify_track_uri,
    is_whitespace, split_segments, validate_and_deduplicate_tracks,
};
use std::collections::HashSet;

fn pieces(uri: &str) -> Vec<String> {
    split_segments(uri).into_iter().map(|piece| piece.into_iter().collect()).collect()
}

fn owned(items: &[&str]) -> Vec<String> {
    items.iter().map(|item| item.to_string()).collect()
}

#[test]
fn test_is_valid_spotify_track_uri_valid_cases() {
    let valid_uris = vec![
        "spotify:track:4iV5W9uYEdYUVa79Axb7Rh",
        "spotify:track:1234567890abcdefghijAB",
        "spotify:track:7ouMYWpwJ422jRcDASZB7P",
        "spotify:track:a1b2c3d4e5f6g7h8i9j0k1",
    ];

    for uri in valid_uris {
        assert!(
            is_valid_spotify_track_uri(uri),
            "Expected '{}' to be a valid Spotify track URI",
            uri
        );
    }
}

#[test]
fn test_is_valid_spotify_track_uri_invalid_cases() {
    let invalid_uris = vec![
        "",
        "spotify:track:",
        "spotify:track",
        "invalid:track:4iV5W9uYEdYUVa79Axb7Rh",
        "spotify:album:4iV5W9uYEdYUVa79Axb7Rh",
        "spotify:artist:4iV5W9uYEdYUVa79Axb7Rh",
        "track:4iV5W9uYEdYUVa79Axb7Rh",
        "spotify:track",
        "spotify:track:4iV5W9uYEdYUVa79Axb7Rh:extra",
        "random string",
        "http://spotify.com/track/123",
        "spotify::track::123",
    ];

    for uri in invalid_uris {
        assert!(
            !is_valid_spotify_track_uri(uri),
            "Expected '{}' to be an invalid Spotify track URI",
            uri
        );
    }
}

#[test]
fn test_is_valid_spotify_track_uri_edge_cases() {
    let edge_cases = vec![
        ("spotify:track: ", false),
        ("spotify:track:\n", false),
        ("spotify:track:\t", false),
        ("SPOTIFY:TRACK:123", false),
        ("spotify:Track:123", false),
        ("spotify:track:123", true),
    ];

    for (uri, expected) in edge_cases {
        assert_eq!(
            is_valid_spotify_track_uri(uri),
            expected,
            "Expected '{}' to be {} valid Spotify track URI",
            uri,
            if expected { "" } else { "in" }
        );
    }
}

#[test]
fn test_validate_and_deduplicate_tracks() {
    let input_tracks = vec![
        "spotify:track:valid1".to_string(),
        "invalid:track:123".to_string(),
        "spotify:track:valid2".to_string(),
        "spotify:track:valid1".to_string(),
        "".to_string(),
        "spotify:track:valid3".to_string(),
        "spotify:album:123".to_string(),
        "spotify:track:valid2".to_string(),
    ];

    let result = validate_and_deduplicate_tracks(input_tracks);

    assert_eq!(result.len(), 3);

    for track in &result {
        assert!(is_valid_spotify_track_uri(track));
    }

    let result_set: HashSet<String> = result.into_iter().collect();
    let expected_set: HashSet<String> = vec![
        "spotify:track:valid1".to_string(),
        "spotify:track:valid2".to_string(),
        "spotify:track:valid3".to_string(),
    ]
    .into_iter()
    .collect();

    assert_eq!(result_set, expected_set);
}

#[test]
fn test_filter_valid_track_uris() {
    let mixed_tracks = vec![
        "spotify:track:valid1".to_string(),
        "invalid:track:123".to_string(),
        "spotify:track:valid2".to_string(),
        "".to_string(),
        "spotify:album:123".to_string(),
    ];

    let valid_tracks = filter_valid_track_uris(&mixed_tracks);

    assert_eq!(valid_tracks.len(), 2);
    assert_eq!(valid_tracks[0], "spotify:track:valid1");
    assert_eq!(valid_tracks[1], "spotify:track:valid2");
}

#[test]
fn test_deduplicate_tracks() {
    let tracks_with_duplicates = vec![
        "spotify:track:1".to_string(),
        "spotify:track:2".to_string(),
        "spotify:track:1".to_string(),
        "spotify:track:3".to_string(),
        "spotify:track:2".to_string(),
        "spotify:track:4".to_string(),
    ];

    let unique_tracks = deduplicate_tracks(tracks_with_duplicates);

    assert_eq!(unique_tracks.len(), 4);
    assert_eq!(unique_tracks[0], "spotify:track:1");
    assert_eq!(unique_tracks[1], "spotify:track:2");
    assert_eq!(unique_tracks[2], "spotify:track:3");
    assert_eq!(unique_tracks[3], "spotify:track:4");
}

#[test]
fn test_empty_track_list_handling() {
    let empty_tracks: Vec<String> = vec![];

    let result = validate_and_deduplicate_tracks(empty_tracks);
    assert!(result.is_empty());

    let valid_filtered = filter_valid_track_uris(&[]);
    assert!(valid_filtered.is_empty());

    let deduplicated = deduplicate_tracks(vec![]);
    assert!(deduplicated.is_empty());
}

#[test]
fn test_all_invalid_tracks() {
    let all_invalid = vec![
        "invalid:track:123".to_string(),
        "".to_string(),
        "not-a-uri".to_string(),
        "spotify:album:123".to_string(),
    ];

    let result = validate_and_deduplicate_tracks(all_invalid.clone());
    assert!(result.is_empty());

    let valid_tracks = filter_valid_track_uris(&all_invalid);
    assert!(valid_tracks.is_empty());
}

#[test]
fn test_uri_component_parsing() {
    let test_cases = vec![
        ("spotify:track:123", (3, "spotify", "track", "123")),
        ("spotify:album:abc", (3, "spotify", "album", "abc")),
        ("a:b:c", (3, "a", "b", "c")),
        ("single", (1, "single", "", "")),
        ("", (1, "", "", "")),
    ];

    for (uri, (expected_parts, part0, part1, part2)) in test_cases {
        let parts: Vec<&str> = uri.split(':').collect();
        assert_eq!(parts.len(), expected_parts);
        if expected_parts >= 1 {
            assert_eq!(parts[0], part0);
        }
        if expected_parts >= 2 {
            assert_eq!(parts[1], part1);
        }
        if expected_parts >= 3 {
            assert_eq!(parts[2], part2);
        }
        assert_eq!(pieces(uri), parts);
    }
}

#[test]
fn split_segments_keeps_empty_pieces() {
    assert_eq!(pieces(":"), vec!["", ""]);
    assert_eq!(pieces("spotify::track::123"), vec!["spotify", "", "track", "", "123"]);
    assert_eq!(pieces("a:"), vec!["a", ""]);
    assert_eq!(pieces(":a"), vec!["", "a"]);
    assert_eq!(pieces("héllo:wörld"), vec!["héllo", "wörld"]);
}

#[test]
fn split_segments_agrees_with_std_split() {
    let samples = [
        "",
        ":",
        "::",
        "spotify:track:abc",
        "spotify:track:",
        " : : ",
        "no colon here",
        "trailing:",
        ":leading",
        "\u{3000}:\u{2028}:x",
    ];
    for sample in samples {
        let expected: Vec<&str> = sample.split(':').collect();
        assert_eq!(pieces(sample), expected);
    }
}

#[test]
fn is_whitespace_agrees_with_std_on_every_char() {
    let mut code: u32 = 0;
    while code <= 0x10FFFF {
        if let Some(c) = char::from_u32(code) {
            assert_eq!(is_whitespace(c), c.is_whitespace(), "U+{:04X}", code);
        }
        code += 1;
    }
}

#[test]
fn local_id_with_inner_whitespace_is_accepted() {
    assert!(is_valid_spotify_track_uri("spotify:track:a b"));
    assert!(is_valid_spotify_track_uri("spotify:track: a "));
    assert!(is_valid_spotify_track_uri("spotify:track:\ta\n"));
    assert!(is_valid_spotify_track_uri("spotify:track:\u{a0}x\u{3000}"));
}

#[test]
fn local_id_of_only_whitespace_is_rejected() {
    assert!(!is_valid_spotify_track_uri("spotify:track: \t\n"));
    assert!(!is_valid_spotify_track_uri("spotify:track:\u{a0}"));
    assert!(!is_valid_spotify_track_uri("spotify:track:\u{2003}\u{3000}"));
    assert!(!is_valid_spotify_track_uri("spotify:track:\u{85}"));
}

#[test]
fn validity_matches_the_std_formulation() {
    let samples = [
        "spotify:track:abc",
        "spotify:track:",
        "spotify:track: ",
        "SPOTIFY:TRACK:abc",
        "spotify:track:abc:extra",
        "spotify:track",
        "spotify:track:\u{200b}",
        " spotify:track:abc",
        "spotify: track:abc",
        "spotify:track:abc ",
        "spotifyy:track:abc",
        "spotif:track:abc",
        "spotify:trac:abc",
        "spotify:tracks:abc",
        "::",
        "spotify:track:\u{1680}",
    ];
    for sample in samples {
        let parts: Vec<&str> = sample.split(':').collect();
        let expected = parts.len() == 3
            && parts[0] == "spotify"
            && parts[1] == "track"
            && !parts[2].trim().is_empty();
        assert_eq!(is_valid_spotify_track_uri(sample), expected, "{:?}", sample);
    }
}

#[test]
fn deduplicate_tracks_concrete_order() {
    let unique = deduplicate_tracks(owned(&["a", "b", "a", "c", "b"]));
    assert_eq!(unique, owned(&["a", "b", "c"]));
}

#[test]
fn deduplicate_tracks_is_idempotent() {
    let once = deduplicate_tracks(owned(&["x", "y", "x", "x", "z", "y", "w"]));
    let twice = deduplicate_tracks(once.clone());
    assert_eq!(once, twice);
    assert_eq!(once, owned(&["x", "y", "z", "w"]));
}

#[test]
fn deduplicate_tracks_compares_exact_text() {
    let unique = deduplicate_tracks(owned(&["a", "A", "a ", "a"]));
    assert_eq!(unique, owned(&["a", "A", "a "]));
}

#[test]
fn deduplicate_unordered_keeps_the_set() {
    let input = owned(&["b", "a", "b", "c", "a", "a"]);
    let unique = deduplicate_unordered(input.clone());
    assert_eq!(unique.len(), 3);
    let got: HashSet<String> = unique.into_iter().collect();
    let expected: HashSet<String> = input.into_iter().collect();
    assert_eq!(got, expected);
}

#[test]
fn filter_keeps_order_and_repeats() {
    let input = owned(&["spotify:track:b", "x", "spotify:track:a", "spotify:track:b"]);
    assert_eq!(
        filter_valid_track_uris(&input),
        owned(&["spotify:track:b", "spotify:track:a", "spotify:track:b"])
    );
}
