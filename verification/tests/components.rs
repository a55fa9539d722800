use spotify_reshuffle::aggregate::{collect_valid, present_items, SourceSet};
use spotify_reshuffle::batch::{end_of_batch, split_batches, take_batch, MAX_BATCH};
use spotify_reshuffle::protocol::{MISSING_LINK, SEARCH_LIMIT, TARGET_DESCRIPTION};
use spotify_reshuffle::tracks::{NAMESPACE, TRACK_KIND};
use spotify_reshuffle::ids::IdFault;
use spotify_reshuffle::reconcile::{find_owned_match, Candidate};
use spotify_reshuffle::shuffle::shuffle_tracks;
use spotify_reshuffle::tracks::deduplicate_unordered;
use spotify_reshuffle::vet::{first_fault, strict_check, vet_batch, Refusal};

fn numbered(count: usize) -> Vec<String> {
    (0..count).map(|n| format!("spotify:track:n{}", n)).collect()
}

fn texts(items: &[&str]) -> Vec<String> {
    items.iter().map(|item| item.to_string()).collect()
}

fn named(id: &str, name: &str, owner: &str) -> Candidate {
    Candidate { id: id.to_string(), name: name.to_string(), owner: owner.to_string() }
}

#[test]
fn batch_limit_is_one_hundred() {
    assert_eq!(MAX_BATCH, 100);
}

#[test]
fn fixed_texts_and_limits() {
    assert_eq!(SEARCH_LIMIT, 50);
    assert_eq!(TARGET_DESCRIPTION, "Automatically generated shuffled playlist");
    assert_eq!(MISSING_LINK, "N/A");
    assert_eq!(NAMESPACE, "spotify");
    assert_eq!(TRACK_KIND, "track");
}

#[test]
fn end_of_batch_is_capped_by_the_length() {
    assert_eq!(end_of_batch(250, 0, 100), 100);
    assert_eq!(end_of_batch(250, 100, 100), 200);
    assert_eq!(end_of_batch(250, 200, 100), 250);
    assert_eq!(end_of_batch(250, 250, 100), 250);
    assert_eq!(end_of_batch(0, 0, 100), 0);
    assert_eq!(end_of_batch(10, 3, 0), 3);
    assert_eq!(end_of_batch(usize::MAX, usize::MAX - 1, usize::MAX), usize::MAX);
}

#[test]
fn split_batches_of_250_items() {
    let items = numbered(250);
    let parts = split_batches(&items, 100);
    let sizes: Vec<usize> = parts.iter().map(|part| part.len()).collect();
    assert_eq!(sizes, vec![100, 100, 50]);
    assert_eq!(parts.concat(), items);
    assert_eq!(parts[1][0], "spotify:track:n100");
    assert_eq!(parts[2][49], "spotify:track:n249");
}

#[test]
fn split_batches_edge_sizes() {
    assert!(split_batches(&numbered(0), 100).is_empty());
    assert_eq!(split_batches(&numbered(1), 100), vec![numbered(1)]);
    assert_eq!(split_batches(&numbered(100), 100), vec![numbered(100)]);
    let parts = split_batches(&numbered(200), 100);
    assert_eq!(parts.len(), 2);
    assert_eq!(parts[0].len(), 100);
    assert_eq!(parts[1].len(), 100);
    let singles = split_batches(&numbered(3), 1);
    assert_eq!(singles.len(), 3);
    assert_eq!(singles[2], vec!["spotify:track:n2".to_string()]);
    let wide = split_batches(&numbered(3), usize::MAX);
    assert_eq!(wide, vec![numbered(3)]);
}

#[test]
fn split_batches_agrees_with_std_chunks() {
    for count in [0usize, 1, 2, 5, 6, 7, 12, 13] {
        for size in [1usize, 2, 3, 6, 7, 20] {
            let items = numbered(count);
            let expected: Vec<Vec<String>> = items.chunks(size).map(|c| c.to_vec()).collect();
            assert_eq!(split_batches(&items, size), expected, "{} by {}", count, size);
        }
    }
}

#[test]
fn take_batch_stops_at_the_end() {
    let items = numbered(10);
    assert_eq!(take_batch(&items, 0, 4), items[0..4].to_vec());
    assert_eq!(take_batch(&items, 8, 4), items[8..10].to_vec());
    assert_eq!(take_batch(&items, 10, 4), Vec::<String>::new());
    assert_eq!(take_batch(&items, 3, 0), Vec::<String>::new());
    assert_eq!(take_batch(&items, 2, usize::MAX), items[2..10].to_vec());
}

#[test]
fn source_set_is_empty_only_without_any_source() {
    assert!(SourceSet { playlists: vec![], include_saved: false }.is_empty());
    assert!(!SourceSet { playlists: vec![], include_saved: true }.is_empty());
    assert!(!SourceSet { playlists: texts(&["a"]), include_saved: false }.is_empty());
    assert!(!SourceSet { playlists: texts(&["a"]), include_saved: true }.is_empty());
}

#[test]
fn collect_valid_skips_missing_and_counts_rejected() {
    let items = vec![
        Some("spotify:track:a".to_string()),
        None,
        Some("spotify:album:b".to_string()),
        Some("spotify:track:a".to_string()),
        Some("".to_string()),
        None,
        Some("spotify:track: ".to_string()),
        Some("spotify:track:c".to_string()),
    ];
    let out = collect_valid(&items);
    assert_eq!(out.tracks, texts(&["spotify:track:a", "spotify:track:a", "spotify:track:c"]));
    assert_eq!(out.rejected, 3);
}

#[test]
fn collect_valid_of_nothing() {
    let out = collect_valid(&vec![]);
    assert!(out.tracks.is_empty());
    assert_eq!(out.rejected, 0);
    let out = collect_valid(&vec![None, None]);
    assert!(out.tracks.is_empty());
    assert_eq!(out.rejected, 0);
}

#[test]
fn collect_then_deduplicate_keeps_clean_input() {
    let clean = numbered(25);
    let items: Vec<Option<String>> = clean.iter().cloned().map(Some).collect();
    let out = collect_valid(&items);
    assert_eq!(out.rejected, 0);
    assert_eq!(out.tracks, clean);
    let mut unique = deduplicate_unordered(out.tracks);
    unique.sort();
    let mut expected = clean;
    expected.sort();
    assert_eq!(unique, expected);
}

#[test]
fn present_items_keeps_every_identifier() {
    let items = vec![
        None,
        Some("anything".to_string()),
        Some("".to_string()),
        None,
        Some("anything".to_string()),
    ];
    assert_eq!(present_items(&items), texts(&["anything", "", "anything"]));
    assert!(present_items(&vec![]).is_empty());
}

#[test]
fn find_owned_match_takes_the_first_owned_one() {
    let name = "Mix".to_string();
    let me = "me".to_string();
    let found = vec![
        named("a", "Mix", "you"),
        named("b", "mix", "me"),
        named("c", "Mix", "me"),
        named("d", "Mix", "me"),
    ];
    assert_eq!(find_owned_match(&found, &name, &me), Some(2));
    assert_eq!(find_owned_match(&found, &name, &"you".to_string()), Some(0));
    assert_eq!(find_owned_match(&found, &"mix".to_string(), &me), Some(1));
    assert_eq!(find_owned_match(&found, &name, &"ME".to_string()), None);
    assert_eq!(find_owned_match(&found, &"Mix ".to_string(), &me), None);
    assert_eq!(find_owned_match(&vec![], &name, &me), None);
}

#[test]
fn strict_check_follows_the_catalog_parser() {
    let items = texts(&[
        "spotify:track:4iV5W9uYEdYUVa79Axb7Rh",
        "spotify/track/4iV5W9uYEdYUVa79Axb7Rh",
        "spotify:album:4iV5W9uYEdYUVa79Axb7Rh",
        "spotify:track:with space",
        "spotify:track:dash-ed",
        "spotify:track",
        "spotify-track-abc",
        "4iV5W9uYEdYUVa79Axb7Rh",
        "",
        "spotify:nothing:abc",
        "spotify:track:abc:def",
        "spotify:track:",
    ]);
    assert_eq!(
        strict_check(&items),
        vec![
            None,
            None,
            Some(IdFault::InvalidType),
            Some(IdFault::InvalidId),
            Some(IdFault::InvalidId),
            Some(IdFault::InvalidFormat),
            Some(IdFault::InvalidPrefix),
            Some(IdFault::InvalidPrefix),
            Some(IdFault::InvalidPrefix),
            Some(IdFault::InvalidType),
            Some(IdFault::InvalidType),
            None,
        ]
    );
}

#[test]
fn strict_check_agrees_with_rspotify() {
    let samples = texts(&[
        "spotify:track:abc",
        "spotify:track:a_b",
        "spotify:episode:abc",
        "spotify:Track:abc",
        "SPOTIFY:track:abc",
        "spotify:track:é",
        "spotify/track:abc",
        "spotify:track/abc",
    ]);
    let findings = strict_check(&samples);
    for (sample, finding) in samples.iter().zip(findings) {
        let expected = match rspotify::model::TrackId::from_uri(sample) {
            Ok(_) => None,
            Err(rspotify::model::IdError::InvalidPrefix) => Some(IdFault::InvalidPrefix),
            Err(rspotify::model::IdError::InvalidFormat) => Some(IdFault::InvalidFormat),
            Err(rspotify::model::IdError::InvalidType) => Some(IdFault::InvalidType),
            Err(rspotify::model::IdError::InvalidId) => Some(IdFault::InvalidId),
        };
        assert_eq!(finding, expected, "{:?}", sample);
    }
}

#[test]
fn first_fault_reports_the_earliest() {
    assert_eq!(first_fault(&vec![]), None);
    assert_eq!(first_fault(&vec![None, None]), None);
    assert_eq!(
        first_fault(&vec![None, Some(IdFault::InvalidId), Some(IdFault::InvalidType)]),
        Some(Refusal { index: 1, fault: IdFault::InvalidId })
    );
    assert_eq!(
        first_fault(&vec![Some(IdFault::InvalidPrefix)]),
        Some(Refusal { index: 0, fault: IdFault::InvalidPrefix })
    );
    assert_eq!(
        first_fault(&vec![None, None, None, Some(IdFault::InvalidFormat)]),
        Some(Refusal { index: 3, fault: IdFault::InvalidFormat })
    );
}

#[test]
fn vet_batch_refuses_on_the_first_bad_identifier() {
    assert_eq!(vet_batch(&numbered(5)), None);
    assert_eq!(vet_batch(&vec![]), None);
    let mut batch = numbered(5);
    batch[3] = "spotify:track:not ok".to_string();
    batch[4] = "spotify:album:abc".to_string();
    assert_eq!(vet_batch(&batch), Some(Refusal { index: 3, fault: IdFault::InvalidId }));
}

#[test]
fn shuffle_keeps_every_track() {
    let mut input = numbered(300);
    input.push("spotify:track:n7".to_string());
    input.push("spotify:track:n7".to_string());
    let mut shuffled = shuffle_tracks(input.clone());
    assert_eq!(shuffled.len(), input.len());
    shuffled.sort();
    input.sort();
    assert_eq!(shuffled, input);
}

#[test]
fn shuffle_changes_the_order() {
    let input = numbered(300);
    let first = shuffle_tracks(input.clone());
    let second = shuffle_tracks(input.clone());
    assert_ne!(first, input);
    assert_ne!(first, second);
}

#[test]
fn shuffle_of_short_sequences() {
    assert!(shuffle_tracks(vec![]).is_empty());
    assert_eq!(shuffle_tracks(numbered(1)), numbered(1));
}
