use kinematic::text_morph::{cluster_texts, match_clusters, partition_clusters, split_text_lines};

fn index_distance_keys(from: usize, to: usize) -> Vec<Vec<u32>> {
    (0..from)
        .map(|source| {
            (0..to)
                .map(|target| (source as f32 - target as f32).powi(2).to_bits())
                .collect()
        })
        .collect()
}

#[test]
fn morph_matches_reordered_and_repeated_graphemes() {
    let from = cluster_texts("ABBA");
    let to = cluster_texts("BABA");
    let matches = match_clusters(&from, &to, &index_distance_keys(from.len(), to.len()));

    assert_eq!(matches.len(), 4);
    assert!(
        matches
            .iter()
            .all(|&(source, target)| from[source] == to[target])
    );
}

#[test]
fn morph_treats_joined_emoji_as_one_character() {
    let from = cluster_texts("A👨‍👩‍👧B");
    let to = cluster_texts("B👨‍👩‍👧A");

    assert_eq!(from.len(), 3);
    assert_eq!(to.len(), 3);
    assert_eq!(
        match_clusters(&from, &to, &index_distance_keys(from.len(), to.len())).len(),
        3
    );
}

#[test]
fn common_subsequence_stays_in_place_and_the_rest_takes_the_nearest_twin() {
    let from = cluster_texts("ABBA");
    let to = cluster_texts("BABA");
    let matches = match_clusters(&from, &to, &index_distance_keys(4, 4));
    assert_eq!(matches, vec![(0, 1), (1, 0), (2, 2), (3, 3)]);
}

#[test]
fn unmatched_clusters_stay_unmatched() {
    let from = cluster_texts("KEEP");
    let to = cluster_texts("SKEEP!");
    let matches = match_clusters(&from, &to, &index_distance_keys(4, 6));
    assert_eq!(matches, vec![(0, 1), (1, 2), (2, 3), (3, 4)]);
    let partition = partition_clusters(from.len(), to.len(), &matches);
    assert_eq!(partition.matched_from, vec![true, true, true, true]);
    assert_eq!(
        partition.matched_to,
        vec![false, true, true, true, true, false]
    );
    assert_eq!(partition.last_from_match, Some(3));
    assert_eq!(partition.last_to_match, Some(4));
}

#[test]
fn nearest_key_breaks_ties_by_index() {
    let from = vec!["A".to_owned(), "B".to_owned()];
    let to = vec!["B".to_owned(), "A".to_owned(), "A".to_owned()];
    assert_eq!(
        match_clusters(&from, &to, &vec![vec![0, 7, 3], vec![0, 0, 0]]),
        vec![(0, 2), (1, 0)]
    );
    assert_eq!(
        match_clusters(&from, &to, &vec![vec![0, 5, 5], vec![0, 0, 0]]),
        vec![(0, 1), (1, 0)]
    );
}

#[test]
fn lines_split_at_newlines_and_drop_carriage_returns() {
    assert_eq!(
        split_text_lines("Longest!\r\nShort!\n"),
        vec!["Longest!".to_owned(), "Short!".to_owned(), String::new()]
    );
    assert_eq!(split_text_lines(""), vec![String::new()]);
    assert_eq!(cluster_texts("a\nbc"), vec!["a", "b", "c"]);
}
