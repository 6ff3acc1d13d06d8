use anime_dl::types::{AnimeEpisode, SearchResult, StreamLink};
use anime_dl::utils::{
    choice_index, dedup, episodes_to_fetch, selection_outcome, SelectionOutcome, dedup_sorted, episode_range_is_valid, find_hls_stream, latest_episode,
    parse_episode_range, parse_episode_range_report, search_result_rows, select_episodes,
    sort_episodes, RangeIssue,
};

fn ep(n: i32, title: &str) -> AnimeEpisode {
    AnimeEpisode { title: title.to_string(), url: format!("u{}", n), ep_num: n, provider: "p".to_string() }
}

#[test]
fn ranges_and_singles_are_merged_sorted_and_unique() {
    assert_eq!(parse_episode_range("5, 1:3, 2", 10), vec![1, 2, 3, 5]);
    assert_eq!(parse_episode_range(" :3 ", 10), vec![1, 2, 3]);
    assert_eq!(parse_episode_range("8:", 10), vec![8, 9, 10]);
    assert_eq!(parse_episode_range("1:", 1), vec![1]);
    assert_eq!(parse_episode_range("5:3", 10), Vec::<i32>::new());
    assert_eq!(parse_episode_range("3 : 4", 10), vec![3, 4]);
    assert_eq!(parse_episode_range("-2:0", 10), vec![-2, -1, 0]);
}

#[test]
fn passed_over_parts_are_reported() {
    let r = parse_episode_range_report("1,:,2:3:4,3", 10);
    assert_eq!(r.episodes, vec![1, 3]);
    assert_eq!(r.issues.len(), 2);
    assert!(matches!(r.issues[0], RangeIssue::BothEmpty));
    match &r.issues[1] {
        RangeIssue::Invalid(parts) => assert_eq!(parts, &vec!["2", "3", "4"]),
        other => panic!("{:?}", other),
    }
}

#[test]
fn range_validity() {
    assert!(episode_range_is_valid("1:"));
    assert!(episode_range_is_valid("1, 2:3, :"));
    assert!(!episode_range_is_valid("1,,2"));
    assert!(!episode_range_is_valid(""));
    assert!(!episode_range_is_valid("a:3"));
    assert!(!episode_range_is_valid("1:99999999999"));
    assert!(episode_range_is_valid("1:2:x"));
}

#[test]
fn dedup_keeps_first_occurrences() {
    let mut v = vec![3, 1, 3, 2, 1];
    dedup(&mut v);
    assert_eq!(v, vec![3, 1, 2]);
    let mut w = v.clone();
    dedup(&mut w);
    assert_eq!(w, v);
    assert_eq!(dedup_sorted(vec![3, 1, 3, 2, 1]), vec![1, 2, 3]);
}

#[test]
fn latest_and_selection() {
    let eps = vec![ep(1, "a"), ep(3, "c"), ep(2, "b")];
    assert_eq!(latest_episode(&eps), 3);
    assert_eq!(latest_episode(&vec![]), 1);
    let (chosen, missing) = select_episodes(&eps, &vec![2, 3, 7]);
    assert_eq!(chosen, vec![1, 2]);
    assert_eq!(missing, vec![7]);
}

#[test]
fn hls_stream_and_choice() {
    let mk = |t: &str| StreamLink { title: t.to_string(), url: "u".to_string(), is_direct: true, quality: None, headers: None };
    assert_eq!(find_hls_stream(&vec![mk("a"), mk("HLS"), mk("HLS")]), Some(1));
    assert_eq!(find_hls_stream(&vec![mk("a")]), None);
    assert_eq!(choice_index(3, 1), Some(0));
    assert_eq!(choice_index(3, 3), Some(2));
    assert_eq!(choice_index(3, 4), None);
    assert_eq!(choice_index(3, -1), None);
}

#[test]
fn table_rows_number_from_one() {
    let r = vec![
        SearchResult { title: "A".to_string(), url: "x".to_string(), provider: "yugen".to_string() },
        SearchResult { title: "B".to_string(), url: "y".to_string(), provider: "animeonsen".to_string() },
    ];
    assert_eq!(search_result_rows(&r), vec![vec!["1", "A", "yugen"], vec!["2", "B", "animeonsen"]]);
}

#[test]
fn episodes_sort_stably_by_number() {
    let sorted = sort_episodes(vec![ep(3, "c"), ep(1, "a1"), ep(2, "b"), ep(1, "a2"), ep(-1, "z")]);
    let titles: Vec<&str> = sorted.iter().map(|e| e.title.as_str()).collect();
    assert_eq!(titles, vec!["z", "a1", "a2", "b", "c"]);
}

#[test]
fn joined_ranges_give_the_union() {
    let a = "7, 1:3";
    let b = "2:4, 9:";
    let ra = parse_episode_range(a, 10);
    let rb = parse_episode_range(b, 10);
    let mut union: Vec<i32> = ra.iter().chain(rb.iter()).copied().collect();
    union.sort();
    union.dedup();
    assert_eq!(parse_episode_range(&format!("{},{}", a, b), 10), union);
    assert_eq!(parse_episode_range(&format!("{},{}", a, b), 10), vec![1, 2, 3, 4, 7, 9, 10]);
    assert_eq!(parse_episode_range(&format!("{},{}", b, a), 10), union);
    assert_eq!(parse_episode_range(&format!("{},{}", a, a), 10), ra);
}

#[test]
fn a_later_latest_episode_only_adds_episodes() {
    assert_eq!(parse_episode_range("2, 5:", 6), vec![2, 5, 6]);
    assert_eq!(parse_episode_range("2, 5:", 8), vec![2, 5, 6, 7, 8]);
    assert_eq!(parse_episode_range("2, 5:7, :1", 6), parse_episode_range("2, 5:7, :1", 100));
}

#[test]
fn last_episode_overrides_the_range() {
    assert_eq!(episodes_to_fetch(vec![1, 2, 3], 12, true), vec![12]);
    assert_eq!(episodes_to_fetch(vec![1, 2, 3], 12, false), vec![1, 2, 3]);
}

#[test]
fn selection_outcomes() {
    assert_eq!(selection_outcome(&vec![], &vec![4]), SelectionOutcome::NoneFound);
    assert_eq!(selection_outcome(&vec![], &vec![]), SelectionOutcome::NoneFound);
    assert_eq!(selection_outcome(&vec![0], &vec![4]), SelectionOutcome::SomeMissing);
    assert_eq!(selection_outcome(&vec![0, 1], &vec![]), SelectionOutcome::AllFound);
}
