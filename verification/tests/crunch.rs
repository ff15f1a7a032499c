use rand::Rng;
use w4on2_shared::crunch::{count_items, crunch, uncrunch};

#[test]
fn test_uncrunch() {
    assert_eq!(
        vec![vec![1, 1, 1, 0, 0, 0], vec![0, 0, 0, 1, 1, 1]],
        uncrunch(&vec![vec![0, 0, 0], vec![1, 1, 1]], &vec![vec![1, 0], vec![0, 1]])
    );
}

#[test]
fn test_crunch() {
    let input = vec![vec![9, 0, 0, 1, 1, 2, 0], vec![2, 2, 0, 0, 1, 1, 4]];
    let (dict, usages) = crunch(input.clone(), 99, 1);
    assert_eq!(uncrunch(&dict, &usages), input);
}

#[test]
fn test_crunch_bug1() {
    let input = vec![vec![123, 123, 34, 1234, 123, 123], vec![34, 1234]];
    let (dict, usages) = crunch(input.clone(), 99, 1);
    assert_eq!(input, uncrunch(&dict, &usages));
}

#[test]
fn test_crunch_bug2() {
    let input = vec![vec![1, 1, 1]];
    let (dict, usages) = crunch(input.clone(), 99, 1);
    assert_eq!(input, uncrunch(&dict, &usages));
}

#[test]
fn test_crunch_bug3() {
    let input: Vec<Vec<u8>> = vec![vec![5, 4, 4, 1, 1, 1, 6, 6, 7, 1, 1, 0, 4, 4, 4, 3]];
    let (dict, usages) = crunch(input.clone(), 99, 1);
    assert_eq!(input, uncrunch(&dict, &usages));
}

#[test]
fn test_crunch_bug4() {
    for _ in 0..128 {
        let input: Vec<Vec<u8>> = vec![
            vec![1, 2, 0, 2, 4, 1, 7, 1, 5, 0, 2, 4, 6, 2, 2, 4],
            vec![3, 1, 4, 5, 0, 6, 6, 2, 2, 6, 6, 7, 3, 3, 0, 5],
        ];
        println!("{:?}", input);
        let (dict, usages) = crunch(input.clone(), 99, 1);
        assert_eq!(input, uncrunch(&dict, &usages));
    }
}

#[test]
fn test_crunch_fuzz() {
    for _ in 0..128 {
        let buf: Vec<u8> = (0..16).map(|_| rand::thread_rng().gen_range(0..8)).collect();
        println!("{:?}", buf);
        let input = vec![buf];
        let (dict, usages) = crunch(input.clone(), 99, 1);
        assert_eq!(input, uncrunch(&dict, &usages));
    }
}

#[test]
fn test_crunch_deterministic() {
    let buf: Vec<u8> = (0..16).map(|_| rand::thread_rng().gen_range(0..8)).collect();
    println!("{:?}", buf);
    let input = vec![buf];
    let (dict_1, usages_1) = crunch(input.clone(), 16, 1);
    assert_eq!(input, uncrunch(&dict_1, &usages_1));
    for _ in 0..32 {
        let (dict_2, usages_2) = crunch(input.clone(), 16, 1);
        assert_eq!(dict_1, dict_2);
        assert_eq!(usages_1, usages_2);
    }
}

#[test]
fn crunch_makes_a_pattern_of_a_repeated_run() {
    // "1 2 3" stands twice; with a cost of 1 it saves (3 - 1) * 2 - 1 = 3
    let input: Vec<Vec<u8>> = vec![vec![1, 2, 3, 9, 1, 2, 3]];
    let (dict, usages) = crunch(input.clone(), 99, 1);
    assert_eq!(dict, vec![vec![1, 2, 3], vec![9]]);
    assert_eq!(usages, vec![vec![0, 1, 0]]);
}

#[test]
fn crunch_prefers_the_run_that_saves_more() {
    // "7 8" stands three times and saves (2 - 1) * 3 - 0 = 3;
    // "1 2 3 4 7 8" stands twice and saves (6 - 1) * 2 - 0 = 10
    let input: Vec<Vec<u8>> = vec![vec![7, 8, 1, 2, 3, 4, 7, 8], vec![1, 2, 3, 4, 7, 8]];
    let (dict, usages) = crunch(input.clone(), 99, 0);
    assert_eq!(dict, vec![vec![1, 2, 3, 4, 7, 8], vec![7, 8]]);
    assert_eq!(usages, vec![vec![1, 0], vec![0]]);
    assert_eq!(uncrunch(&dict, &usages), input);
}

#[test]
fn crunch_drops_the_later_of_two_overlapping_occurrences() {
    // "1 1" stands at 0, 1 and 2; the one at 1 reaches into the one at 2 and
    // the one at 0 into the one at 1, so only the first survives
    let input: Vec<Vec<u8>> = vec![vec![1, 1, 1, 1]];
    let (dict, usages) = crunch(input.clone(), 99, 0);
    assert_eq!(dict, vec![vec![1, 1, 1, 1]]);
    assert_eq!(usages, vec![vec![0]]);
}

#[test]
fn crunch_without_room_keeps_each_track_as_one_pattern() {
    let input: Vec<Vec<u8>> = vec![vec![1, 2, 1, 2], vec![1, 2, 1, 2]];
    let (dict, usages) = crunch(input.clone(), 4, 0);
    assert_eq!(dict, input);
    assert_eq!(usages, vec![vec![0], vec![1]]);
}

#[test]
fn crunch_needs_a_saving_of_one() {
    // "1 2" stands twice; with a cost of 2 it saves (2 - 1) * 2 - 2 = 0
    let input: Vec<Vec<u8>> = vec![vec![1, 2, 5, 1, 2]];
    let (dict, usages) = crunch(input.clone(), 99, 2);
    assert_eq!(dict, input);
    assert_eq!(usages, vec![vec![0]]);
    // with a cost of 1 it saves 1
    let (dict, usages) = crunch(input.clone(), 99, 1);
    assert_eq!(dict, vec![vec![1, 2], vec![5]]);
    assert_eq!(usages, vec![vec![0, 1, 0]]);
}

#[test]
fn crunch_of_an_empty_track_gives_an_empty_list() {
    let input: Vec<Vec<u8>> = vec![vec![], vec![4]];
    let (dict, usages) = crunch(input.clone(), 99, 1);
    assert_eq!(dict, vec![vec![4]]);
    assert_eq!(usages, vec![vec![], vec![0]]);
    assert_eq!(uncrunch(&dict, &usages), input);
}

#[test]
fn crunch_can_go_over_its_limit() {
    // three tracks are three chunks, and each chunk left becomes a pattern
    let input: Vec<Vec<u8>> = vec![vec![1], vec![2], vec![3]];
    let (dict, usages) = crunch(input.clone(), 2, 1);
    assert_eq!(dict.len(), 3);
    assert_eq!(uncrunch(&dict, &usages), input);
}

#[test]
fn crunch_names_only_patterns_of_its_dictionary() {
    let input: Vec<Vec<u8>> = vec![
        vec![1, 2, 0, 2, 4, 1, 7, 1, 5, 0, 2, 4, 6, 2, 2, 4],
        vec![3, 1, 4, 5, 0, 6, 6, 2, 2, 6, 6, 7, 3, 3, 0, 5],
    ];
    let (dict, usages) = crunch(input.clone(), 99, 1);
    assert_eq!(usages.len(), input.len());
    for track in &usages {
        for index in track {
            assert!(*index < dict.len());
        }
    }
}

#[test]
fn the_events_of_all_tracks_are_counted() {
    let tracks: Vec<Vec<u8>> = vec![vec![1, 2, 3], vec![], vec![4]];
    assert_eq!(count_items(&tracks), Some(4));
    let none: Vec<Vec<u8>> = vec![];
    assert_eq!(count_items(&none), Some(0));
}

#[test]
fn crunch_takes_of_equal_savings_the_run_that_comes_first() {
    // "1 2" and "3 4" stand twice each and save as much; "1 2" comes first
    let input: Vec<Vec<u8>> = vec![vec![1, 2, 9, 3, 4, 8, 3, 4, 7, 1, 2]];
    let (dict, usages) = crunch(input.clone(), 99, 0);
    assert_eq!(dict[0], vec![1, 2]);
    assert_eq!(dict[1], vec![3, 4]);
    assert_eq!(uncrunch(&dict, &usages), input);
    assert_eq!(usages, vec![vec![0, 2, 1, 3, 1, 4, 0]]);
}

#[test]
fn crunch_stops_when_patterns_and_chunks_reach_the_limit() {
    // one chunk and no pattern: 0 + 2 * 1 is under 3, so one pattern is made;
    // then there are one pattern and three chunks, and 1 + 2 * 3 is over
    let input: Vec<Vec<u8>> = vec![vec![5, 1, 2, 3, 4, 6, 1, 2, 3, 4, 7, 8, 9, 8, 9]];
    let (dict, usages) = crunch(input.clone(), 3, 0);
    assert_eq!(dict, vec![vec![1, 2, 3, 4], vec![5], vec![6], vec![7, 8, 9, 8, 9]]);
    assert_eq!(usages, vec![vec![1, 0, 2, 0, 3]]);
    // with room, "8 9" becomes a pattern too
    let (dict, usages) = crunch(input.clone(), 99, 0);
    assert_eq!(dict, vec![vec![1, 2, 3, 4], vec![8, 9], vec![5], vec![6], vec![7]]);
    assert_eq!(usages, vec![vec![2, 0, 3, 0, 4, 1, 1]]);
}
