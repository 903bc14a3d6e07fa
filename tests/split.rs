use split_every::prelude::{CharPredicate, PullChunk, PullStep, SplitEvery, SplitEveryImpl, TextPattern};

fn next_pulled<F: FnMut() -> Option<T>, T: PartialEq>(s: &mut SplitEvery<F, T>) -> Option<Vec<T>> {
    let mut chunk = PullChunk::new();
    loop {
        let item = s.pull();
        match s.take(&mut chunk, item) {
            PullStep::Pending => {}
            PullStep::Chunk(v) => return Some(v),
            PullStep::Finished => return None,
        }
    }
}

fn tokens() -> impl Iterator<Item = &'static str> {
    [
        ["This", "is", "you"],
        ["This", "is", "me"],
        ["This", "is", "someone"],
        ["This", "is", "them"],
    ]
    .into_iter()
    .flatten()
}

#[test]
fn test() {
    let mut splitter = "oh oh oh oh oh".split_every_n_times(" ", 2);
    assert_eq!(splitter.next().unwrap(), "oh oh");
    assert_eq!(splitter.next().unwrap(), "oh oh");
    assert_eq!(splitter.next().unwrap(), "oh");
    assert_eq!(splitter.next(), None);

    let mut splitter = "a a a a".split_every_n_times("b", 2);
    assert_eq!(splitter.next().unwrap(), "a a a a");
    assert_eq!(splitter.next(), None);

    let mut iter = tokens();
    let mut splitter: SplitEvery<Box<dyn FnMut() -> Option<&'static str>>, &str> =
        SplitEvery::n_times_from_fn(Box::new(move || iter.next()), "is", 2);
    assert_eq!(next_pulled(&mut splitter).unwrap(), vec!["This", "is", "you", "This"]);
    assert_eq!(
        next_pulled(&mut splitter).unwrap(),
        vec!["me", "This", "is", "someone", "This"]
    );
    assert_eq!(next_pulled(&mut splitter).unwrap(), vec!["them"]);
    assert_eq!(next_pulled(&mut splitter), None);

    let mut iter = tokens();
    let mut splitter: SplitEvery<Box<dyn FnMut() -> Option<&'static str>>, &str> =
        SplitEvery::<Box<dyn FnMut() -> Option<&'static str>>, &str>::n_times_from_fn(
            Box::new(move || iter.next()),
            "is",
            2,
        );
    assert_eq!(next_pulled(&mut splitter).unwrap(), vec!["This", "is", "you", "This"]);
    assert_eq!(
        next_pulled(&mut splitter).unwrap(),
        vec!["me", "This", "is", "someone", "This"]
    );
    assert_eq!(next_pulled(&mut splitter).unwrap(), vec!["them"]);
    assert_eq!(next_pulled(&mut splitter), None);

    let source: [(u8, u8); 9] = [
        (0, 0),
        (0, 1),
        (0, 0), // Split
        (0, 0),
        (0, 0), // Split
        (0, 1),
        (0, 0),
        (0, 0), // Split
        (0, 1),
    ];
    let mut splitter = source[..].split_every_n_times(&[(0, 0)], 2);
    assert_eq!(splitter.next().unwrap(), vec![(0, 0), (0, 1)]);
    assert_eq!(splitter.next().unwrap(), vec![(0, 0)]);
    assert_eq!(splitter.next().unwrap(), vec![(0, 1), (0, 0)]);
    assert_eq!(splitter.next().unwrap(), vec![(0, 1)]);
    assert_eq!(splitter.next(), None);

    let mut splitter =
        "Oh hi there I don't really know what to say".split_every_n_times(" ", 3);
    assert_eq!(splitter.next().unwrap(), "Oh hi there");
    assert_eq!(splitter.next().unwrap(), "I don't really");
    assert_eq!(splitter.next().unwrap(), "know what to");
    assert_eq!(splitter.next().unwrap(), "say");
    assert_eq!(splitter.next(), None);
}

#[test]
fn adjacent_matches_give_empty_chunks() {
    let mut splitter = SplitEvery::from_char("hhhahahahaha", 'h', 1);
    for expected in ["", "", "", "a", "a", "a", "a", "a"] {
        assert_eq!(splitter.next().unwrap(), expected);
    }
    assert_eq!(splitter.next(), None);
    assert_eq!(splitter.next(), None);
}

#[test]
fn pattern_never_found_gives_whole_source() {
    let mut splitter = String::from("a a a a").split_every_n_times(String::from("b"), 2);
    assert_eq!(splitter.next().unwrap(), "a a a a");
    assert_eq!(splitter.next(), None);
}

#[test]
fn exhaustion_is_permanent() {
    let mut splitter = "x,y".split_every_n_times(",", 1);
    assert_eq!(splitter.next().unwrap(), "x");
    assert_eq!(splitter.next().unwrap(), "y");
    for _ in 0..3 {
        assert_eq!(splitter.next(), None);
    }
}

#[test]
fn empty_source_has_no_chunks() {
    let mut splitter = "".split_every_n_times(" ", 1);
    assert_eq!(splitter.next(), None);
}

#[test]
fn trailing_pattern_ends_the_sequence() {
    let mut splitter = "a b ".split_every_n_times(" ", 1);
    assert_eq!(splitter.next().unwrap(), "a");
    assert_eq!(splitter.next().unwrap(), "b");
    assert_eq!(splitter.next(), None);
}

#[test]
fn multi_character_pattern() {
    let mut splitter = "1<>2<>3<>4<>5".split_every_n_times("<>", 2);
    assert_eq!(splitter.next().unwrap(), "1<>2");
    assert_eq!(splitter.next().unwrap(), "3<>4");
    assert_eq!(splitter.next().unwrap(), "5");
    assert_eq!(splitter.next(), None);
}

#[test]
fn multibyte_text_and_pattern() {
    let mut splitter = "αβ→γ→δε→ζ".split_every_n_times("→", 2);
    assert_eq!(splitter.next().unwrap(), "αβ→γ");
    assert_eq!(splitter.next().unwrap(), "δε");
    assert_eq!(splitter.next().unwrap(), "ζ");
    assert_eq!(splitter.next(), None);
}

#[test]
fn character_set_with_characters_of_varying_width() {
    let mut splitter = SplitEvery::from_any_char("aé€b😀c,d", "é€😀,", 1);
    assert_eq!(splitter.next().unwrap(), "a");
    assert_eq!(splitter.next().unwrap(), "");
    assert_eq!(splitter.next().unwrap(), "b");
    assert_eq!(splitter.next().unwrap(), "c");
    assert_eq!(splitter.next().unwrap(), "d");
    assert_eq!(splitter.next(), None);
}

#[test]
fn character_set_counts_every_member() {
    let mut splitter = SplitEvery::from_any_char("a;b,c;d,e", ",;", 2);
    assert_eq!(splitter.next().unwrap(), "a;b");
    assert_eq!(splitter.next().unwrap(), "c;d");
    assert_eq!(splitter.next().unwrap(), "e");
    assert_eq!(splitter.next(), None);
}

#[test]
fn single_multibyte_character() {
    let mut splitter = SplitEvery::from_char("x€y€€z", '€', 1);
    assert_eq!(splitter.next().unwrap(), "x");
    assert_eq!(splitter.next().unwrap(), "y");
    assert_eq!(splitter.next().unwrap(), "");
    assert_eq!(splitter.next().unwrap(), "z");
    assert_eq!(splitter.next(), None);
}

#[test]
fn element_sequence_from_vec() {
    let mut splitter = vec![1u32, 2, 0, 3, 0, 4, 5].split_every_n_times(vec![0], 1);
    assert_eq!(splitter.next().unwrap(), vec![1, 2]);
    assert_eq!(splitter.next().unwrap(), vec![3]);
    assert_eq!(splitter.next().unwrap(), vec![4, 5]);
    assert_eq!(splitter.next(), None);
}

#[test]
fn element_sequence_with_longer_pattern() {
    let mut splitter = vec![1u8, 9, 9, 2, 9, 3, 9, 9].split_every_n_times(vec![9, 9], 1);
    assert_eq!(splitter.next().unwrap(), vec![1]);
    assert_eq!(splitter.next().unwrap(), vec![2, 9, 3]);
    assert_eq!(splitter.next(), None);
}

#[test]
fn next_range_reports_bounds() {
    let mut splitter = SplitEvery::new(vec!['a', ' ', 'b'], TextPattern::Char(' '), 1);
    assert_eq!(splitter.next_range(), Some((0, 1)));
    assert_eq!(splitter.next_range(), Some((2, 3)));
    assert_eq!(splitter.next_range(), None);
}

#[test]
fn pull_with_zero_count_drains_everything() {
    let mut iter = vec![1u8, 0, 2, 0].into_iter();
    let mut splitter = SplitEvery::n_times_from_fn(move || iter.next(), 0u8, 0);
    assert_eq!(next_pulled(&mut splitter).unwrap(), vec![1, 0, 2, 0]);
    assert_eq!(next_pulled(&mut splitter), None);
}

#[test]
fn pull_emits_empty_chunk_at_boundary() {
    let mut iter = vec![7u8, 7, 1].into_iter();
    let mut splitter = SplitEvery::n_times_from_fn(move || iter.next(), 7u8, 1);
    assert_eq!(next_pulled(&mut splitter).unwrap(), Vec::<u8>::new());
    assert_eq!(next_pulled(&mut splitter).unwrap(), Vec::<u8>::new());
    assert_eq!(next_pulled(&mut splitter).unwrap(), vec![1]);
    assert_eq!(next_pulled(&mut splitter), None);
    assert_eq!(next_pulled(&mut splitter), None);
}

#[test]
fn pull_from_empty_source_is_finished() {
    let mut splitter = SplitEvery::n_times_from_fn(|| None::<u8>, 1u8, 2);
    assert_eq!(next_pulled(&mut splitter), None);
}

#[test]
fn take_steps_one_element_at_a_time() {
    let splitter = SplitEvery::n_times_from_fn(|| None::<u8>, 5u8, 2);
    let mut chunk = PullChunk::new();
    assert!(matches!(splitter.take(&mut chunk, Some(1)), PullStep::Pending));
    assert!(matches!(splitter.take(&mut chunk, Some(5)), PullStep::Pending));
    assert!(matches!(splitter.take(&mut chunk, Some(2)), PullStep::Pending));
    match splitter.take(&mut chunk, Some(5)) {
        PullStep::Chunk(v) => assert_eq!(v, vec![1, 5, 2]),
        _ => panic!("expected a chunk"),
    }
    assert!(matches!(splitter.take(&mut chunk, None), PullStep::Finished));
}

#[test]
fn predicate_matches_characters_of_varying_width() {
    let mut splitter = SplitEvery::from_predicate("aé b€c😀d", |c: char| !c.is_ascii(), 1);
    assert_eq!(splitter.next().unwrap(), "a");
    assert_eq!(splitter.next().unwrap(), " b");
    assert_eq!(splitter.next().unwrap(), "c");
    assert_eq!(splitter.next().unwrap(), "d");
    assert_eq!(splitter.next(), None);
}

#[test]
fn predicate_matcher_through_new() {
    let pattern = CharPredicate { test: |c: char| c.is_ascii_digit() };
    let mut splitter = SplitEvery::new("x1y22z".chars().collect(), pattern, 2);
    assert_eq!(splitter.next().unwrap(), "x1y");
    assert_eq!(splitter.next().unwrap(), "");
    assert_eq!(splitter.next().unwrap(), "z");
    assert_eq!(splitter.next(), None);
}

#[test]
fn chunks_and_closing_patterns_rebuild_the_source() {
    let source = "a,b,,c,d,";
    let mut splitter = source.split_every_n_times(",", 2);
    let mut rebuilt = String::new();
    let mut bounds = SplitEvery::from_text(source, ",", 2);
    while let Some((start, end)) = bounds.next_range() {
        let chunk = splitter.next().unwrap();
        assert_eq!(chunk.chars().count(), end - start);
        rebuilt.push_str(&chunk);
        let cursor_after: usize = if end < source.chars().count() {
            rebuilt.push(',');
            end + 1
        } else {
            end
        };
        assert!(cursor_after <= source.chars().count());
    }
    assert_eq!(splitter.next(), None);
    assert_eq!(rebuilt, source);
}

#[test]
fn three_spaces_per_chunk() {
    let mut splitter =
        "Oh hi there I don't really know what to say".split_every_n_times(" ", 3);
    assert_eq!(splitter.next().unwrap(), "Oh hi there");
    assert_eq!(splitter.next().unwrap(), "I don't really");
    assert_eq!(splitter.next().unwrap(), "know what to");
    assert_eq!(splitter.next().unwrap(), "say");
    assert_eq!(splitter.next(), None);
}

#[test]
fn pulled_tokens_two_matches_per_chunk() {
    let mut iter = tokens();
    let mut splitter = SplitEvery::n_times_from_fn(move || iter.next(), "is", 2);
    assert_eq!(next_pulled(&mut splitter).unwrap(), vec!["This", "is", "you", "This"]);
    assert_eq!(next_pulled(&mut splitter).unwrap(), vec!["me", "This", "is", "someone", "This"]);
    assert_eq!(next_pulled(&mut splitter).unwrap(), vec!["them"]);
    assert_eq!(next_pulled(&mut splitter), None);
}
