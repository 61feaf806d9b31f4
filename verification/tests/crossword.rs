use wasm_crossword_generator::{
    can_guess, can_remove_answer, check_answer, classic_guess_allowed, per_word_guess_allowed,
    placed_word_guess_allowed, rebuild_board, remove_allowed, AnswerCheck, Outcome, PuzzleRow, PuzzleSpace,
    guess_word, is_puzzle_complete, new_puzzle, new_solution, random_direction, remove_answer,
    wrong_answers_and_solutions, ClassicPuzzle, CrosswordError, CrosswordInitialPlacement,
    CrosswordInitialPlacementStrategy, CrosswordReqs, Direction, GuessResult, PerWordPuzzle,
    PlacedWord, PlacedWordPuzzle, Placement, Playmode, Puzzle, PuzzleContainer, PuzzleType,
    Solution, SolutionConf, SolutionRow, Word,
};

fn word(text: &str) -> Word {
    Word { text: text.to_string(), clue: None }
}

fn placed(text: &str, x: usize, y: usize, direction: Direction) -> PlacedWord {
    PlacedWord { placement: Placement { x, y, direction }, word: word(text) }
}

fn conf(words: &[&str], side: usize) -> SolutionConf {
    SolutionConf {
        words: words.iter().map(|w| word(w)).collect(),
        max_words: 20,
        width: side,
        height: side,
        requirements: None,
        initial_placement: None,
    }
}

fn custom(x: usize, y: usize, direction: Direction) -> Option<CrosswordInitialPlacement> {
    Some(CrosswordInitialPlacement {
        min_letter_count: None,
        strategy: Some(CrosswordInitialPlacementStrategy::Custom(Placement { x, y, direction })),
    })
}

fn row(spaces: &str) -> SolutionRow {
    SolutionRow { row: spaces.chars().map(|c| if c == '.' { None } else { Some(c) }).collect() }
}

/// A 5 by 5 solution: "cat" across from (0, 0) and "tan" down from (2, 0).
fn cat_tan() -> Solution {
    Solution {
        grid: vec![row("cat.."), row("..a.."), row("..n.."), row("....."), row(".....")],
        words: vec![placed("cat", 0, 0, Direction::Horizontal), placed("tan", 2, 0, Direction::Verticle)],
        width: 5,
        height: 5,
    }
}

fn puzzle_on(solution: Solution) -> Puzzle {
    let mut p = Puzzle { solution, player_answers: vec![], grid: vec![] };
    p.grid_from_answers().unwrap();
    p
}

fn letter_at(p: &Puzzle, x: usize, y: usize) -> Option<char> {
    p.grid[y].row[x].char_slot
}

#[test]
fn readme_single_word_per_word_puzzle_completes() {
    let solution_conf = SolutionConf {
        words: vec![Word { text: "library".to_string(), clue: Some("Not a framework.".to_string()) }],
        max_words: 20,
        width: 10,
        height: 10,
        requirements: None,
        initial_placement: None,
    };
    let mut puzzle = PerWordPuzzle::new(solution_conf).unwrap();
    let guess = PlacedWord {
        placement: Placement { x: 0, y: 0, direction: random_direction() },
        word: Word { text: "library".to_string(), clue: None },
    };
    assert_eq!(puzzle.guess_word(guess).unwrap(), GuessResult::Complete);
}

#[test]
fn other_flips_the_direction_and_back() {
    assert_eq!(Direction::Horizontal.other(), Direction::Verticle);
    assert_eq!(Direction::Verticle.other(), Direction::Horizontal);
    for d in [Direction::Horizontal, Direction::Verticle] {
        assert_ne!(d.other(), d);
        assert_eq!(d.other().other(), d);
    }
}

#[test]
fn word_equality_ignores_the_clue() {
    let a = Word { text: "library".to_string(), clue: Some("Not a framework.".to_string()) };
    let b = Word { text: "library".to_string(), clue: None };
    assert_eq!(a, b);
    assert_ne!(a, word("libraries"));
    let pa = PlacedWord { placement: Placement { x: 1, y: 2, direction: Direction::Verticle }, word: a };
    let pb = PlacedWord { placement: Placement { x: 1, y: 2, direction: Direction::Verticle }, word: b };
    assert_eq!(pa, pb);
    let pc = PlacedWord { placement: Placement { x: 1, y: 3, direction: Direction::Verticle }, word: word("library") };
    assert_ne!(pa, pc);
}

#[test]
fn strategy_direction_and_defaults() {
    let s = CrosswordInitialPlacementStrategy::Custom(Placement { x: 0, y: 0, direction: Direction::Verticle });
    assert_eq!(s.direction(), Direction::Verticle);
    assert_eq!(CrosswordInitialPlacementStrategy::UpperLeft(Direction::Horizontal).direction(), Direction::Horizontal);
    for _ in 0..50 {
        let d = CrosswordInitialPlacementStrategy::default();
        assert!(!matches!(d, CrosswordInitialPlacementStrategy::Custom(_)));
        let ip = CrosswordInitialPlacement::default();
        assert_eq!(ip.min_letter_count, Some(3));
        assert!(matches!(ip.strategy, Some(s) if !matches!(s, CrosswordInitialPlacementStrategy::Custom(_))));
    }
}

#[test]
fn custom_initial_placement_writes_the_word() {
    let mut c = conf(&["cat"], 5);
    c.initial_placement = custom(1, 2, Direction::Horizontal);
    let s = Solution::new(c).unwrap();
    assert_eq!(s.words.len(), 1);
    assert_eq!(s.words[0].placement, Placement { x: 1, y: 2, direction: Direction::Horizontal });
    assert_eq!(s.grid[2], row(".cat."));
    for y in [0, 1, 3, 4] {
        assert_eq!(s.grid[y], row("....."));
    }
    assert_eq!(s.is_valid(), Ok(()));
}

#[test]
fn custom_vertical_placement() {
    let mut c = conf(&["dog"], 4);
    c.initial_placement = custom(3, 1, Direction::Verticle);
    let s = Solution::new(c).unwrap();
    assert_eq!(s.words[0].placement, Placement { x: 3, y: 1, direction: Direction::Verticle });
    assert_eq!(s.grid[0], row("...."));
    assert_eq!(s.grid[1], row("...d"));
    assert_eq!(s.grid[2], row("...o"));
    assert_eq!(s.grid[3], row("...g"));
}

#[test]
fn custom_placement_outside_the_grid_has_no_first_word() {
    let mut c = conf(&["cat"], 5);
    c.initial_placement = custom(3, 0, Direction::Horizontal);
    assert_eq!(Solution::new(c).unwrap_err(), CrosswordError::MaxRetries);
}

#[test]
fn no_starting_word_is_an_error() {
    let c = conf(&["ab"], 10);
    assert_eq!(Solution::new(c).unwrap_err(), CrosswordError::MaxRetries);
    let shuffled = vec![word("ab")];
    assert_eq!(Solution::build(&conf(&["ab"], 10), shuffled), Err(CrosswordError::NoValidInitialWords));
}

#[test]
fn corner_strategies_place_the_first_word() {
    let cases = [
        (CrosswordInitialPlacementStrategy::UpperLeft(Direction::Horizontal), Placement { x: 0, y: 0, direction: Direction::Horizontal }),
        (CrosswordInitialPlacementStrategy::UpperRight(Direction::Horizontal), Placement { x: 3, y: 0, direction: Direction::Horizontal }),
        (CrosswordInitialPlacementStrategy::UpperRight(Direction::Verticle), Placement { x: 5, y: 0, direction: Direction::Verticle }),
        (CrosswordInitialPlacementStrategy::LowerLeft(Direction::Horizontal), Placement { x: 0, y: 5, direction: Direction::Horizontal }),
        (CrosswordInitialPlacementStrategy::LowerLeft(Direction::Verticle), Placement { x: 0, y: 3, direction: Direction::Verticle }),
        (CrosswordInitialPlacementStrategy::LowerRight(Direction::Horizontal), Placement { x: 3, y: 5, direction: Direction::Horizontal }),
        (CrosswordInitialPlacementStrategy::LowerRight(Direction::Verticle), Placement { x: 5, y: 3, direction: Direction::Verticle }),
    ];
    for (strategy, expected) in cases {
        let mut c = conf(&["owl"], 6);
        c.initial_placement = Some(CrosswordInitialPlacement { min_letter_count: None, strategy: Some(strategy) });
        let s = Solution::new(c).unwrap();
        assert_eq!(s.words.len(), 1);
        assert_eq!(s.words[0].placement, expected);
        assert_eq!(s.is_valid(), Ok(()));
    }
}

#[test]
fn center_strategy_places_the_word_near_the_middle() {
    for _ in 0..20 {
        let mut c = conf(&["owl"], 7);
        c.initial_placement = Some(CrosswordInitialPlacement {
            min_letter_count: None,
            strategy: Some(CrosswordInitialPlacementStrategy::Center(Direction::Horizontal)),
        });
        let s = Solution::new(c).unwrap();
        assert_eq!(s.words[0].placement, Placement { x: 2, y: 3, direction: Direction::Horizontal });
        let mut c = conf(&["bear"], 6);
        c.initial_placement = Some(CrosswordInitialPlacement {
            min_letter_count: None,
            strategy: Some(CrosswordInitialPlacementStrategy::Center(Direction::Verticle)),
        });
        let s = Solution::new(c).unwrap();
        let p = s.words[0].placement;
        assert_eq!(p.direction, Direction::Verticle);
        assert!(p.x == 2 || p.x == 3);
        assert!(p.y == 0 || p.y == 1 || p.y == 2);
        assert_eq!(s.is_valid(), Ok(()));
    }
}

#[test]
fn initial_min_letter_count_skips_short_words() {
    let mut c = conf(&["elephant", "cat"], 8);
    c.initial_placement = Some(CrosswordInitialPlacement {
        min_letter_count: Some(5),
        strategy: Some(CrosswordInitialPlacementStrategy::UpperLeft(Direction::Horizontal)),
    });
    for _ in 0..10 {
        let s = Solution::new(c.clone()).unwrap();
        assert_eq!(s.words[0].word.text, "elephant");
        assert_eq!(s.words[0].placement, Placement { x: 0, y: 0, direction: Direction::Horizontal });
    }
}

#[test]
fn words_too_short_long_or_repeated_are_dropped() {
    let c = conf(&["at", "toolongword", "cat", "cat"], 5);
    for _ in 0..10 {
        let s = Solution::new(c.clone()).unwrap();
        assert_eq!(s.words.len(), 1);
        assert_eq!(s.words[0].word.text, "cat");
    }
}

#[test]
fn max_words_bounds_every_word_including_the_first() {
    let mut c = conf(&["cat", "tan", "ant", "net"], 7);
    c.max_words = 0;
    assert_eq!(Solution::new(c.clone()).unwrap_err(), CrosswordError::MaxRetries);
    let shuffled = c.words.clone();
    assert_eq!(Solution::build(&c, shuffled), Err(CrosswordError::BadConfig));
    c.max_words = 1;
    assert_eq!(Solution::new(c).unwrap().words.len(), 1);
}

#[test]
fn generated_solutions_are_valid_and_bounded() {
    let words = ["crossword", "puzzle", "letter", "grid", "across", "down", "clue", "answer", "rust", "word"];
    for _ in 0..30 {
        let mut c = conf(&words, 12);
        c.max_words = 6;
        let s = Solution::new(c).unwrap();
        assert!(!s.words.is_empty() && s.words.len() <= 6);
        assert_eq!(s.is_valid(), Ok(()));
        for (i, w) in s.words.iter().enumerate() {
            assert!(words.contains(&w.word.text.as_str()));
            for v in s.words.iter().skip(i + 1) {
                assert_ne!(w.word.text, v.word.text);
            }
        }
    }
}

#[test]
fn requirements_that_cannot_be_met_run_out_of_retries() {
    let mut c = conf(&["cat"], 5);
    c.requirements = Some(CrosswordReqs {
        max_retries: 3,
        min_letters_per_word: None,
        min_words: Some(2),
        max_empty_columns: None,
        max_empty_rows: None,
    });
    assert_eq!(Solution::new(c).unwrap_err(), CrosswordError::MaxRetries);
}

#[test]
fn requirements_on_empty_rows_and_columns() {
    let mut c = conf(&["cat"], 3);
    c.initial_placement = custom(0, 1, Direction::Horizontal);
    c.requirements = Some(CrosswordReqs {
        max_retries: 2,
        min_letters_per_word: None,
        min_words: Some(1),
        max_empty_columns: Some(0),
        max_empty_rows: Some(2),
    });
    let s = Solution::new(c.clone()).unwrap();
    assert_eq!(s.grid[1], row("cat"));
    c.requirements = Some(CrosswordReqs {
        max_retries: 2,
        min_letters_per_word: None,
        min_words: None,
        max_empty_columns: None,
        max_empty_rows: Some(1),
    });
    assert_eq!(Solution::new(c).unwrap_err(), CrosswordError::MaxRetries);
}

#[test]
fn min_letters_per_word_filters_words() {
    let mut c = conf(&["cat"], 5);
    c.requirements = Some(CrosswordReqs {
        max_retries: 1,
        min_letters_per_word: Some(4),
        min_words: None,
        max_empty_columns: None,
        max_empty_rows: None,
    });
    assert_eq!(Solution::new(c).unwrap_err(), CrosswordError::MaxRetries);
}

#[test]
fn is_valid_accepts_a_coherent_solution() {
    assert_eq!(cat_tan().is_valid(), Ok(()));
}

#[test]
fn is_valid_detects_a_grid_mismatch() {
    let mut s = cat_tan();
    s.grid[4] = row("x....");
    assert_eq!(s.is_valid(), Err(CrosswordError::WordMismatch));
}

#[test]
fn is_valid_detects_words_that_do_not_fit() {
    let mut s = cat_tan();
    s.words.push(placed("dog", 0, 0, Direction::Verticle));
    assert_eq!(s.is_valid(), Err(CrosswordError::BadConfig));
    let mut s = cat_tan();
    s.words[1] = placed("tanks", 2, 1, Direction::Verticle);
    assert_eq!(s.is_valid(), Err(CrosswordError::BadConfig));
}

#[test]
fn new_solution_and_new_puzzle_entry_points() {
    let s = new_solution(conf(&["library"], 10)).unwrap();
    assert_eq!(s.words.len(), 1);
    let c = new_puzzle(conf(&["library"], 10), PuzzleType::Classic).unwrap();
    assert_eq!(c.puzzle_type, PuzzleType::Classic);
    assert!(c.puzzle.player_answers.is_empty());
    assert_eq!(c.puzzle.solution.words.len(), 1);
}

#[test]
fn fresh_board_marks_the_slots() {
    let p = puzzle_on(cat_tan());
    for y in 0..5 {
        for x in 0..5 {
            assert_eq!(p.grid[y].row[x].has_char_slot, p.solution.grid[y].row[x].is_some());
            assert_eq!(p.grid[y].row[x].char_slot, None);
        }
    }
}

#[test]
fn place_answer_puts_letters_and_reports_conflicts() {
    let mut p = puzzle_on(cat_tan());
    assert_eq!(p.place_answer(placed("cot", 0, 0, Direction::Horizontal)), Ok(Some(())));
    assert_eq!(letter_at(&p, 1, 0), Some('o'));
    assert_eq!(letter_at(&p, 2, 0), Some('t'));
    assert_eq!(p.player_answers.len(), 1);
    assert_eq!(p.place_answer(placed("pan", 2, 0, Direction::Verticle)), Ok(None));
    assert_eq!(p.place_answer(placed("tank", 2, 0, Direction::Verticle)), Ok(None));
    assert_eq!(p.place_answer(placed("tan", 1, 0, Direction::Verticle)), Err(CrosswordError::InvalidPlayerGuess));
    assert_eq!(p.player_answers.len(), 1);
    assert_eq!(p.place_answer(placed("tin", 2, 0, Direction::Verticle)), Ok(Some(())));
    assert_eq!(letter_at(&p, 2, 1), Some('i'));
    let mut rebuilt = p.clone();
    rebuilt.grid_from_answers().unwrap();
    assert_eq!(rebuilt.grid, p.grid);
}

#[test]
fn is_complete_counts_and_checks_answers() {
    let mut p = puzzle_on(cat_tan());
    assert_eq!(p.is_complete(), Ok(false));
    p.place_answer(placed("cat", 0, 0, Direction::Horizontal)).unwrap();
    assert_eq!(p.is_complete(), Ok(false));
    p.place_answer(placed("tin", 2, 0, Direction::Verticle)).unwrap();
    assert_eq!(p.is_complete(), Ok(false));
    let mut q = puzzle_on(cat_tan());
    q.place_answer(placed("cat", 0, 0, Direction::Horizontal)).unwrap();
    q.place_answer(placed("tan", 2, 0, Direction::Verticle)).unwrap();
    assert_eq!(q.is_complete(), Ok(true));
    q.player_answers.push(placed("cat", 0, 0, Direction::Horizontal));
    assert_eq!(q.is_complete(), Err(CrosswordError::MoreAnswersThanWords));
}

#[test]
fn wrong_answers_come_with_their_corrections() {
    let mut p = puzzle_on(cat_tan());
    p.place_answer(placed("cot", 0, 0, Direction::Horizontal)).unwrap();
    p.place_answer(placed("tan", 2, 0, Direction::Verticle)).unwrap();
    let wrong = p.wrong_answers_and_solutions().unwrap();
    assert_eq!(wrong.len(), 1);
    assert_eq!(wrong[0].0, placed("cot", 0, 0, Direction::Horizontal));
    assert_eq!(wrong[0].1, placed("cat", 0, 0, Direction::Horizontal));
    p.player_answers.push(placed("zzz", 4, 4, Direction::Horizontal));
    assert_eq!(p.wrong_answers_and_solutions(), Err(CrosswordError::InvalidPlayerGuess));
}

#[test]
fn remove_answer_rebuilds_the_board() {
    let mut p = puzzle_on(cat_tan());
    p.place_answer(placed("cot", 0, 0, Direction::Horizontal)).unwrap();
    p.place_answer(placed("tan", 2, 0, Direction::Verticle)).unwrap();
    p.remove_answer(&Placement { x: 0, y: 0, direction: Direction::Horizontal }).unwrap();
    assert_eq!(p.player_answers, vec![placed("tan", 2, 0, Direction::Verticle)]);
    assert_eq!(letter_at(&p, 0, 0), None);
    assert_eq!(letter_at(&p, 1, 0), None);
    assert_eq!(letter_at(&p, 2, 0), Some('t'));
    assert_eq!(letter_at(&p, 2, 2), Some('n'));
}

#[test]
fn grid_from_answers_reports_incoherent_answers() {
    let mut p = puzzle_on(cat_tan());
    p.player_answers = vec![placed("cot", 0, 0, Direction::Horizontal), placed("pan", 2, 0, Direction::Verticle)];
    assert_eq!(p.grid_from_answers(), Err(CrosswordError::GridStateError));
    assert_eq!(p, puzzle_on_with_answers(cat_tan(), p.player_answers.clone()));
}

fn puzzle_on_with_answers(solution: Solution, answers: Vec<PlacedWord>) -> Puzzle {
    let mut p = puzzle_on(solution);
    p.player_answers = answers;
    p
}

#[test]
fn classic_guesses_replace_and_are_unchecked() {
    let mut c = ClassicPuzzle { puzzle: puzzle_on(cat_tan()) };
    assert_eq!(c.guess_word(placed("cat", 1, 1, Direction::Horizontal)), Err(CrosswordError::InvalidPlayerGuess));
    assert_eq!(c.guess_word(placed("cot", 0, 0, Direction::Horizontal)), Ok(GuessResult::Unchecked));
    assert_eq!(c.guess_word(placed("cut", 0, 0, Direction::Horizontal)), Ok(GuessResult::Unchecked));
    assert_eq!(c.puzzle.player_answers, vec![placed("cut", 0, 0, Direction::Horizontal)]);
    assert_eq!(letter_at(&c.puzzle, 1, 0), Some('u'));
    assert_eq!(c.guess_word(placed("pan", 2, 0, Direction::Verticle)), Ok(GuessResult::Conflict));
    assert_eq!(c.guess_word(placed("tan", 2, 0, Direction::Verticle)), Ok(GuessResult::Unchecked));
    assert_eq!(c.puzzle.is_complete(), Ok(false));
    c.remove_answer(&Placement { x: 0, y: 0, direction: Direction::Horizontal }).unwrap();
    assert_eq!(c.guess_word(placed("cat", 0, 0, Direction::Horizontal)), Ok(GuessResult::Unchecked));
    assert_eq!(c.puzzle.is_complete(), Ok(true));
}

#[test]
fn placed_word_guesses_are_checked() {
    let mut p = PlacedWordPuzzle { puzzle: puzzle_on(cat_tan()) };
    assert_eq!(p.guess_word(placed("cat", 3, 3, Direction::Horizontal)), Err(CrosswordError::InvalidPlayerGuess));
    assert_eq!(p.guess_word(placed("cot", 0, 0, Direction::Horizontal)), Ok(GuessResult::Wrong));
    assert!(p.puzzle.player_answers.is_empty());
    let with_clue = PlacedWord {
        placement: Placement { x: 0, y: 0, direction: Direction::Horizontal },
        word: Word { text: "cat".to_string(), clue: Some("a pet".to_string()) },
    };
    assert_eq!(p.guess_word(with_clue), Ok(GuessResult::Correct));
    assert_eq!(p.guess_word(placed("tan", 2, 0, Direction::Verticle)), Ok(GuessResult::Complete));
    assert_eq!(p.guess_word(placed("cot", 0, 0, Direction::Horizontal)), Ok(GuessResult::Complete));
}

#[test]
fn per_word_guesses_ignore_the_placement() {
    let mut p = PerWordPuzzle { puzzle: puzzle_on(cat_tan()) };
    assert_eq!(p.guess_word(placed("dog", 0, 0, Direction::Horizontal)), Ok(GuessResult::Wrong));
    assert_eq!(p.guess_word(placed("tan", 4, 4, Direction::Horizontal)), Ok(GuessResult::Correct));
    assert_eq!(p.puzzle.player_answers, vec![placed("tan", 2, 0, Direction::Verticle)]);
    assert_eq!(p.guess_word(placed("tan", 0, 0, Direction::Verticle)), Ok(GuessResult::Repeat));
    assert_eq!(p.guess_word(placed("cat", 1, 1, Direction::Verticle)), Ok(GuessResult::Complete));
    assert_eq!(p.guess_word(placed("dog", 0, 0, Direction::Horizontal)), Ok(GuessResult::Complete));
}

#[test]
fn containers_carry_the_puzzle_through_operations() {
    let c = PuzzleContainer { puzzle_type: PuzzleType::PlacedWord, puzzle: puzzle_on(cat_tan()) };
    let r = guess_word(c, placed("cat", 0, 0, Direction::Horizontal)).unwrap();
    assert_eq!(r.guess_result, GuessResult::Correct);
    assert_eq!(r.puzzle_container.puzzle.player_answers.len(), 1);
    let done = is_puzzle_complete(r.puzzle_container.clone()).unwrap();
    assert!(!done.is_complete);
    assert_eq!(done.puzzle_container, r.puzzle_container);
    assert_eq!(
        remove_answer(r.puzzle_container.clone(), Placement { x: 0, y: 0, direction: Direction::Horizontal }),
        Err(CrosswordError::BadPuzzleType)
    );
    let classic = PuzzleContainer { puzzle_type: PuzzleType::Classic, puzzle: r.puzzle_container.puzzle.clone() };
    let r2 = guess_word(classic, placed("tin", 2, 0, Direction::Verticle)).unwrap();
    assert_eq!(r2.guess_result, GuessResult::Unchecked);
    let wrong = wrong_answers_and_solutions(r2.puzzle_container.clone()).unwrap();
    assert_eq!(wrong.wrong_answer_pairs.len(), 1);
    assert_eq!(wrong.wrong_answer_pairs[0].got, placed("tin", 2, 0, Direction::Verticle));
    assert_eq!(wrong.wrong_answer_pairs[0].wanted, placed("tan", 2, 0, Direction::Verticle));
    let removed = remove_answer(r2.puzzle_container, Placement { x: 2, y: 0, direction: Direction::Verticle }).unwrap();
    assert_eq!(removed.puzzle.player_answers, vec![placed("cat", 0, 0, Direction::Horizontal)]);
    let per_word = PuzzleContainer { puzzle_type: PuzzleType::PerWord, puzzle: removed.puzzle };
    let r3 = guess_word(per_word, placed("tan", 0, 0, Direction::Horizontal)).unwrap();
    assert_eq!(r3.guess_result, GuessResult::Complete);
    assert!(is_puzzle_complete(r3.puzzle_container).unwrap().is_complete);
}

#[test]
fn error_messages() {
    assert_eq!(CrosswordError::MaxRetries.to_string(), "could not generate crossword before hitting max retries");
    assert_eq!(CrosswordError::BadFit.to_string(), "word doesn't fit");
    assert_eq!(CrosswordError::InvalidPlayerGuess.to_string(), "player guess word's placement cannot be found");
}

#[test]
fn answer_lengths_are_compared_in_chars() {
    let mut p = puzzle_on(cat_tan());
    // "cä" has two chars (three bytes, as many bytes as "cat"): the wrong length.
    assert_eq!(p.place_answer(placed("cä", 0, 0, Direction::Horizontal)), Ok(None));
    assert!(p.player_answers.is_empty());
    // "cät" has three chars, as many as "cat".
    assert_eq!(p.place_answer(placed("cät", 0, 0, Direction::Horizontal)), Ok(Some(())));
    assert_eq!(letter_at(&p, 1, 0), Some('ä'));
    assert_eq!(letter_at(&p, 2, 0), Some('t'));
    let mut c = ClassicPuzzle { puzzle: puzzle_on(cat_tan()) };
    assert_eq!(c.guess_word(placed("cä", 0, 0, Direction::Horizontal)), Ok(GuessResult::Conflict));
}

#[test]
fn fit_is_measured_in_chars() {
    // "né" has two chars and three bytes: it fits a grid two spaces wide.
    let s = Solution {
        grid: vec![row("né"), row("..")],
        words: vec![placed("né", 0, 0, Direction::Horizontal)],
        width: 2,
        height: 2,
    };
    assert_eq!(s.is_valid(), Ok(()));
    let blank3 = blank(3);
    assert_eq!(blank3.fit_outcome(&word("été"), 0, 0, 0, &Direction::Horizontal), Outcome::Accepted);
}

#[test]
fn classic_keeps_one_answer_per_placement() {
    let mut c = ClassicPuzzle { puzzle: puzzle_on(cat_tan()) };
    for guess in ["cot", "cut", "cat", "cog"] {
        c.guess_word(placed(guess, 0, 0, Direction::Horizontal)).unwrap();
        let at_origin = c
            .puzzle
            .player_answers
            .iter()
            .filter(|a| a.placement == Placement { x: 0, y: 0, direction: Direction::Horizontal })
            .count();
        assert_eq!(at_origin, 1);
    }
    assert_eq!(c.puzzle.player_answers, vec![placed("cog", 0, 0, Direction::Horizontal)]);
}

#[test]
fn placed_word_and_per_word_answers_are_solution_words() {
    let mut p = PlacedWordPuzzle { puzzle: puzzle_on(cat_tan()) };
    for guess in [placed("cot", 0, 0, Direction::Horizontal), placed("tan", 2, 0, Direction::Verticle), placed("tin", 2, 0, Direction::Verticle)] {
        let _ = p.guess_word(guess);
        for a in &p.puzzle.player_answers {
            assert!(p.puzzle.solution.words.contains(a));
        }
    }
    let mut q = PerWordPuzzle { puzzle: puzzle_on(cat_tan()) };
    for guess in [placed("cot", 0, 0, Direction::Horizontal), placed("cat", 3, 3, Direction::Verticle)] {
        let _ = q.guess_word(guess);
        for a in &q.puzzle.player_answers {
            assert!(q.puzzle.solution.words.contains(a));
        }
    }
    assert_eq!(q.puzzle.player_answers, vec![placed("cat", 0, 0, Direction::Horizontal)]);
}

#[test]
fn board_matches_the_rebuilt_board_after_guesses() {
    let mut p = PerWordPuzzle { puzzle: puzzle_on(cat_tan()) };
    p.guess_word(placed("tan", 0, 0, Direction::Horizontal)).unwrap();
    p.guess_word(placed("cat", 0, 0, Direction::Horizontal)).unwrap();
    let mut rebuilt = p.puzzle.clone();
    rebuilt.grid_from_answers().unwrap();
    assert_eq!(rebuilt, p.puzzle);
}

const MANY: [&str; 10] = ["crossword", "puzzle", "letter", "grid", "across", "down", "clue", "answer", "rust", "word"];

#[test]
fn per_word_right_guesses_are_correct_then_complete() {
    for _ in 0..20 {
        let mut pz = PerWordPuzzle::new(conf(&MANY, 12)).unwrap();
        let answers: Vec<String> = pz.puzzle.solution.words.iter().map(|w| w.word.text.clone()).collect();
        let n = answers.len();
        for (i, text) in answers.iter().enumerate() {
            let guess = placed(text, 0, 0, Direction::Verticle);
            let expected = if i + 1 == n { GuessResult::Complete } else { GuessResult::Correct };
            assert_eq!(pz.guess_word(guess), Ok(expected));
        }
        assert_eq!(pz.puzzle.is_complete(), Ok(true));
        assert_eq!(pz.puzzle.grid_from_answers(), Ok(()));
    }
}

#[test]
fn placed_word_right_guesses_are_correct_then_complete() {
    for _ in 0..20 {
        let mut pz = PlacedWordPuzzle::new(conf(&MANY, 12)).unwrap();
        let answers: Vec<PlacedWord> = pz.puzzle.solution.words.iter().rev().cloned().collect();
        let n = answers.len();
        for (i, answer) in answers.into_iter().enumerate() {
            let expected = if i + 1 == n { GuessResult::Complete } else { GuessResult::Correct };
            assert_eq!(pz.guess_word(answer), Ok(expected));
        }
        assert_eq!(pz.puzzle.is_complete(), Ok(true));
    }
}

#[test]
fn every_word_after_the_first_crosses_the_words_before_it() {
    for _ in 0..20 {
        let s = Solution::new(conf(&MANY, 12)).unwrap();
        let mut grid = vec![vec![None; 12]; 12];
        for (k, w) in s.words.iter().enumerate() {
            let cells: Vec<(usize, usize, char)> = w
                .word
                .text
                .chars()
                .enumerate()
                .map(|(i, ch)| match w.placement.direction {
                    Direction::Horizontal => (w.placement.y, w.placement.x + i, ch),
                    Direction::Verticle => (w.placement.y + i, w.placement.x, ch),
                })
                .collect();
            if k > 0 {
                assert!(cells.iter().any(|&(r, c, ch)| grid[r][c] == Some(ch)));
            }
            for (r, c, ch) in cells {
                grid[r][c] = Some(ch);
            }
        }
        let expected: Vec<SolutionRow> = grid.into_iter().map(|row| SolutionRow { row }).collect();
        assert_eq!(s.grid, expected);
    }
}

#[test]
fn classic_never_judges_a_guess() {
    let mut c = ClassicPuzzle { puzzle: puzzle_on(cat_tan()) };
    assert_eq!(c.guess_word(placed("dog", 0, 0, Direction::Horizontal)), Ok(GuessResult::Unchecked));
    assert_eq!(c.guess_word(placed("tan", 2, 0, Direction::Verticle)), Ok(GuessResult::Conflict));
    assert_eq!(c.guess_word(placed("cat", 0, 0, Direction::Horizontal)), Ok(GuessResult::Unchecked));
    assert_eq!(c.guess_word(placed("tan", 2, 0, Direction::Verticle)), Ok(GuessResult::Unchecked));
    assert_eq!(c.puzzle.is_complete(), Ok(true));
}

#[test]
fn check_answer_reports_each_outcome() {
    let p = puzzle_on(cat_tan());
    let ws = &p.solution.words;
    assert_eq!(check_answer(&p.grid, ws, &placed("cat", 0, 0, Direction::Horizontal)), AnswerCheck::Fits);
    assert_eq!(check_answer(&p.grid, ws, &placed("dog", 0, 0, Direction::Horizontal)), AnswerCheck::Fits);
    assert_eq!(check_answer(&p.grid, ws, &placed("cats", 0, 0, Direction::Horizontal)), AnswerCheck::Clash);
    assert_eq!(check_answer(&p.grid, ws, &placed("cat", 1, 1, Direction::Horizontal)), AnswerCheck::Unknown);
    let no_slots: Vec<PuzzleRow> = (0..5)
        .map(|_| PuzzleRow { row: vec![PuzzleSpace { char_slot: None, has_char_slot: false }; 5] })
        .collect();
    assert_eq!(check_answer(&no_slots, ws, &placed("cat", 0, 0, Direction::Horizontal)), AnswerCheck::NoSlot);
    assert_eq!(check_answer(&vec![], ws, &placed("cat", 0, 0, Direction::Horizontal)), AnswerCheck::Faulted);
}

#[test]
fn rebuild_board_stops_at_the_first_answer_that_does_not_fit() {
    let s = cat_tan();
    let cat = placed("cat", 0, 0, Direction::Horizontal);
    let (outcome, board) = rebuild_board(&s, &vec![cat.clone()]);
    assert_eq!(outcome, AnswerCheck::Fits);
    assert_eq!(board[0].row[2].char_slot, Some('t'));
    let (outcome, board) = rebuild_board(&s, &vec![cat, placed("pan", 2, 0, Direction::Verticle)]);
    assert_eq!(outcome, AnswerCheck::Clash);
    assert_eq!(board[1].row[2].char_slot, None);
}

#[test]
fn guesses_that_reach_outside_the_board_are_refused() {
    let p = puzzle_on(cat_tan());
    let cat = placed("cat", 0, 0, Direction::Horizontal);
    assert!(classic_guess_allowed(&p, &cat));
    assert!(placed_word_guess_allowed(&p, &cat));
    assert!(per_word_guess_allowed(&p, &cat));
    let mut broken = p.clone();
    broken.grid = vec![];
    assert!(classic_guess_allowed(&broken, &cat));
    assert!(!placed_word_guess_allowed(&broken, &cat));
    assert!(!per_word_guess_allowed(&broken, &cat));
    assert!(placed_word_guess_allowed(&broken, &placed("dog", 0, 0, Direction::Horizontal)));
    let container = PuzzleContainer { puzzle_type: PuzzleType::PerWord, puzzle: broken };
    assert!(!can_guess(&container, &cat));
    assert!(can_guess(&PuzzleContainer { puzzle_type: PuzzleType::PerWord, puzzle: p }, &cat));
}

#[test]
fn removals_that_reach_outside_the_board_are_refused() {
    let outside = Solution {
        grid: vec![row("...ca"), row("....."), row("dog.."), row("....."), row(".....")],
        words: vec![placed("cat", 3, 0, Direction::Horizontal), placed("dog", 0, 2, Direction::Horizontal)],
        width: 5,
        height: 5,
    };
    let p = Puzzle { solution: outside, player_answers: vec![placed("cat", 3, 0, Direction::Horizontal)], grid: vec![] };
    let elsewhere = Placement { x: 0, y: 2, direction: Direction::Horizontal };
    let there = Placement { x: 3, y: 0, direction: Direction::Horizontal };
    assert!(!remove_allowed(&p, &elsewhere));
    assert!(remove_allowed(&p, &there));
    let classic = PuzzleContainer { puzzle_type: PuzzleType::Classic, puzzle: p.clone() };
    assert!(!can_remove_answer(&classic, &elsewhere));
    assert!(can_remove_answer(&classic, &there));
    let per_word = PuzzleContainer { puzzle_type: PuzzleType::PerWord, puzzle: p };
    assert!(can_remove_answer(&per_word, &elsewhere));
}

fn blank(side: usize) -> Solution {
    Solution { grid: (0..side).map(|_| SolutionRow { row: vec![None; side] }).collect(), words: vec![], width: side, height: side }
}

#[test]
fn fit_outcome_accepts_rejects_and_faults() {
    let s = blank(5);
    assert_eq!(s.fit_outcome(&word("cat"), 0, 0, 0, &Direction::Horizontal), Outcome::Accepted);
    assert_eq!(s.fit_outcome(&word("cat"), 3, 0, 0, &Direction::Horizontal), Outcome::Rejected);
    assert_eq!(s.fit_outcome(&word("cat"), 1, 0, 2, &Direction::Horizontal), Outcome::Rejected);
    assert_eq!(s.fit_outcome(&word(""), 0, 0, 0, &Direction::Horizontal), Outcome::Faulted);
    let c = cat_tan();
    assert_eq!(c.fit_outcome(&word("ant"), 2, 1, 1, &Direction::Horizontal), Outcome::Rejected);
    assert_eq!(c.fit_outcome(&word("tan"), 2, 0, 0, &Direction::Verticle), Outcome::Rejected);
    assert_eq!(c.fit_outcome(&word("net"), 2, 2, 0, &Direction::Horizontal), Outcome::Accepted);
    let short = Solution { grid: vec![], words: vec![], width: 5, height: 5 };
    assert_eq!(short.fit_outcome(&word("cat"), 1, 0, 0, &Direction::Horizontal), Outcome::Faulted);
}

#[test]
fn replay_outcome_tells_when_validation_can_run() {
    assert_eq!(cat_tan().replay_outcome(), Outcome::Accepted);
    let overlapping = Solution {
        grid: vec![row("cat.."), row("....."), row("....."), row("....."), row(".....")],
        words: vec![placed("cat", 0, 0, Direction::Horizontal), placed("cab", 0, 0, Direction::Horizontal)],
        width: 5,
        height: 5,
    };
    assert_eq!(overlapping.replay_outcome(), Outcome::Rejected);
    assert_eq!(overlapping.is_valid(), Err(CrosswordError::BadConfig));
    let no_room = Solution { grid: vec![], words: vec![placed("cat", 0, 0, Direction::Horizontal)], width: 0, height: 0 };
    assert_eq!(no_room.replay_outcome(), Outcome::Faulted);
}

#[test]
fn complete_exactly_when_no_wrong_answers() {
    let mut p = puzzle_on(cat_tan());
    p.player_answers = vec![placed("cat", 0, 0, Direction::Horizontal), placed("tin", 2, 0, Direction::Verticle)];
    assert_eq!(p.is_complete(), Ok(false));
    assert_eq!(p.wrong_answers_and_solutions().unwrap().len(), 1);
    p.player_answers = vec![placed("tan", 2, 0, Direction::Verticle), placed("cat", 0, 0, Direction::Horizontal)];
    assert_eq!(p.is_complete(), Ok(true));
    assert!(p.wrong_answers_and_solutions().unwrap().is_empty());
}

#[test]
fn non_square_grids_generate_connected_crosswords() {
    for _ in 0..20 {
        let mut c = conf(&MANY, 12);
        c.width = 14;
        c.height = 9;
        let s = Solution::new(c).unwrap();
        assert_eq!(s.grid.len(), 9);
        assert!(s.grid.iter().all(|r| r.row.len() == 14));
        assert_eq!(s.is_valid(), Ok(()));
        for (k, w) in s.words.iter().enumerate().skip(1) {
            assert!(s.words[..k].iter().any(|v| v.placement.direction != w.placement.direction));
        }
    }
}

#[test]
fn centre_uses_the_width() {
    let mut c = conf(&["abcdefg"], 7);
    c.height = 3;
    c.initial_placement = Some(CrosswordInitialPlacement {
        min_letter_count: None,
        strategy: Some(CrosswordInitialPlacementStrategy::Center(Direction::Horizontal)),
    });
    let s = Solution::new(c).unwrap();
    assert_eq!(s.grid[1], row("abcdefg"));
}

#[test]
fn repeated_right_guess_is_a_repeat() {
    let mut p = PlacedWordPuzzle { puzzle: puzzle_on(cat_tan()) };
    let cat = placed("cat", 0, 0, Direction::Horizontal);
    assert_eq!(p.guess_word(cat.clone()), Ok(GuessResult::Correct));
    assert_eq!(p.guess_word(cat), Ok(GuessResult::Repeat));
    assert_eq!(p.puzzle.player_answers.len(), 1);
    assert_eq!(p.guess_word(placed("tan", 2, 0, Direction::Verticle)), Ok(GuessResult::Complete));
}

#[test]
fn is_valid_answers_an_error_for_words_outside_the_grid() {
    let outside = Solution { grid: vec![row("...")], words: vec![placed("cat", 2, 0, Direction::Horizontal)], width: 3, height: 1 };
    assert_eq!(outside.is_valid(), Err(CrosswordError::BadConfig));
    let no_rows = Solution { grid: vec![], words: vec![placed("cat", 0, 0, Direction::Horizontal)], width: 0, height: 0 };
    assert_eq!(no_rows.is_valid(), Err(CrosswordError::BadConfig));
}

#[test]
fn build_places_each_word_at_its_turn() {
    let c = SolutionConf {
        words: vec![word("net"), word("tan")],
        max_words: 5,
        width: 5,
        height: 5,
        requirements: None,
        initial_placement: custom(0, 0, Direction::Horizontal),
    };
    // The pool is [net, tan]; "tan" is the last that fits, so it goes first at (0, 0) across,
    // then "net" crosses it on its first letter, down from the "n" of "tan".
    let s = Solution::build(&c, vec![word("net"), word("tan")]).unwrap();
    assert_eq!(s.words.len(), 2);
    assert_eq!(s.words[0], placed("tan", 0, 0, Direction::Horizontal));
    assert_eq!(s.words[1], placed("net", 2, 0, Direction::Verticle));
    let mut reqs = c.clone();
    reqs.requirements = Some(CrosswordReqs {
        max_retries: 0,
        min_letters_per_word: None,
        min_words: Some(3),
        max_empty_columns: None,
        max_empty_rows: None,
    });
    assert_eq!(Solution::build(&reqs, vec![word("net"), word("tan")]), Err(CrosswordError::InsufficientPuzzle));
}

#[test]
fn a_grid_empty_across_the_first_word_has_no_first_word() {
    let mut c = conf(&["cat", "dog"], 5);
    c.height = 0;
    c.initial_placement = Some(CrosswordInitialPlacement {
        min_letter_count: None,
        strategy: Some(CrosswordInitialPlacementStrategy::UpperLeft(Direction::Verticle)),
    });
    assert_eq!(Solution::new(c.clone()).unwrap_err(), CrosswordError::MaxRetries);
    c.initial_placement = Some(CrosswordInitialPlacement {
        min_letter_count: None,
        strategy: Some(CrosswordInitialPlacementStrategy::UpperLeft(Direction::Horizontal)),
    });
    assert_eq!(Solution::new(c.clone()).unwrap_err(), CrosswordError::MaxRetries);
    let shuffled = c.words.clone();
    assert_eq!(Solution::build(&c, shuffled), Err(CrosswordError::NoValidInitialWords));
}

#[test]
fn words_are_exactly_the_maximal_runs() {
    for _ in 0..20 {
        let mut c = conf(&MANY, 12);
        c.height = 10;
        let s = Solution::new(c).unwrap();
        let (w, h) = (12usize, 10usize);
        let cell = |r: usize, col: usize| s.grid[r].row[col].is_some();
        let mut runs: Vec<(Direction, usize, usize, usize)> = vec![];
        for r in 0..h {
            let mut col = 0;
            while col < w {
                if cell(r, col) {
                    let b = col;
                    while col < w && cell(r, col) {
                        col += 1;
                    }
                    if col - b >= 2 {
                        runs.push((Direction::Horizontal, b, r, col - b));
                    }
                } else {
                    col += 1;
                }
            }
        }
        for col in 0..w {
            let mut r = 0;
            while r < h {
                if cell(r, col) {
                    let b = r;
                    while r < h && cell(r, col) {
                        r += 1;
                    }
                    if r - b >= 2 {
                        runs.push((Direction::Verticle, col, b, r - b));
                    }
                } else {
                    r += 1;
                }
            }
        }
        let mut spans: Vec<(Direction, usize, usize, usize)> = s
            .words
            .iter()
            .map(|pw| (pw.placement.direction, pw.placement.x, pw.placement.y, pw.word.text.chars().count()))
            .collect();
        let key = |t: &(Direction, usize, usize, usize)| (t.0 == Direction::Verticle, t.1, t.2, t.3);
        runs.sort_by_key(key);
        spans.sort_by_key(key);
        assert_eq!(runs, spans);
    }
}
