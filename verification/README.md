# wasm_crossword_generator

A library for generating crossword puzzles and playing them, written in Verus: each
operation carries a contract that Verus proves.

- `src/types.rs`: words, directions, placements, configuration and errors.
- `src/solution.rs`: the solution grid; the fit check of a word (`fit_check`, computed by
  `Solution::fit_outcome`), placing words, and validating a solution by replaying its words
  (`replay`, `Solution::replay_outcome`, `Solution::is_valid`). `fits_directly` and
  `replays_directly` state the checks directly, and `lemma_fit_check_direct` and
  `lemma_replay_is_direct` prove them equal to the step-by-step ones; `runs_are_words` says
  that the words of a valid solution are the runs of letters of its grid.
- `src/rng.rs`: the random choices (rand's `gen_range` and `shuffle`, behind two trusted
  wrappers) and the defaults drawn at random.
- `src/generate.rs`: generation: `Solution::build` turns an arrangement of the candidates into a
  solution (the pool of kept words, the first word, then each word's turn, `fill_step`);
  `Solution::new` shuffles, builds and retries; `generated` is what holds of every result.
- `src/puzzle.rs`: the stateful puzzle: checking and placing answers on the board
  (`check_answer`), rebuilding the board (`rebuild_board`), completeness and wrong answers.
- `src/playmode.rs`: the three playmodes, the contract of a guess in each, and functions that
  tell whether a guess can be answered without reading outside the board.
- `src/container.rs`: entry points that hand the puzzle back with each result (`can_guess` and
  `can_remove_answer` tell whether `guess_word` and `remove_answer` may be called).
- `src/laws.rs`: properties that span operations, stated and proved.
- `app/lib.rs`: serializable copies of the types, conversions, and the WebAssembly exports.

Word lengths are counted in chars throughout. Operations on a puzzle whose board would be read
outside its bounds (a board edited outside the library) are excluded by their `requires`;
`check_answer`, `rebuild_board`, `remove_allowed` and the `*_guess_allowed` functions compute
those conditions, so that a caller can test them first. `Solution::is_valid` answers
`Err(BadConfig)` for a solution whose words reach outside its grid.
