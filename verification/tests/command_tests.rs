//! Running a command, and the small tools that the rest is built from.

use herdr_muster::command::{
    drain_step, CommandAction, CommandEvent, CommandRun, DrainStep, ReadEvent,
    COMMAND_TIMEOUT_SECS, MAX_COMMAND_OUTPUT,
};
use herdr_muster::fuzzy::FuzzyMatcher;
use herdr_muster::herdr::HerdrError;
use herdr_muster::text::{
    blank, equal_ignoring_case, find_from, join_all, not_after, number_text, sanitize_text, trim,
};

fn quiet(elapsed: u64) -> CommandEvent {
    CommandEvent::Checked {
        cancelled: false,
        elapsed,
    }
}

/// A command that is running, with its outputs set up.
fn running(label: &str) -> CommandRun {
    let mut run = CommandRun::new(label);
    assert_eq!(run.action(), CommandAction::Check);
    run.step(quiet(0));
    assert_eq!(run.action(), CommandAction::Spawn);
    run.step(CommandEvent::Spawned(Ok(())));
    assert_eq!(run.action(), CommandAction::Configure);
    run.step(CommandEvent::Configured(Ok(())));
    assert_eq!(run.action(), CommandAction::Check);
    run
}

/// Stop a command that has to be stopped, and say how it ended.
fn stopped(mut run: CommandRun) -> Result<bool, HerdrError> {
    assert_eq!(run.action(), CommandAction::Stop);
    assert!(run.ending().is_none());
    run.step(CommandEvent::Stopped);
    assert_eq!(run.action(), CommandAction::Done);
    run.ending().unwrap()
}

#[test]
fn commands_run_until_they_end() {
    let mut run = running("ls");
    for elapsed in 0..3 {
        run.step(quiet(elapsed));
        assert_eq!(run.action(), CommandAction::Drain);
        run.step(CommandEvent::Drained(Ok(())));
        assert_eq!(run.action(), CommandAction::Wait);
        run.step(CommandEvent::Waited(Ok(None)));
        assert_eq!(run.action(), CommandAction::Sleep);
        run.step(CommandEvent::Slept);
        assert_eq!(run.action(), CommandAction::Check);
    }
    run.step(quiet(4));
    run.step(CommandEvent::Drained(Ok(())));
    run.step(CommandEvent::Waited(Ok(Some(true))));
    // What it left running is stopped, and its outputs are read to the end.
    assert_eq!(run.action(), CommandAction::Stop);
    run.step(CommandEvent::Stopped);
    assert_eq!(run.action(), CommandAction::Drain);
    run.step(CommandEvent::Drained(Ok(())));
    assert_eq!(run.action(), CommandAction::Done);
    assert_eq!(run.ending(), Some(Ok(true)));
}

#[test]
fn cancellation_stops_a_running_command() {
    let cancelled = || CommandEvent::Checked {
        cancelled: true,
        elapsed: 0,
    };
    let mut run = running("sleep");
    run.step(cancelled());
    assert_eq!(
        stopped(run),
        Err(HerdrError::Cancelled("sleep cancelled".into()))
    );
    let mut early = CommandRun::new("sleep");
    early.step(cancelled());
    assert_eq!(early.action(), CommandAction::Done);
    assert_eq!(
        early.ending(),
        Some(Err(HerdrError::Cancelled("sleep cancelled".into())))
    );
}

#[test]
fn commands_that_take_too_long_are_stopped() {
    let mut run = running("slow");
    run.step(quiet(COMMAND_TIMEOUT_SECS));
    assert_eq!(
        stopped(run),
        Err(HerdrError::Timeout("slow timed out after 30 seconds".into()))
    );
}

#[test]
fn commands_that_cannot_be_run_say_why() {
    let mut run = CommandRun::new("x");
    run.step(quiet(0));
    run.step(CommandEvent::Spawned(Err("missing".into())));
    assert_eq!(run.action(), CommandAction::Done);
    assert!(matches!(run.ending(), Some(Err(HerdrError::Spawn(why))) if why.contains("missing")));

    let mut run = CommandRun::new("x");
    run.step(quiet(0));
    run.step(CommandEvent::Spawned(Ok(())));
    run.step(CommandEvent::Configured(Err("bad pipe".into())));
    assert!(matches!(stopped(run), Err(HerdrError::Spawn(why)) if why.contains("bad pipe")));

    let mut run = running("x");
    run.step(quiet(0));
    run.step(CommandEvent::Drained(Err("unreadable".into())));
    assert_eq!(
        stopped(run),
        Err(HerdrError::Spawn("read x output: unreadable".into()))
    );

    let mut run = running("x");
    run.step(quiet(0));
    run.step(CommandEvent::Drained(Ok(())));
    run.step(CommandEvent::Waited(Err("lost".into())));
    assert!(matches!(stopped(run), Err(HerdrError::Spawn(why)) if why.contains("lost")));
}

#[test]
fn excessive_command_output_is_bounded() {
    let mut output = Vec::new();
    let full = vec![b'x'; MAX_COMMAND_OUTPUT];
    assert_eq!(drain_step(&mut output, ReadEvent::Bytes(full)), DrainStep::More);
    match drain_step(&mut output, ReadEvent::Bytes(vec![b'x'])) {
        DrainStep::Failed(error) => assert!(error.contains("8 MiB limit")),
        other => panic!("{other:?}"),
    }
    assert_eq!(output.len(), MAX_COMMAND_OUTPUT);
}

#[test]
fn outputs_are_read_until_there_is_no_more() {
    let mut output = Vec::new();
    assert_eq!(
        drain_step(&mut output, ReadEvent::Bytes(b"ab".to_vec())),
        DrainStep::More
    );
    assert_eq!(drain_step(&mut output, ReadEvent::Interrupted), DrainStep::More);
    assert_eq!(
        drain_step(&mut output, ReadEvent::Bytes(b"c".to_vec())),
        DrainStep::More
    );
    assert_eq!(drain_step(&mut output, ReadEvent::WouldBlock), DrainStep::Done);
    assert_eq!(
        drain_step(&mut output, ReadEvent::Bytes(Vec::new())),
        DrainStep::Done
    );
    assert_eq!(
        drain_step(&mut output, ReadEvent::Failed("broken".into())),
        DrainStep::Failed("broken".into())
    );
    assert_eq!(output, b"abc");
}

#[test]
fn controls_are_dropped_from_texts() {
    assert_eq!(sanitize_text("a\u{1b}[2J\u{7f}\u{9b}b\n"), "a[2Jb");
    assert_eq!(sanitize_text("naïve 界"), "naïve 界");
}

#[test]
fn texts_are_trimmed_joined_and_compared() {
    assert_eq!(trim("\u{2003} a b \n"), "a b");
    assert!(blank(" \t\u{a0}"));
    assert!(!blank(" x "));
    assert_eq!(join_all(&vec!["a".into(), "b".into()], "; "), "a; b");
    assert_eq!(join_all(&Vec::new(), "; "), "");
    assert_eq!(number_text(0), "0");
    assert_eq!(number_text(1204), "1204");
    assert!(not_after("a", "ab"));
    assert!(!not_after("b", "ab"));
    assert!(equal_ignoring_case("DoWn", "down"));
    assert!(!equal_ignoring_case("Ä", "ä"));
    let hay: Vec<char> = "backend unavailable".chars().collect();
    let needle: Vec<char> = "un".chars().collect();
    assert_eq!(find_from(&hay, &needle, 0), Some(8));
    assert_eq!(find_from(&hay, &needle, 9), None);
}

#[test]
fn fuzzy_scores_need_every_letter_in_order() {
    let mut matcher = FuzzyMatcher::new();
    assert!(matcher.score("abc", "a-b-c").is_some());
    assert!(matcher.score("cba", "a-b-c").is_none());
    assert!(matcher.score("api", "api").unwrap() > matcher.score("api", "a-p-i").unwrap());
}

/// The score that nucleo itself gives.
fn direct_score(query: &str, value: &str) -> Option<u32> {
    let pattern = nucleo_matcher::pattern::Pattern::parse(
        query,
        nucleo_matcher::pattern::CaseMatching::Smart,
        nucleo_matcher::pattern::Normalization::Smart,
    );
    let mut matcher = nucleo_matcher::Matcher::new(nucleo_matcher::Config::DEFAULT);
    let mut buffer = Vec::new();
    pattern.score(
        nucleo_matcher::Utf32Str::new(value, &mut buffer),
        &mut matcher,
    )
}

#[test]
fn late_folding_gives_no_score() {
    let mut matcher = FuzzyMatcher::new();
    // Scoring would start at the final sigma, which is not folded there.
    assert_eq!(matcher.score("σä", "ςσä"), None);
    assert_eq!(matcher.score("sä", "ſsä"), None);
    assert_eq!(matcher.score("x σä", "xςσä"), None);
}

#[test]
fn late_folding_elsewhere_is_scored() {
    let mut matcher = FuzzyMatcher::new();
    for (query, value) in [
        // A later letter of a word, or one that comes after its first match.
        ("éσ", "éσ ς"),
        ("σä", "σςä"),
        ("σä", "Σς-ä"),
        ("σä", "σä ς"),
        // Compared as they are: nothing else fits.
        ("σä", "ςä"),
        ("σä", "x ςä"),
        // No folding, normalization as well, or no fuzzy match.
        ("Äσ", "Äς σ"),
        ("σ", "ςσ"),
        ("σx ä", "ςσx ä"),
        ("s", "ſs"),
        ("σä$", "ςσä"),
        ("!σä", "ς"),
        ("äx", "ſäx"),
    ] {
        let score = matcher.score(query, value);
        assert!(score.is_some(), "{query} {value}");
        assert_eq!(score, direct_score(query, value), "{query} {value}");
    }
    assert_eq!(matcher.score("'σä", "ςσä"), direct_score("'σä", "ςσä"));
}

fn texts_of(letters: &[char], longest: usize) -> Vec<String> {
    let mut all = vec![String::new()];
    let mut from = 0;
    for _ in 0..longest {
        let until = all.len();
        for i in from..until {
            for letter in letters {
                all.push(format!("{}{letter}", all[i]));
            }
        }
        from = until;
    }
    all
}

#[test]
fn scores_are_the_matchers_own() {
    let mut matcher = FuzzyMatcher::new();
    let values = texts_of(&['ς', 'σ', 'Σ', 'ä', '-'], 4);
    for query in texts_of(&['σ', 'ä', '$', ' '], 3) {
        for value in &values {
            let score = matcher.score(&query, value);
            if score.is_some() || !value.contains('ς') {
                assert_eq!(score, direct_score(&query, value), "{query} {value}");
            }
        }
    }
}

#[test]
fn long_queries_are_scored_word_by_word() {
    let mut matcher = FuzzyMatcher::new();
    let long = "x".repeat(3_000);
    assert!(matcher.score(&"x ".repeat(100_000), &long).is_some());
    assert!(matcher.score(&"xx yy ".repeat(1_000), &long).is_none());
    let word = "x".repeat(2_520);
    assert!(matcher.score(&word, &word).is_some());
    assert!(matcher.score(&word, &long).is_some());
    assert_eq!(matcher.score(&"x".repeat(2_521), &long), None);
    // A space that a backslash escapes splits no word.
    let escaped = "x\\ ".repeat(900);
    assert_eq!(matcher.score(&escaped, &long), None);
    // No word longer than a text matches it, so that none can be too long for it.
    assert!(matcher.score(&format!("!{} x", "y".repeat(9_000)), &word).is_some());
    let wide = "界".repeat(2_520);
    assert!(matcher.score(&format!("!{} 界", "y".repeat(9_000)), &wide).is_some());
    assert_eq!(matcher.score(&"x".repeat(10_000), "x"), None);
}
