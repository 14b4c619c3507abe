use std::io::{Error, ErrorKind};
use std::path::PathBuf;

use emoji_builder::builder::{reset_outcome, EmojiBuilder, Outcomes, PreparationResult, ResetError};
use emoji_builder::changes::{CheckError, FileHashes};
use emoji_builder::digest::content_digest;
use emoji_builder::driver::{
    assemble_and_commit, collect_outcomes, commit, decide, insert_outcome, outcome_is_ok, plan, prepare_item, Decision,
};
use emoji_builder::emoji::Emoji;

fn item(sequence: Vec<u32>) -> Emoji {
    let mut emoji = Emoji::from(sequence);
    emoji.set_path(PathBuf::from("x.svg"));
    emoji
}

fn keys(outcomes: &Outcomes<u32, String>) -> Vec<Vec<u32>> {
    let mut keys: Vec<Vec<u32>> = outcomes.iter().map(|(e, _)| e.sequence.clone()).collect();
    keys.sort();
    keys
}

#[test]
fn decide_reuses_only_fresh_items_with_artifacts() {
    assert_eq!(decide(&Ok(true), true), Decision::Reuse);
    assert_eq!(decide(&Ok(true), false), Decision::Prepare);
    assert_eq!(decide(&Ok(false), true), Decision::Prepare);
    assert_eq!(decide(&Err(CheckError::NoFileSpecified), true), Decision::Prepare);
}

#[test]
fn one_failure_keeps_every_outcome() {
    let results: Vec<(Emoji, PreparationResult<u32, String>)> = vec![
        (item(vec![1]), Ok((10, None))),
        (item(vec![2]), Err("missing source".to_string())),
        (item(vec![3]), Ok((30, None))),
    ];
    let outcomes = collect_outcomes(results);
    assert_eq!(outcomes.len(), 3);
    assert_eq!(outcomes.iter().filter(|(_, r)| r.is_ok()).count(), 2);
    assert!(outcome_is_ok(&outcomes, &vec![1]));
    assert!(!outcome_is_ok(&outcomes, &vec![2]));
    assert!(outcome_is_ok(&outcomes, &vec![3]));
    assert!(!outcome_is_ok(&outcomes, &vec![4]));
}

#[test]
fn derived_items_join_the_outcomes() {
    let results: Vec<(Emoji, PreparationResult<u32, String>)> = vec![
        (item(vec![0x1f44d]), Ok((1, Some(vec![(item(vec![0x1f44d, 0x1f3fb]), 2), (item(vec![0x1f44d, 0x1f3ff]), 3)])))),
        (item(vec![0x1f600]), Ok((4, None))),
    ];
    let outcomes = collect_outcomes(results);
    assert_eq!(keys(&outcomes), vec![vec![0x1f44d], vec![0x1f44d, 0x1f3fb], vec![0x1f44d, 0x1f3ff], vec![0x1f600]]);
}

#[test]
fn later_outcome_for_a_sequence_wins() {
    let mut outcomes: Outcomes<u32, String> = Vec::new();
    insert_outcome(&mut outcomes, item(vec![7]), Err("first".to_string()));
    insert_outcome(&mut outcomes, item(vec![7]), Ok(2));
    assert_eq!(outcomes.len(), 1);
    assert!(outcome_is_ok(&outcomes, &vec![7]));
}

#[test]
fn failed_build_leaves_cache_untouched() {
    let mut cache = FileHashes::new();
    let emoji = item(vec![0x1f600]);
    let outcomes = collect_outcomes::<u32, String>(vec![(emoji.clone(), Ok((1, None)))]);
    let digests = vec![(vec![0x1f600], content_digest(b"svg"))];
    commit(&mut cache, &outcomes, &digests, false);
    assert!(cache.is_empty());
    let checks = vec![cache.check(&emoji, Ok(b"svg".to_vec()))];
    assert_eq!(plan(&checks, &vec![true]), vec![Decision::Prepare]);
}

#[test]
fn failed_items_stay_stale() {
    let mut cache = FileHashes::new();
    let good = item(vec![1]);
    let bad = item(vec![2]);
    let outcomes = collect_outcomes::<u32, String>(vec![
        (good.clone(), Ok((1, None))),
        (bad.clone(), Err("broken".to_string())),
    ]);
    let digests = vec![(vec![1], content_digest(b"g")), (vec![2], content_digest(b"b"))];
    commit(&mut cache, &outcomes, &digests, true);
    assert_eq!(cache.len(), 1);
    assert!(matches!(cache.check(&good, Ok(b"g".to_vec())), Ok(true)));
    assert!(matches!(cache.check(&bad, Ok(b"b".to_vec())), Ok(false)));
}

#[test]
fn unchanged_items_are_reused_on_the_next_run() {
    let mut cache = FileHashes::new();
    let emoji = item(vec![0x1f600]);
    let outcomes = collect_outcomes::<u32, String>(vec![(emoji.clone(), Ok((1, None)))]);
    commit(&mut cache, &outcomes, &vec![(vec![0x1f600], content_digest(b"<svg/>\n"))], true);
    let checks = vec![cache.check(&emoji, Ok(b"<svg/>\r\n".to_vec()))];
    assert_eq!(plan(&checks, &vec![true]), vec![Decision::Reuse]);
}

#[test]
fn one_cached_one_new_item() {
    let smile = item(vec![0x1F600]);
    let grin = item(vec![0x1F601]);
    let mut cache = FileHashes::new();
    cache.update(&smile, &content_digest(b"smile"));

    let checks = vec![
        cache.check(&smile, Ok(b"smile".to_vec())),
        cache.check(&grin, Ok(b"grin".to_vec())),
    ];
    let decisions = plan(&checks, &vec![true, true]);
    assert_eq!(decisions, vec![Decision::Reuse, Decision::Prepare]);

    let outcomes = collect_outcomes::<u32, String>(vec![
        (smile.clone(), Ok((0, None))),
        (grin.clone(), Ok((1, None))),
    ]);
    let digests = vec![
        (vec![0x1F600], content_digest(b"smile")),
        (vec![0x1F601], content_digest(b"grin")),
    ];
    commit(&mut cache, &outcomes, &digests, true);

    let mut rows = cache.to_records();
    rows.sort();
    assert_eq!(rows.len(), 2);
    assert_eq!(rows[0], vec!["1f600".to_string(), hex::encode(content_digest(b"smile"))]);
    assert_eq!(rows[1], vec!["1f601".to_string(), hex::encode(content_digest(b"grin"))]);
}

#[test]
fn reset_reports_every_failed_removal() {
    let listing: Result<Vec<Result<(), Error>>, Error> = Ok(vec![
        Ok(()),
        Err(Error::new(ErrorKind::PermissionDenied, "locked.png")),
        Ok(()),
        Err(Error::new(ErrorKind::Other, "busy")),
    ]);
    match reset_outcome::<String>(listing) {
        Err(ResetError::IoErrors(errors)) => {
            assert_eq!(errors.len(), 2);
            assert_eq!(errors[0].kind(), ErrorKind::PermissionDenied);
            assert_eq!(errors[1].kind(), ErrorKind::Other);
        }
        _ => panic!("expected the failed removals"),
    }
    assert!(reset_outcome::<String>(Ok(vec![Ok(()), Ok(())])).is_ok());
    assert!(matches!(
        reset_outcome::<String>(Err(Error::new(ErrorKind::NotFound, "no dir"))),
        Err(ResetError::IoError(_))
    ));
}

struct Recorder {
    dir: PathBuf,
}

impl EmojiBuilder for Recorder {
    type Err = String;
    type PreparedEmoji = usize;
    type Config = ();

    fn new(build_dir: PathBuf, _config: ()) -> Result<Self, String> {
        Ok(Recorder { dir: build_dir })
    }

    fn prepare(&self, emoji: &Emoji) -> PreparationResult<usize, String> {
        if emoji.sequence.len() > 1 {
            Err("sequences are not supported".to_string())
        } else {
            Ok((emoji.sequence.len(), None))
        }
    }

    fn build(&mut self, emojis: Outcomes<usize, String>, _output_file: PathBuf) -> Result<(), String> {
        if emojis.iter().all(|(_, r)| r.is_ok()) { Ok(()) } else { Err("partial".to_string()) }
    }

    fn reset(&self, _build_dir: PathBuf) -> Result<(), ResetError<String>> {
        Ok(())
    }
}

#[test]
fn producer_defaults() {
    let mut producer = Recorder::new(PathBuf::from("build"), ()).unwrap();
    assert_eq!(producer.dir, PathBuf::from("build"));
    let emoji = item(vec![0x1f600]);
    assert_eq!(producer.undo(&emoji, Ok(3)), Ok(Ok(3)));
    assert_eq!(producer.undo(&emoji, Err("x".to_string())), Ok(Err("x".to_string())));
    assert_eq!(producer.reuse(&emoji), None);
    assert_eq!(producer.finish(vec![]), Ok(()));
    let results = vec![(emoji.clone(), producer.prepare(&emoji)), (item(vec![1, 2]), producer.prepare(&item(vec![1, 2])))];
    let outcomes = collect_outcomes(results);
    assert_eq!(outcomes.len(), 2);
    assert_eq!(producer.build(outcomes, PathBuf::from("out.ttf")), Err("partial".to_string()));
}

#[test]
fn reused_items_take_the_reused_value() {
    let producer = Recorder::new(PathBuf::from("build"), ()).unwrap();
    let long = item(vec![1, 2]);
    let (emoji, result) = prepare_item(&producer, long.clone(), Decision::Reuse, Some(7));
    assert_eq!(emoji, long);
    assert_eq!(result, Ok((7, None)));
    let (_, result) = prepare_item(&producer, long.clone(), Decision::Prepare, Some(7));
    assert_eq!(result, Err("sequences are not supported".to_string()));
    let (_, result) = prepare_item(&producer, item(vec![5]), Decision::Reuse, None);
    assert_eq!(result, Ok((1, None)));
}

#[test]
fn failed_assembly_commits_nothing() {
    let mut producer = Recorder::new(PathBuf::from("build"), ()).unwrap();
    let mut cache = FileHashes::new();
    let good = item(vec![1]);
    let bad = item(vec![1, 2]);
    let results = vec![(good.clone(), producer.prepare(&good)), (bad.clone(), producer.prepare(&bad))];
    let outcomes = collect_outcomes(results);
    let digests = vec![(vec![1], content_digest(b"g")), (vec![1, 2], content_digest(b"b"))];
    let built = assemble_and_commit(&mut producer, &mut cache, outcomes, &digests, PathBuf::from("out"));
    assert!(built.is_err());
    assert!(cache.is_empty());
}

#[test]
fn successful_assembly_commits_successes() {
    let mut producer = Recorder::new(PathBuf::from("build"), ()).unwrap();
    let mut cache = FileHashes::new();
    let a = item(vec![1]);
    let b = item(vec![2]);
    let results = vec![(a.clone(), producer.prepare(&a)), (b.clone(), producer.prepare(&b))];
    let outcomes = collect_outcomes(results);
    let digests = vec![(vec![1], content_digest(b"a")), (vec![2], content_digest(b"b"))];
    let built = assemble_and_commit(&mut producer, &mut cache, outcomes, &digests, PathBuf::from("out"));
    assert!(built.is_ok());
    assert_eq!(cache.len(), 2);
    assert!(matches!(cache.check(&a, Ok(b"a".to_vec())), Ok(true)));
}
