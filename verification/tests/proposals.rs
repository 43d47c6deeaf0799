use grimoire::model::Reference;
use grimoire::proposals::{summary, ProposalBatch, BatchStep};
use grimoire::tui::{display_of, list_entry};

fn next(step: BatchStep<&'static str>) -> ProposalBatch<&'static str> {
    match step {
        BatchStep::Next(b) => b,
        BatchStep::Done { applied, skipped } => panic!("done early: {applied} {skipped}"),
        BatchStep::Abandoned => panic!("abandoned"),
    }
}

#[test]
fn empty_batch_has_nothing_to_review() {
    assert!(ProposalBatch::<&str>::start(Vec::new()).is_none());
}

#[test]
fn every_proposal_is_applied_or_skipped() {
    let review = ProposalBatch::start(vec!["a", "b", "c"]).unwrap();
    assert_eq!(review.current, "a");
    assert_eq!(review.total, 3);
    assert_eq!(review.batch_label().as_deref(), Some(" [1/3] "));
    let review = next(review.apply(true));
    assert_eq!(review.current, "b");
    assert_eq!(review.batch_label().as_deref(), Some(" [2/3] "));
    let review = next(review.skip());
    assert_eq!(review.current, "c");
    match review.apply(true) {
        BatchStep::Done { applied, skipped } => {
            assert_eq!((applied, skipped), (2, 1));
            assert_eq!(summary(applied, skipped), "Enriched 2, skipped 1");
        }
        _ => panic!("batch should be done"),
    }
}

#[test]
fn failed_save_drops_the_batch() {
    let review = ProposalBatch::start(vec!["a", "b"]).unwrap();
    assert!(matches!(review.apply(false), BatchStep::Abandoned));
}

#[test]
fn finishing_early_counts_the_rest_as_skipped() {
    let review = ProposalBatch::start(vec!["a", "b", "c", "d"]).unwrap();
    let review = next(review.apply(true));
    assert_eq!(review.finish(), Some((1, 3)));
    let untouched = ProposalBatch::start(vec!["a", "b"]).unwrap();
    assert_eq!(untouched.finish(), None);
}

#[test]
fn single_proposal_has_no_batch_label() {
    let review = ProposalBatch::start(vec!["only"]).unwrap();
    assert_eq!(review.batch_label(), None);
    match review.skip() {
        BatchStep::Done { applied, skipped } => assert_eq!((applied, skipped), (0, 1)),
        _ => panic!("single proposal should finish the batch"),
    }
}

#[test]
fn list_line_joins_author_year_and_title() {
    let mut r = Reference::titled("Attention Is All You Need".to_string());
    r.authors = vec!["Vaswani, Ashish".to_string(), "Shazeer, Noam".to_string()];
    r.year = Some(2017);
    assert_eq!(display_of(&r), "Vaswani, Ashish et al.  (2017)  Attention Is All You Need");
    r.authors.truncate(1);
    r.year = None;
    assert_eq!(display_of(&r), "Vaswani, Ashish  Attention Is All You Need");
    r.authors.clear();
    assert_eq!(display_of(&r), "Attention Is All You Need");
    r.title = String::new();
    assert_eq!(display_of(&r), "");
}

#[test]
fn list_entry_carries_the_fields_the_list_uses() {
    let mut r = Reference::titled("Deep learning".to_string());
    r.authors = vec!["LeCun, Yann".to_string()];
    r.year = Some(2015);
    r.tags = vec!["ml".to_string()];
    let e = list_entry("lecun-2015".to_string(), &r);
    assert_eq!(e.dir_name, "lecun-2015");
    assert_eq!(e.display, "LeCun, Yann  (2015)  Deep learning");
    assert_eq!(e.first_author.as_deref(), Some("LeCun, Yann"));
    assert_eq!(e.year, Some(2015));
    assert_eq!(e.title, "Deep learning");
    assert_eq!(e.tags, vec!["ml".to_string()]);
}
