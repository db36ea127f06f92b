use alsein_parsers::parsers::{Error, FULL_SIMILARITY};

fn single(position: usize) -> Error {
    Error::Single(FULL_SIMILARITY, position)
}

fn scored(similarity: u64, position: usize) -> Error {
    Error::Single(similarity, position)
}

fn hinted(inner: Error, message: &str) -> Error {
    Error::Hinted(Box::new(inner), String::from(message))
}

#[test]
fn add_of_two_plain_failures_makes_a_chain_of_two() {
    assert_eq!(single(0) + single(1), Error::Add(vec![single(0), single(1)]));
    assert_eq!(
        Error::Or(vec![single(0)]) + Error::Succeed(1..2),
        Error::Add(vec![Error::Or(vec![single(0)]), Error::Succeed(1..2)])
    );
}

#[test]
fn add_appends_to_a_chain_on_the_left() {
    assert_eq!(
        Error::Add(vec![single(0), single(1)]) + single(2),
        Error::Add(vec![single(0), single(1), single(2)])
    );
}

#[test]
fn add_prepends_to_a_chain_on_the_right() {
    assert_eq!(
        single(0) + Error::Add(vec![single(1), single(2)]),
        Error::Add(vec![single(0), single(1), single(2)])
    );
}

#[test]
fn add_joins_two_chains() {
    assert_eq!(
        Error::Add(vec![single(0), single(1)]) + Error::Add(vec![single(2), single(3)]),
        Error::Add(vec![single(0), single(1), single(2), single(3)])
    );
}

#[test]
fn add_is_associative() {
    let left = (single(0) + single(1)) + single(2);
    let right = single(0) + (single(1) + single(2));
    assert_eq!(left, right);
    assert_eq!(left, Error::Add(vec![single(0), single(1), single(2)]));
    let left = (Error::Succeed(0..2) + (single(2) | single(2))) + Error::Add(vec![single(3)]);
    let right = Error::Succeed(0..2) + ((single(2) | single(2)) + Error::Add(vec![single(3)]));
    assert_eq!(left, right);
}

#[test]
fn bitor_of_two_plain_failures_makes_a_choice_of_two() {
    assert_eq!(single(0) | single(1), Error::Or(vec![single(0), single(1)]));
    assert_eq!(
        Error::Add(vec![single(0)]) | single(1),
        Error::Or(vec![Error::Add(vec![single(0)]), single(1)])
    );
}

#[test]
fn bitor_appends_to_a_choice_on_the_left() {
    assert_eq!(
        Error::Or(vec![single(0), single(1)]) | single(2),
        Error::Or(vec![single(0), single(1), single(2)])
    );
}

#[test]
fn bitor_prepends_to_a_choice_on_the_right() {
    assert_eq!(
        single(0) | Error::Or(vec![single(1), single(2)]),
        Error::Or(vec![single(0), single(1), single(2)])
    );
}

#[test]
fn bitor_joins_two_choices() {
    assert_eq!(
        Error::Or(vec![single(0), single(1)]) | Error::Or(vec![single(2), single(3)]),
        Error::Or(vec![single(0), single(1), single(2), single(3)])
    );
}

#[test]
fn bitor_is_associative() {
    let left = (single(0) | single(1)) | single(2);
    let right = single(0) | (single(1) | single(2));
    assert_eq!(left, right);
    assert_eq!(left, Error::Or(vec![single(0), single(1), single(2)]));
}

#[test]
fn range_of_each_kind_of_failure() {
    assert_eq!(single(7).range(), 7..8);
    assert_eq!(Error::Succeed(3..9).range(), 3..9);
    assert_eq!(Error::Succeed(4..4).range(), 4..4);
    assert_eq!(hinted(single(5), "expected a digit").range(), 5..6);
    assert_eq!(
        Error::Add(vec![Error::Succeed(2..5), single(5), Error::Succeed(8..9)]).range(),
        2..9
    );
    assert_eq!(Error::Add(vec![single(4)]).range(), 4..5);
    assert_eq!(Error::Or(vec![single(4)]).range(), 4..5);
}

#[test]
fn similarity_of_each_kind_of_failure() {
    assert_eq!(scored(250_000, 0).similarity(), 250_000);
    assert_eq!(scored(0, 0).similarity(), 0);
    assert_eq!(Error::Succeed(3..9).similarity(), FULL_SIMILARITY);
    assert_eq!(hinted(scored(400_000, 1), "hint").similarity(), 400_000);
    assert_eq!(
        Error::Add(vec![Error::Succeed(0..3), single(3)]).similarity(),
        500_000
    );
    assert_eq!(
        Error::Add(vec![Error::Succeed(0..1), scored(500_000, 1)]).similarity(),
        750_000
    );
    assert_eq!(
        Error::Add(vec![scored(1, 0), Error::Succeed(1..3)]).similarity(),
        333_333
    );
    assert_eq!(
        Error::Add(vec![single(0), single(10)]).similarity(),
        181_818
    );
    assert_eq!(
        Error::Or(vec![scored(100_000, 0), scored(900_000, 1), scored(500_000, 2)]).similarity(),
        900_000
    );
}

#[test]
fn similarity_never_exceeds_full_similarity() {
    let errors = vec![
        single(0),
        Error::Succeed(0..0),
        Error::Add(vec![single(0), single(1), single(2)]),
        Error::Add(vec![Error::Succeed(0..1), single(1)]),
        Error::Or(vec![single(0), Error::Add(vec![single(0), single(1)])]),
        hinted(Error::Add(vec![single(3), Error::Succeed(4..5)]), "hint"),
    ];
    for error in errors.iter() {
        assert!(error.is_well_formed());
        assert!(error.similarity() <= FULL_SIMILARITY);
    }
}

#[test]
fn choice_reports_the_range_of_its_most_similar_branch() {
    let choice = Error::Or(vec![scored(500_000, 3), scored(900_000, 7), scored(100_000, 9)]);
    assert_eq!(choice.range(), 7..8);
    assert_eq!(choice.similarity(), 900_000);
    let choice = Error::Or(vec![
        Error::Add(vec![Error::Succeed(0..3), single(3)]),
        scored(600_000, 0),
    ]);
    assert_eq!(choice.range(), 0..1);
    assert_eq!(choice.similarity(), 600_000);
}

#[test]
fn choice_with_a_tie_reports_the_first_of_the_best() {
    let choice = Error::Or(vec![scored(500_000, 3), scored(900_000, 7), scored(900_000, 9)]);
    assert_eq!(choice.range(), 7..8);
    let choice = Error::Or(vec![single(4), single(2), single(6)]);
    assert_eq!(choice.range(), 4..5);
    let joined = Error::Or(vec![scored(900_000, 7)]) | scored(900_000, 1);
    assert_eq!(joined.range(), 7..8);
    let joined = scored(100_000, 7) | Error::Or(vec![scored(900_000, 1), scored(900_000, 2)]);
    assert_eq!(joined.range(), 1..2);
}

#[test]
fn inspect_measures_a_well_formed_failure() {
    assert_eq!(single(2).inspect(), Some((2, 3, FULL_SIMILARITY)));
    assert_eq!(
        Error::Add(vec![Error::Succeed(0..3), single(3)]).inspect(),
        Some((0, 4, 500_000))
    );
    assert_eq!(
        Error::Or(vec![scored(1, 5), scored(2, 6)]).inspect(),
        Some((6, 7, 2))
    );
    assert_eq!(Error::Succeed(9..2).inspect(), Some((9, 2, FULL_SIMILARITY)));
}

#[test]
fn failures_with_empty_lists_are_not_well_formed() {
    assert!(!Error::Add(vec![]).is_well_formed());
    assert!(!Error::Or(vec![]).is_well_formed());
    assert!(!Error::Add(vec![single(0), Error::Or(vec![])]).is_well_formed());
    assert!(!hinted(Error::Add(vec![]), "hint").is_well_formed());
    assert_eq!(Error::Or(vec![]).inspect(), None);
}

#[test]
fn failures_with_scores_above_full_are_not_well_formed() {
    assert!(scored(FULL_SIMILARITY, 0).is_well_formed());
    assert!(!scored(FULL_SIMILARITY + 1, 0).is_well_formed());
    assert!(!Error::Or(vec![single(0), scored(u64::MAX, 1)]).is_well_formed());
}

#[test]
fn failures_at_the_last_offset_are_not_well_formed() {
    assert!(single(usize::MAX - 1).is_well_formed());
    assert!(!single(usize::MAX).is_well_formed());
}

#[test]
fn chains_out_of_order_are_not_well_formed() {
    assert!(Error::Add(vec![single(0), single(1)]).is_well_formed());
    assert!(Error::Add(vec![single(0), single(5)]).is_well_formed());
    assert!(!Error::Add(vec![single(1), single(0)]).is_well_formed());
    assert!(!Error::Add(vec![single(0), single(0)]).is_well_formed());
    assert!(!Error::Add(vec![Error::Succeed(0..3), single(2)]).is_well_formed());
    assert!(!Error::Add(vec![single(0), single(1), single(1)]).is_well_formed());
}

#[test]
fn chains_with_an_empty_item_are_not_well_formed() {
    assert!(!Error::Add(vec![Error::Succeed(0..0), single(0)]).is_well_formed());
    assert!(!Error::Add(vec![single(0), Error::Succeed(3..1)]).is_well_formed());
    assert!(Error::Or(vec![Error::Succeed(0..0), single(0)]).is_well_formed());
}

#[test]
fn text_of_a_hinted_failure_is_its_message() {
    let error = hinted(single(3), "expected a closing bracket");
    assert_eq!(error.to_string(), "expected a closing bracket");
    assert_eq!(hinted(Error::Or(vec![]), "").to_string(), "");
}

#[test]
fn text_of_other_failures_is_their_structure() {
    assert_eq!(single(3).to_string(), "Single(1000000, 3)");
    assert_eq!(Error::Succeed(0..2).to_string(), "Succeed(0..2)");
    assert_eq!(
        (Error::Succeed(0..2) + single(2)).to_string(),
        "Add([Succeed(0..2), Single(1000000, 2)])"
    );
    assert_eq!(
        (scored(5, 0) | hinted(single(1), "hint")).to_string(),
        "Or([Single(5, 0), Hinted(Single(1000000, 1), \"hint\")])"
    );
    assert_eq!(single(3).to_string(), format!("{:?}", single(3)));
}
