use pollsync::database::Database;
use pollsync::database::DbError;

#[test]
fn empty_description_is_rejected() {
    let mut db = Database::new();
    let r = db.add_poll_and_link_message(
        "alice".to_string(),
        "".to_string(),
        "c1".to_string(),
        "m1".to_string(),
    );
    assert_eq!(r.unwrap_err(), DbError::Validation);
    assert!(db.get_poll_id("m1".to_string(), Some("c1".to_string())).is_err());
}

#[test]
fn duplicate_surface_is_rejected() {
    let mut db = Database::new();
    let id = db
        .add_poll_and_link_message(
            "alice".to_string(),
            "Game night".to_string(),
            "c1".to_string(),
            "m1".to_string(),
        )
        .unwrap();
    let r = db.link_message_to_poll("c1".to_string(), "m1".to_string(), id);
    assert_eq!(r.unwrap_err(), DbError::Store);
    assert_eq!(db.get_messages_for_poll(id).unwrap().len(), 1);
}

#[test]
fn duplicate_originating_surface_leaves_no_partial_poll() {
    let mut db = Database::new();
    db.add_poll_and_link_message(
        "alice".to_string(),
        "First".to_string(),
        "c1".to_string(),
        "m1".to_string(),
    )
    .unwrap();
    let r = db.add_poll_and_link_message(
        "bob".to_string(),
        "Second".to_string(),
        "c1".to_string(),
        "m1".to_string(),
    );
    assert_eq!(r.unwrap_err(), DbError::Store);
    // the second poll was not created: bob owns no open poll
    assert_eq!(db.find_active_polls("bob".to_string()).unwrap().len(), 0);
}

#[test]
fn linking_to_unknown_poll_is_not_found() {
    let mut db = Database::new();
    let r = db.link_message_to_poll("c1".to_string(), "m1".to_string(), 7);
    assert_eq!(r.unwrap_err(), DbError::NotFound);
    let r = db.link_inline_message_to_poll("m2".to_string(), 7);
    assert_eq!(r.unwrap_err(), DbError::NotFound);
}

#[test]
fn resolution_miss_is_not_found() {
    let mut db = Database::new();
    assert_eq!(
        db.get_poll_id("m1".to_string(), Some("c1".to_string())).unwrap_err(),
        DbError::NotFound
    );
    assert_eq!(db.get_poll_id("m1".to_string(), None).unwrap_err(), DbError::NotFound);
    assert_eq!(
        db.get_votes_for_poll("m1".to_string(), None).unwrap_err(),
        DbError::NotFound
    );
    assert_eq!(
        db.add_vote_for_poll_message("bob".to_string(), "m1".to_string(), None).unwrap_err(),
        DbError::NotFound
    );
    assert_eq!(db.change_poll_is_active(3).unwrap_err(), DbError::NotFound);
}

#[test]
fn toggle_keeps_at_most_one_vote_row() {
    let mut db = Database::new();
    db.add_poll_and_link_message(
        "alice".to_string(),
        "Game night".to_string(),
        "c1".to_string(),
        "m1".to_string(),
    )
    .unwrap();
    for round in 0..6 {
        db.add_vote_for_poll_message("bob".to_string(), "m1".to_string(), Some("c1".to_string()))
            .unwrap();
        let votes = db
            .get_votes_for_poll("m1".to_string(), Some("c1".to_string()))
            .unwrap();
        if round % 2 == 0 {
            assert_eq!(votes.len(), 1);
            assert_eq!(votes[0].username, "bob");
        } else {
            assert_eq!(votes.len(), 0);
        }
    }
}

#[test]
fn votes_are_scoped_per_poll() {
    let mut db = Database::new();
    let a = db
        .add_poll_and_link_message(
            "alice".to_string(),
            "First".to_string(),
            "c1".to_string(),
            "m1".to_string(),
        )
        .unwrap();
    let b = db
        .add_poll_and_link_message(
            "alice".to_string(),
            "Second".to_string(),
            "c1".to_string(),
            "m2".to_string(),
        )
        .unwrap();
    assert_ne!(a, b);
    db.add_vote_for_poll_message("bob".to_string(), "m1".to_string(), Some("c1".to_string()))
        .unwrap();
    let votes_a = db.get_votes_for_poll("m1".to_string(), Some("c1".to_string())).unwrap();
    let votes_b = db.get_votes_for_poll("m2".to_string(), Some("c1".to_string())).unwrap();
    assert_eq!(votes_a.len(), 1);
    assert_eq!(votes_b.len(), 0);
}

#[test]
fn flip_returns_the_new_state() {
    let mut db = Database::new();
    let id = db
        .add_poll_and_link_message(
            "alice".to_string(),
            "Game night".to_string(),
            "c1".to_string(),
            "m1".to_string(),
        )
        .unwrap();
    assert_eq!(db.change_poll_is_active(id).unwrap(), 0);
    assert_eq!(db.change_poll_is_active(id).unwrap(), 1);
}

#[test]
fn open_polls_list_only_active_ones_of_the_creator() {
    let mut db = Database::new();
    let a = db
        .add_poll_and_link_message(
            "alice".to_string(),
            "First".to_string(),
            "c1".to_string(),
            "m1".to_string(),
        )
        .unwrap();
    db.add_poll_and_link_message(
        "alice".to_string(),
        "Second".to_string(),
        "c1".to_string(),
        "m2".to_string(),
    )
    .unwrap();
    db.add_poll_and_link_message(
        "bob".to_string(),
        "Third".to_string(),
        "c1".to_string(),
        "m3".to_string(),
    )
    .unwrap();
    db.change_poll_is_active(a).unwrap();
    let open = db.find_active_polls("alice".to_string()).unwrap();
    assert_eq!(open.len(), 1);
    assert_eq!(open[0].description, "Second");
    assert_eq!(open[0].is_active, 1);
}

#[test]
fn inline_resolution_finds_the_first_matching_surface() {
    let mut db = Database::new();
    let id = db
        .add_poll_and_link_message(
            "alice".to_string(),
            "Game night".to_string(),
            "c1".to_string(),
            "m1".to_string(),
        )
        .unwrap();
    db.link_inline_message_to_poll("m9".to_string(), id).unwrap();
    let poll = db.get_poll_id("m9".to_string(), None).unwrap();
    assert_eq!(poll.id, id);
    let poll = db.get_poll_id("m1".to_string(), None).unwrap();
    assert_eq!(poll.id, id);
}
