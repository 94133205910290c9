use pollsync::database::Database;
use pollsync::database::DbError;
use pollsync::router::handle_chosen_share;
use pollsync::router::handle_share_query;
use pollsync::router::handle_vote_tap;
use pollsync::router::parse_u32;

#[test]
fn parse_accepts_plain_decimals() {
    assert_eq!(parse_u32("0"), Some(0));
    assert_eq!(parse_u32("42"), Some(42));
    assert_eq!(parse_u32("007"), Some(7));
    assert_eq!(parse_u32("4294967295"), Some(4294967295));
}

#[test]
fn parse_rejects_junk_and_overflow() {
    assert_eq!(parse_u32(""), None);
    assert_eq!(parse_u32("12a"), None);
    assert_eq!(parse_u32("-3"), None);
    assert_eq!(parse_u32("4294967296"), None);
    assert_eq!(parse_u32("99999999999999999999"), None);
}

#[test]
fn poll_ids_round_trip_through_the_picker() {
    for id in [0u32, 1, 9, 10, 1234567, u32::MAX] {
        let text = pollsync::render::usize_to_string(id as usize);
        assert_eq!(parse_u32(&text), Some(id));
    }
}

#[test]
fn share_query_lists_open_polls_with_fresh_renderings() {
    let mut db = Database::new();
    let id = db
        .add_poll_and_link_message(
            "alice".to_string(),
            "Game night".to_string(),
            "c1".to_string(),
            "m1".to_string(),
        )
        .unwrap();
    db.add_vote_for_poll_message("bob".to_string(), "m1".to_string(), Some("c1".to_string()))
        .unwrap();
    let entries = handle_share_query(&db, "alice".to_string());
    assert_eq!(entries.len(), 1);
    assert_eq!(entries[0].result_id, id.to_string());
    assert_eq!(entries[0].title, "Game night");
    // a freshly shared copy always starts from zero attendees
    assert_eq!(entries[0].text, "Game night\n\nAttendees: 0\n");
    assert_eq!(handle_share_query(&db, "carol".to_string()).len(), 0);
}

#[test]
fn chosen_share_rejects_bad_ids() {
    let mut db = Database::new();
    let id = db
        .add_poll_and_link_message(
            "alice".to_string(),
            "Game night".to_string(),
            "c1".to_string(),
            "m1".to_string(),
        )
        .unwrap();
    assert_eq!(
        handle_chosen_share(&mut db, "m2".to_string(), "x1".to_string()).unwrap_err(),
        DbError::Validation
    );
    assert_eq!(
        handle_chosen_share(&mut db, "m2".to_string(), (id + 1).to_string()).unwrap_err(),
        DbError::NotFound
    );
    handle_chosen_share(&mut db, "m2".to_string(), id.to_string()).unwrap();
    assert_eq!(
        handle_chosen_share(&mut db, "m2".to_string(), id.to_string()).unwrap_err(),
        DbError::Store
    );
    assert_eq!(db.get_messages_for_poll(id).unwrap().len(), 2);
}

#[test]
fn vote_tap_on_unknown_surface_is_not_found() {
    let mut db = Database::new();
    let r = handle_vote_tap(&mut db, "bob".to_string(), "m1".to_string(), None);
    assert_eq!(r.unwrap_err(), DbError::NotFound);
}
