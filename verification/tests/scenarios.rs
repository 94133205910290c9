use pollsync::database::Database;
use pollsync::render::render_poll;
use pollsync::router::handle_chosen_share;
use pollsync::router::handle_close_tap;
use pollsync::router::handle_vote_tap;

fn seeded() -> (Database, u32) {
    let mut db = Database::new();
    let id = db
        .add_poll_and_link_message(
            "alice".to_string(),
            "Board game night".to_string(),
            "c1".to_string(),
            "m1".to_string(),
        )
        .unwrap();
    (db, id)
}

#[test]
fn create_poll_renders_empty_attendance() {
    let (db, id) = seeded();
    let poll = db.get_poll_id("m1".to_string(), Some("c1".to_string())).unwrap();
    assert_eq!(poll.id, id);
    assert_eq!(poll.is_active, 1);
    assert_eq!(poll.description, "Board game night");
    let surfaces = db.get_messages_for_poll(id).unwrap();
    assert_eq!(surfaces.len(), 1);
    assert_eq!(surfaces[0].chat_id, "c1");
    assert_eq!(surfaces[0].message_id, "m1");
    let votes = db.get_votes_for_poll("m1".to_string(), Some("c1".to_string())).unwrap();
    assert_eq!(votes.len(), 0);
    let text = render_poll(&poll.description, &votes, poll.is_active);
    assert_eq!(text, "Board game night\n\nAttendees: 0\n");
}

#[test]
fn first_vote_shows_the_voter() {
    let (mut db, _id) = seeded();
    let plan = handle_vote_tap(
        &mut db,
        "bob".to_string(),
        "m1".to_string(),
        Some("c1".to_string()),
    )
    .unwrap()
    .unwrap();
    let votes = db.get_votes_for_poll("m1".to_string(), Some("c1".to_string())).unwrap();
    assert_eq!(votes.len(), 1);
    assert_eq!(votes[0].username, "bob");
    assert_eq!(plan.len(), 1);
    assert_eq!(plan[0].text, "Board game night\n\nAttendees: 1\n@bob\n");
    assert!(plan[0].show_vote);
    assert!(plan[0].show_close);
}

#[test]
fn second_vote_retracts() {
    let (mut db, _id) = seeded();
    handle_vote_tap(&mut db, "bob".to_string(), "m1".to_string(), Some("c1".to_string()))
        .unwrap();
    let plan = handle_vote_tap(
        &mut db,
        "bob".to_string(),
        "m1".to_string(),
        Some("c1".to_string()),
    )
    .unwrap()
    .unwrap();
    let votes = db.get_votes_for_poll("m1".to_string(), Some("c1".to_string())).unwrap();
    assert_eq!(votes.len(), 0);
    assert_eq!(plan[0].text, "Board game night\n\nAttendees: 0\n");
}

#[test]
fn inline_share_fans_out_to_both_surfaces() {
    let (mut db, id) = seeded();
    handle_chosen_share(&mut db, "m2".to_string(), id.to_string()).unwrap();
    let plan = handle_vote_tap(&mut db, "carol".to_string(), "m2".to_string(), None)
        .unwrap()
        .unwrap();
    assert_eq!(plan.len(), 2);
    let expected = "Board game night\n\nAttendees: 1\n@carol\n";
    assert_eq!(plan[0].text, expected);
    assert_eq!(plan[1].text, expected);
    assert_eq!(plan[0].chat_id, "c1");
    assert!(plan[0].show_close);
    assert_eq!(plan[1].chat_id, "");
    assert!(!plan[1].show_close, "inline surfaces never show a close action");
}

#[test]
fn closing_appends_suffix_and_ignores_votes() {
    let (mut db, id) = seeded();
    handle_chosen_share(&mut db, "m2".to_string(), id.to_string()).unwrap();
    let plan = handle_close_tap(&mut db, "m1".to_string(), Some("c1".to_string())).unwrap();
    assert_eq!(plan.len(), 2);
    let expected = "Board game night\n\nAttendees: 0\n\nThe poll has been closed!";
    assert_eq!(plan[0].text, expected);
    assert_eq!(plan[1].text, expected);
    assert!(!plan[0].show_vote);
    assert!(!plan[0].show_close);
    let after = handle_vote_tap(
        &mut db,
        "dave".to_string(),
        "m1".to_string(),
        Some("c1".to_string()),
    )
    .unwrap();
    assert!(after.is_none(), "a vote on a closed poll plans no fan-out");
    let votes = db.get_votes_for_poll("m1".to_string(), Some("c1".to_string())).unwrap();
    assert_eq!(votes.len(), 0);
}

#[test]
fn closing_keeps_the_votes_visible() {
    let (mut db, _id) = seeded();
    handle_vote_tap(&mut db, "bob".to_string(), "m1".to_string(), Some("c1".to_string()))
        .unwrap();
    let plan = handle_close_tap(&mut db, "m1".to_string(), Some("c1".to_string())).unwrap();
    assert_eq!(
        plan[0].text,
        "Board game night\n\nAttendees: 1\n@bob\n\nThe poll has been closed!"
    );
    let votes = db.get_votes_for_poll("m1".to_string(), Some("c1".to_string())).unwrap();
    assert_eq!(votes.len(), 1);
}

#[test]
fn closing_twice_reopens() {
    let (mut db, id) = seeded();
    handle_close_tap(&mut db, "m1".to_string(), Some("c1".to_string())).unwrap();
    let poll = db.get_poll_id("m1".to_string(), Some("c1".to_string())).unwrap();
    assert_eq!(poll.is_active, 0);
    handle_close_tap(&mut db, "m1".to_string(), Some("c1".to_string())).unwrap();
    let poll = db.get_poll_id("m1".to_string(), Some("c1".to_string())).unwrap();
    assert_eq!(poll.is_active, 1);
    assert_eq!(poll.id, id);
}
