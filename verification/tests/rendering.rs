use pollsync::database::DBMessage;
use pollsync::database::User;
use pollsync::render::plan_updates;
use pollsync::render::render_poll;
use pollsync::render::usize_to_string;

fn users(names: &[&str]) -> Vec<User> {
    names.iter().map(|n| User { username: n.to_string() }).collect()
}

#[test]
fn numbers_render_in_decimal() {
    assert_eq!(usize_to_string(0), "0");
    assert_eq!(usize_to_string(7), "7");
    assert_eq!(usize_to_string(10), "10");
    assert_eq!(usize_to_string(42), "42");
    assert_eq!(usize_to_string(4294967295), "4294967295");
}

#[test]
fn rendering_lists_each_voter_in_order() {
    let votes = users(&["bob", "carol"]);
    let text = render_poll("Game night", &votes, 1);
    assert_eq!(text, "Game night\n\nAttendees: 2\n@bob\n@carol\n");
}

#[test]
fn rendering_of_a_closed_poll_carries_the_suffix() {
    let votes = users(&["bob"]);
    let text = render_poll("Game night", &votes, 0);
    assert_eq!(
        text,
        "Game night\n\nAttendees: 1\n@bob\n\nThe poll has been closed!"
    );
}

#[test]
fn plan_covers_every_surface_once() {
    let messages = vec![
        DBMessage { chat_id: "c1".to_string(), message_id: "m1".to_string() },
        DBMessage { chat_id: "".to_string(), message_id: "m2".to_string() },
        DBMessage { chat_id: "c2".to_string(), message_id: "m3".to_string() },
    ];
    let votes = users(&["bob"]);
    let plan = plan_updates(&messages, &votes, "Game night", 1);
    assert_eq!(plan.len(), 3);
    for (u, m) in plan.iter().zip(messages.iter()) {
        assert_eq!(u.chat_id, m.chat_id);
        assert_eq!(u.message_id, m.message_id);
        assert_eq!(u.text, "Game night\n\nAttendees: 1\n@bob\n");
        assert!(u.show_vote);
        assert_eq!(u.show_close, !m.chat_id.is_empty());
    }
}

#[test]
fn plan_of_a_closed_poll_offers_no_actions() {
    let messages = vec![
        DBMessage { chat_id: "c1".to_string(), message_id: "m1".to_string() },
        DBMessage { chat_id: "".to_string(), message_id: "m2".to_string() },
    ];
    let votes = users(&[]);
    let plan = plan_updates(&messages, &votes, "Game night", 0);
    assert_eq!(plan.len(), 2);
    for u in plan.iter() {
        assert!(!u.show_vote);
        assert!(!u.show_close);
        assert_eq!(u.text, "Game night\n\nAttendees: 0\n\nThe poll has been closed!");
    }
}

#[test]
fn empty_surface_set_plans_nothing() {
    let messages: Vec<DBMessage> = Vec::new();
    let votes = users(&["bob"]);
    let plan = plan_updates(&messages, &votes, "Game night", 1);
    assert_eq!(plan.len(), 0);
}
