use async_chat::codec::{encode_client, FromClient, FromServer};
use async_chat::connection::{
    handle_event, handle_request, write_failure_ends_session, Event, Status,
};
use async_chat::group::{Delivery, Group};
use async_chat::group_table::GroupTable;

fn join(g: &str) -> FromClient {
    FromClient::Join { group_name: g.to_string() }
}

fn post(g: &str, m: &str) -> FromClient {
    FromClient::Post { group_name: g.to_string(), message: m.to_string() }
}

fn message_to(to: u64, g: &str, m: &str) -> Delivery {
    Delivery {
        to,
        frame: FromServer::Message { group_name: g.to_string(), message: m.to_string() },
    }
}

const A: u64 = 1;
const B: u64 = 2;
const C: u64 = 3;

#[test]
fn get_or_create_returns_one_group_per_name() {
    let mut table = GroupTable::new();
    assert_eq!(table.get("lobby"), None);
    let first = table.get_or_create("lobby");
    let second = table.get_or_create("lobby");
    assert_eq!(first, second);
    assert_eq!(table.len(), 1);
    assert_eq!(table.get("lobby"), Some(first));
    let other = table.get_or_create("dogs");
    assert_ne!(other, first);
    assert_eq!(table.len(), 2);
    assert_eq!(table.group(other).name(), "dogs");
    assert_eq!(table.get("lobby"), Some(first));
}

#[test]
fn group_join_and_post() {
    let mut g = Group::new("cats");
    assert!(g.post("x").is_empty());
    g.join(A);
    g.join(B);
    g.join(A);
    assert_eq!(g.members(), &vec![A, B, A]);
    assert!(g.is_named(&"cats".to_string()));
    assert_eq!(
        g.post("meow"),
        vec![message_to(A, "cats", "meow"), message_to(B, "cats", "meow"), message_to(A, "cats", "meow")]
    );
}

#[test]
fn lobby_scenario() {
    let mut table = GroupTable::new();
    assert!(handle_request(&mut table, A, &join("lobby")).is_empty());
    assert!(handle_request(&mut table, B, &join("lobby")).is_empty());
    let out = handle_request(&mut table, A, &post("lobby", "hi"));
    let to_b: Vec<&Delivery> = out.iter().filter(|d| d.to == B).collect();
    assert_eq!(to_b, vec![&message_to(B, "lobby", "hi")]);
    // The poster is a member too, so its own post comes back to it once, and
    // no error reaches it.
    let to_a: Vec<&Delivery> = out.iter().filter(|d| d.to == A).collect();
    assert_eq!(to_a, vec![&message_to(A, "lobby", "hi")]);
    assert_eq!(out.len(), 2);
}

#[test]
fn post_to_missing_group_answers_only_the_poster() {
    let mut table = GroupTable::new();
    handle_request(&mut table, B, &join("lobby"));
    let out = handle_request(&mut table, A, &post("ghost", "hi"));
    assert_eq!(
        out,
        vec![Delivery {
            to: A,
            frame: FromServer::Error("Group ghost does not exist ".to_string()),
        }]
    );
    assert_eq!(table.get("ghost"), None);
    assert_eq!(table.len(), 1);
}

#[test]
fn hundred_joins_make_one_group() {
    let mut table = GroupTable::new();
    for conn in 0..100u64 {
        assert!(handle_request(&mut table, conn, &join("new")).is_empty());
    }
    assert_eq!(table.len(), 1);
    let id = table.get("new").unwrap();
    let expected: Vec<u64> = (0..100).collect();
    assert_eq!(table.group(id).members(), &expected);
    assert_eq!(handle_request(&mut table, 7, &post("new", "m")).len(), 100);
}

#[test]
fn posts_reach_members_joined_before_them() {
    let mut table = GroupTable::new();
    handle_request(&mut table, A, &join("g"));
    assert_eq!(handle_request(&mut table, C, &post("g", "one")), vec![message_to(A, "g", "one")]);
    handle_request(&mut table, B, &join("g"));
    handle_request(&mut table, C, &join("h"));
    assert_eq!(
        handle_request(&mut table, C, &post("g", "two")),
        vec![message_to(A, "g", "two"), message_to(B, "g", "two")]
    );
    assert_eq!(handle_request(&mut table, A, &post("h", "three")), vec![message_to(C, "h", "three")]);
}

#[test]
fn duplicate_join_doubles_delivery() {
    let mut table = GroupTable::new();
    handle_request(&mut table, A, &join("g"));
    handle_request(&mut table, A, &join("g"));
    assert_eq!(
        handle_request(&mut table, B, &post("g", "x")),
        vec![message_to(A, "g", "x"), message_to(A, "g", "x")]
    );
}

#[test]
fn events_drive_a_session() {
    let mut table = GroupTable::new();
    let step = handle_event(&mut table, A, &Event::Line(encode_client(&join("lobby"))));
    assert_eq!(step.status, Status::Open);
    assert!(step.deliveries.is_empty());
    let step = handle_event(&mut table, B, &Event::Line(encode_client(&post("lobby", "yo"))));
    assert_eq!(step.status, Status::Open);
    assert_eq!(step.deliveries, vec![message_to(A, "lobby", "yo")]);
    let step = handle_event(&mut table, B, &Event::Ended);
    assert_eq!(step.status, Status::Closed);
    assert!(step.deliveries.is_empty());
}

#[test]
fn a_failed_session_leaves_others_untouched() {
    let mut table = GroupTable::new();
    handle_event(&mut table, A, &Event::Line(encode_client(&join("lobby"))));
    handle_event(&mut table, B, &Event::Line(encode_client(&join("lobby"))));
    let step = handle_event(&mut table, B, &Event::Line("not json".to_string()));
    assert_eq!(step.status, Status::Failed);
    assert!(step.deliveries.is_empty());
    let step = handle_event(&mut table, C, &Event::ReadFailed);
    assert_eq!(step.status, Status::Failed);
    assert!(step.deliveries.is_empty());
    let id = table.get("lobby").unwrap();
    assert_eq!(table.group(id).members(), &vec![A, B]);
    let step = handle_event(&mut table, A, &Event::Line(encode_client(&post("lobby", "still here"))));
    assert_eq!(step.status, Status::Open);
    assert_eq!(
        step.deliveries,
        vec![message_to(A, "lobby", "still here"), message_to(B, "lobby", "still here")]
    );
}

#[test]
fn only_a_direct_reply_ends_the_session_on_write_failure() {
    let reply = Delivery { to: A, frame: FromServer::Error("e".to_string()) };
    assert!(write_failure_ends_session(A, &reply));
    assert!(!write_failure_ends_session(B, &reply));
    assert!(!write_failure_ends_session(A, &message_to(A, "g", "m")));
}
