use protohackers::chat::{
    after_read, arrival, delivery, departure, read_name, refusal, welcome, ChatStep, JoinError,
    Message, SysMessage, UserList, UserMessage, USER_LIMIT,
};

fn seat(list: &mut UserList, name: &str) -> Result<u8, JoinError> {
    list.try_insert(name.to_string()).expect("the name pattern compiles")
}

#[test]
fn first_user_sees_nobody() {
    let list = UserList::new();
    assert_eq!(list.list_users(0), "* you are the first ghoulie\r\n");
}

#[test]
fn roster_lists_others_in_seat_order() {
    let mut list = UserList::new();
    assert_eq!(seat(&mut list, "alice").unwrap(), 0);
    assert_eq!(list.list_users(0), "* you are the first ghoulie\r\n");
    assert_eq!(seat(&mut list, "bob").unwrap(), 1);
    assert_eq!(list.list_users(1), "* current ghouls: alice\r\n");
    assert_eq!(seat(&mut list, "carol").unwrap(), 2);
    assert_eq!(list.list_users(2), "* current ghouls: alice and bob\r\n");
    assert_eq!(seat(&mut list, "dave").unwrap(), 3);
    assert_eq!(list.list_users(3), "* current ghouls: alice, bob and carol\r\n");
    assert_eq!(list.list_users(0), "* current ghouls: bob, carol and dave\r\n");
    assert_eq!(list.list_users(200), "* current ghouls: alice, bob, carol and dave\r\n");
}

#[test]
fn invalid_names_are_refused() {
    let mut list = UserList::new();
    assert!(matches!(seat(&mut list, ""), Err(JoinError::InvalidName)));
    assert!(matches!(seat(&mut list, "two words"), Err(JoinError::InvalidName)));
    assert!(matches!(seat(&mut list, "dash-name"), Err(JoinError::InvalidName)));
    assert!(matches!(seat(&mut list, &"a".repeat(33)), Err(JoinError::InvalidName)));
    assert_eq!(seat(&mut list, &"a".repeat(32)).unwrap(), 0);
    assert_eq!(seat(&mut list, "Zed9").unwrap(), 1);
}

#[test]
fn insert_checks_the_name_too() {
    let mut list = UserList::new();
    assert!(matches!(list.insert("no way".to_string()), Err(JoinError::InvalidName)));
    assert_eq!(list.insert("yes".to_string()).unwrap(), 0);
}

#[test]
fn room_fills_up() {
    let mut list = UserList::new();
    for i in 0..USER_LIMIT {
        assert_eq!(seat(&mut list, &format!("user{}", i)).unwrap() as usize, i);
    }
    assert!(matches!(seat(&mut list, "late"), Err(JoinError::Full)));
    assert!(matches!(seat(&mut list, "bad name"), Err(JoinError::InvalidName)));
}

#[test]
fn freed_seat_is_reused_first() {
    let mut list = UserList::new();
    for name in ["a", "b", "c", "d"] {
        seat(&mut list, name).unwrap();
    }
    list.remove(1);
    assert_eq!(list.list_users(3), "* current ghouls: a and c\r\n");
    assert_eq!(seat(&mut list, "e").unwrap(), 1);
    assert_eq!(seat(&mut list, "f").unwrap(), 4);
    assert_eq!(list.list_users(9), "* current ghouls: a, e, c, d and f\r\n");
}

#[test]
fn fixed_lines() {
    assert_eq!(welcome(), "* welcome to ghoul chat... who are you ?\r\n");
    assert_eq!(refusal(JoinError::Full), "* ghoul chat is full :(\r\n");
    assert_eq!(
        refusal(JoinError::InvalidName),
        "* invalid name, valid names are 1-32 alphanumeric characters\r\n"
    );
    let m = arrival(3, "bob");
    assert_eq!(m.content, "* bob has arrived !\r\n");
    assert_eq!(m.special, 3);
    assert!(!m.only);
    let m = departure(4, "eve");
    assert_eq!(m.content, "* eve has left the locale\r\n");
    assert_eq!(m.special, 4);
    assert!(!m.only);
}

#[test]
fn names_are_trimmed_and_must_be_utf8() {
    assert_eq!(read_name(b"  alice \r\n".to_vec()).unwrap(), "alice");
    assert_eq!(read_name(b"\n".to_vec()).unwrap(), "");
    assert!(read_name(vec![0xff, 0xfe, b'\n']).is_none());
}

#[test]
fn reads_become_steps() {
    let name = "alice".to_string();
    let mut buf: Vec<u8> = Vec::new();
    assert!(matches!(after_read(2, &name, &mut buf), ChatStep::Leave));

    let mut buf = b"hello all\n".to_vec();
    match after_read(2, &name, &mut buf) {
        ChatStep::Broadcast(Message::User(m)) => {
            assert_eq!(m.from_id, 2);
            assert_eq!(m.from_name, "alice");
            assert_eq!(m.content, "hello all\n");
        }
        _ => panic!("expected a user message"),
    }
    assert!(buf.is_empty());

    let mut buf = vec![b'x'; 1501];
    match after_read(2, &name, &mut buf) {
        ChatStep::Broadcast(Message::Sys(m)) => {
            assert_eq!(m.special, 2);
            assert!(m.only);
            assert_eq!(m.content, "that message has 1501 characters which is more than 1500\r\n");
        }
        _ => panic!("expected a warning"),
    }
    assert_eq!(buf.len(), 1501);

    let mut buf = vec![b'y'; 1500];
    assert!(matches!(after_read(2, &name, &mut buf), ChatStep::Broadcast(Message::User(_))));

    let mut buf = vec![0xc3, 0x28, b'\n'];
    assert!(matches!(after_read(2, &name, &mut buf), ChatStep::Abort));
}

#[test]
fn user_lines_reach_everyone_but_the_sender() {
    let m = Message::User(UserMessage {
        from_id: 1,
        from_name: "bob".to_string(),
        content: "hi\n".to_string(),
    });
    assert_eq!(delivery(0, &m).unwrap(), "[bob] hi\n");
    assert_eq!(delivery(7, &m).unwrap(), "[bob] hi\n");
    assert!(delivery(1, &m).is_none());
}

#[test]
fn notices_reach_the_right_users() {
    let private = Message::Sys(SysMessage { special: 4, content: "just you\r\n".to_string(), only: true });
    assert_eq!(delivery(4, &private).unwrap(), "just you\r\n");
    assert!(delivery(5, &private).is_none());
    let public = Message::Sys(SysMessage { special: 4, content: "about 4\r\n".to_string(), only: false });
    assert!(delivery(4, &public).is_none());
    assert_eq!(delivery(5, &public).unwrap(), "about 4\r\n");
}
