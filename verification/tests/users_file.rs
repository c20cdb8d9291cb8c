use std::io::BufRead;
use stickercord::database::Database;
use stickercord::user::{Sticker, User};
use stickercord::users_file::{read_users, write_users};

fn users(list: &[User]) -> Vec<(i64, u64)> {
    pairs(list)
}

fn pairs(users: &[User]) -> Vec<(i64, u64)> {
    users.iter().map(|u| (u.tele_id, u.discord_id)).collect()
}

/// What the text stands for when it is read line by line with the standard
/// library: each line split at its colons, the first two pieces parsed.
fn by_the_standard_library(text: &str) -> Option<Vec<(i64, u64)>> {
    let mut users = Vec::new();
    for line in std::io::Cursor::new(text.as_bytes()).lines() {
        let line = line.ok()?;
        let mut split = line.split(":");
        let tele_id = split.next()?.parse::<i64>().ok()?;
        let discord_id = split.next()?.parse::<u64>().ok()?;
        users.push((tele_id, discord_id));
    }
    Some(users)
}

#[test]
fn users_are_read_line_by_line() {
    let users = read_users("1:10\n-2:20\n3:30\n").unwrap();
    assert_eq!(pairs(&users), vec![(1, 10), (-2, 20), (3, 30)]);
    assert!(users.iter().all(|u| u.cur_sticker.is_none()));
}

#[test]
fn empty_file_has_no_users() {
    assert_eq!(pairs(&read_users("").unwrap()), vec![]);
}

#[test]
fn last_line_needs_no_line_feed() {
    assert_eq!(pairs(&read_users("1:10\n2:20").unwrap()), vec![(1, 10), (2, 20)]);
    assert_eq!(pairs(&read_users("5:6").unwrap()), vec![(5, 6)]);
}

#[test]
fn carriage_return_before_the_line_feed_is_dropped() {
    assert_eq!(pairs(&read_users("1:10\r\n2:20\r\n").unwrap()), vec![(1, 10), (2, 20)]);
    assert!(read_users("1:10\r").is_none());
    assert!(read_users("1:10\r\r\n").is_none());
}

#[test]
fn what_follows_the_second_colon_is_ignored() {
    assert_eq!(pairs(&read_users("1:10:whatever\n2:20:\n").unwrap()), vec![(1, 10), (2, 20)]);
}

#[test]
fn broken_lines_are_refused() {
    for text in ["\n", "1:10\n\n", "1\n", "1:\n", ":10\n", "a:10\n", "1:b\n", "1:-10\n", "1 :10\n",
        "1:10 \n", "1:10\n2\n", "9223372036854775808:1\n", "1:18446744073709551616\n"]
    {
        assert!(read_users(text).is_none(), "{:?}", text);
    }
}

#[test]
fn reading_agrees_with_the_standard_library() {
    for text in ["", "1:2", "1:2\n", "1:2\r\n", "1:2\r", "\n", "\r\n", "1:2\n\n", "+1:+2\n-3:4",
        "1:2:3:4\n", "1::2\n", "::\n", "-0:0\n", "01:002\n", "1:2\n3", "1:2\n3:", "a\nb\n",
        "-9223372036854775808:18446744073709551615\n", "1:2\n\r\n", "1:2\u{85}3:4", "١:٢\n"]
    {
        let read = read_users(text).map(|users| pairs(&users));
        assert_eq!(read, by_the_standard_library(text), "{:?}", text);
    }
}

#[test]
fn users_are_written_one_a_line() {
    let users = vec![User::new(&1, &10), User::new(&-2, &20)];
    assert_eq!(write_users(&users), "1:10\n-2:20\n");
    assert_eq!(write_users(&Vec::new()), "");
    let extremes = vec![User::new(&i64::MIN, &u64::MAX), User::new(&i64::MAX, &0)];
    assert_eq!(
        write_users(&extremes),
        "-9223372036854775808:18446744073709551615\n9223372036854775807:0\n"
    );
}

#[test]
fn what_is_written_is_read_back() {
    let users = vec![
        User::new(&0, &0),
        User::new(&-17, &99),
        User::new(&i64::MIN, &u64::MAX),
        User::new(&i64::MAX, &1),
        User::new(&-17, &99),
    ];
    let read = read_users(&write_users(&users)).unwrap();
    assert_eq!(pairs(&read), pairs(&users));
}

#[test]
fn database_is_saved_without_stickers_and_pairings() {
    let mut db = Database::from_file("1:10\n2:20\n");
    assert_eq!(db.tele_id(&2).unwrap().discord_id, 20);
    let held = Sticker { file_id: String::from("abc"), emoji: None, set_name: None };
    assert!(db.set_sticker(&1, held));
    assert!(db.remove_user(&2));
    assert_eq!(db.save(), "1:10\n");
    let again = Database::from_file(&db.save());
    assert!(again.tele_id(&1).unwrap().cur_sticker.is_none());
    assert_eq!(Database::new().save(), "");
}

#[test]
fn database_of_a_valid_text_is_the_same_either_way() {
    for text in ["", "1:10\n", "1:10\r\n-2:20", "+3:+30:more\n"] {
        let tried = Database::try_from_file(text).unwrap();
        assert_eq!(Database::from_file(text).save(), tried.save());
        assert_eq!(
            users(&stickercord::users_file::read_users(text).unwrap()),
            users(&stickercord::users_file::read_users(&tried.save()).unwrap())
        );
    }
    assert_eq!(Database::from_file("-2:20\n7:8").save(), "-2:20\n7:8\n");
}

#[test]
fn database_of_a_broken_text_is_refused() {
    for text in ["\n", "1:10\nnonsense\n", "1\n", "1:\n", ":1\n", "1:10\n\n", "a:b"] {
        assert!(Database::try_from_file(text).is_none(), "{:?}", text);
    }
}
