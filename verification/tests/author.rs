use stgit::author::{parse_time, reconstruct_author, stamp, Author, Timestamp};

fn some(text: &str) -> Option<String> {
    Some(text.to_string())
}

fn default_author() -> Author {
    Author {
        name: "Default Name".to_string(),
        email: "default@example.com".to_string(),
        time: Timestamp { seconds: 1000, offset_minutes: 60 },
    }
}

#[test]
fn author_is_filled_up_from_the_default() {
    let time = Timestamp { seconds: 5, offset_minutes: -60 };
    let author = reconstruct_author(some("N"), some("e@x"), Some(time), &default_author());
    assert_eq!(author, Author { name: "N".to_string(), email: "e@x".to_string(), time });
    let author = reconstruct_author(None, None, None, &default_author());
    assert_eq!(author, default_author());
    let author = reconstruct_author(some("N"), None, None, &default_author());
    assert_eq!(author.name, "N");
    assert_eq!(author.email, "default@example.com");
    assert_eq!(author.time, default_author().time);
    let author = reconstruct_author(None, some("e@x"), Some(time), &default_author());
    assert_eq!(author.name, "Default Name");
    assert_eq!(author.email, "e@x");
    assert_eq!(author.time, time);
}

#[test]
fn dates_are_read_in_three_forms() {
    let time = Some(Timestamp { seconds: 1112911993, offset_minutes: -420 });
    assert_eq!(parse_time("Thu, 7 Apr 2005 15:13:13 -0700"), time);
    assert_eq!(parse_time("2005-04-07 15:13:13 -0700"), time);
    assert_eq!(parse_time("Thu Apr 7 15:13:13 2005 -0700"), time);
    assert_eq!(
        parse_time("1970-01-01 05:30:00 +0530"),
        Some(Timestamp { seconds: 0, offset_minutes: 330 })
    );
    assert_eq!(parse_time("whenever"), None);
    assert_eq!(parse_time(""), None);
    assert_eq!(parse_time("2005-04-07"), None);
}

#[test]
fn zone_is_counted_in_whole_minutes() {
    assert_eq!(stamp((7, 0)), Timestamp { seconds: 7, offset_minutes: 0 });
    assert_eq!(stamp((7, 3600)), Timestamp { seconds: 7, offset_minutes: 60 });
    assert_eq!(stamp((7, 3659)), Timestamp { seconds: 7, offset_minutes: 60 });
    assert_eq!(stamp((7, -25200)), Timestamp { seconds: 7, offset_minutes: -420 });
    assert_eq!(stamp((7, -90)), Timestamp { seconds: 7, offset_minutes: -1 });
    assert_eq!(stamp((7, -59)), Timestamp { seconds: 7, offset_minutes: 0 });
    assert_eq!(stamp((-1, i32::MIN)), Timestamp { seconds: -1, offset_minutes: -35791394 });
    assert_eq!(stamp((0, i32::MAX)), Timestamp { seconds: 0, offset_minutes: 35791394 });
}
