use jw_internals::index::{index_entry, parse_index, post_contents};
use jw_internals::path::{file_name, join, render_post_path, suffixed_path};
use jw_internals::slug::slugify;
use jw_internals::time::Timestamp;

fn at(year: i32, month: u32, day: u32) -> Timestamp {
    Timestamp { day, month, year, timestamp: String::from("2022-05-01T10:00:00+00:00") }
}

#[test]
fn slug_joins_words() {
    assert_eq!(slugify("Hello, world!"), "Hello-world");
    assert_eq!(slugify("a   b"), "a-b");
}

#[test]
fn slug_drops_leading_and_trailing_separators() {
    assert_eq!(slugify("!!hi there??"), "hi-there");
    assert_eq!(slugify("...!"), "");
    assert_eq!(slugify(""), "");
}

#[test]
fn slug_uses_first_twenty_one_characters() {
    assert_eq!(slugify("abcdefghijklmnopqrstuvwxyz"), "abcdefghijklmnopqrstu");
    assert_eq!(slugify("abcdefghijklmnopqrst!x"), "abcdefghijklmnopqrst");
    assert_eq!(slugify("abcdefghijklmnopqrs!xy"), "abcdefghijklmnopqrs-x");
    for text in ["a-b-c-d-e-f-g-h-i-j-k-l-m", "--x--y--z--", "   #tag, and more text here"] {
        let s = slugify(text);
        assert!(s.chars().count() <= 21);
        assert!(!s.starts_with('-') && !s.ends_with('-'));
    }
}

#[test]
fn slug_keeps_unicode_letters() {
    assert_eq!(slugify("héllo wörld"), "héllo-wörld");
    assert_eq!(slugify("日記 today"), "日記-today");
}

#[test]
fn template_substitutes_date_and_slug() {
    assert_eq!(render_post_path("%Y-%m-%d-%s.md", &at(2022, 5, 1), "hello"), "2022-05-01-hello.md");
    assert_eq!(render_post_path("%Y/%m/%d.txt", &at(1999, 12, 31), "x"), "1999/12/31.txt");
}

#[test]
fn template_pads_years() {
    assert_eq!(render_post_path("%Y", &at(33, 1, 1), ""), "0033");
    assert_eq!(render_post_path("%Y", &at(-5, 1, 1), ""), "-005");
    assert_eq!(render_post_path("%Y", &at(12345, 1, 1), ""), "12345");
}

#[test]
fn template_keeps_other_text() {
    assert_eq!(render_post_path("%x%%s%", &at(2022, 5, 1), "ab"), "%x%ab%");
    assert_eq!(render_post_path("%s-%d", &at(2022, 5, 7), "%Y"), "%Y-07");
}

#[test]
fn collision_suffixes() {
    assert_eq!(suffixed_path("2022-05-01-a.md", 0), "2022-05-01-a.md");
    assert_eq!(suffixed_path("2022-05-01-a.md", 1), "2022-05-01-a.md.1");
    assert_eq!(suffixed_path("2022-05-01-a.md", 12), "2022-05-01-a.md.12");
}

#[test]
fn file_names_and_joins() {
    assert_eq!(file_name("/root/nb/2022/a.md"), "a.md");
    assert_eq!(file_name("a.md"), "a.md");
    assert_eq!(file_name("/r/one/"), "one");
    assert_eq!(file_name("/r/one//"), "one");
    assert_eq!(file_name("/"), "");
    assert_eq!(join("/root/nb", "a.md"), "/root/nb/a.md");
    assert_eq!(join("/root/nb/", "a.md"), "/root/nb/a.md");
    assert_eq!(join("/root/nb", "/elsewhere/a.md"), "/elsewhere/a.md");
    assert_eq!(join("", "a.md"), "a.md");
}

#[test]
fn index_lines() {
    assert_eq!(parse_index("a.md\nb.md\n"), vec!["a.md".to_string(), "b.md".to_string()]);
    assert_eq!(parse_index("a.md\r\nb.md"), vec!["a.md".to_string(), "b.md".to_string()]);
    assert_eq!(parse_index(""), Vec::<String>::new());
    assert_eq!(parse_index("\n"), vec![String::new()]);
    assert_eq!(parse_index("a.md\r"), vec!["a.md\r".to_string()]);
}

#[test]
fn index_append_round_trip() {
    let mut index = String::from("a.md\n");
    index.push_str(&index_entry("b.md"));
    assert_eq!(index, "a.md\nb.md\n");
    assert_eq!(parse_index(&index).last().unwrap(), "b.md");
    assert_eq!(parse_index(&index).len(), 2);
}

#[test]
fn post_file_contents() {
    assert_eq!(
        post_contents(true, "2022-05-01T10:00:00+00:00", "hi"),
        "---\ntimestamp: 2022-05-01T10:00:00+00:00\n---\nhi"
    );
    assert_eq!(post_contents(false, "2022-05-01T10:00:00+00:00", "hi"), "hi");
}

#[test]
fn test_timestamp() {
    let now = Timestamp::now();
    println!("{:?}", now);
    assert!((1..=12).contains(&now.month));
    assert!((1..=31).contains(&now.day));
    if (0..=9999).contains(&now.year) {
        let date = format!("{:04}-{:02}-{:02}T", now.year, now.month, now.day);
        assert!(now.timestamp.starts_with(&date));
    }
}
