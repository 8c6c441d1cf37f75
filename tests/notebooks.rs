use jw_internals::notebooks::{list_notebooks, Child, NotebookConfig, Step, Target};
use jw_internals::search::{search_files, tags, Tag};
use jw_internals::time::Timestamp;
use jw_internals::utils::{file_manager, Platform};
use jw_internals::{Config, Error, Notebook};

fn notebook() -> Notebook {
    Notebook { id: String::from("diary"), path: String::from("/home/me/jw/diary") }
}

fn count_of(t: &[Tag], name: &str) -> Option<usize> {
    t.iter().find(|x| x.name == name).map(|x| x.occurances)
}

#[test]
fn load_from_str() {
    let config = Config::from_root("~/our/nice/directory", Some(String::from("/home/me")));
    assert_eq!(config.root, "/home/me/our/nice/directory");
}

#[test]
fn tilde_only_at_start() {
    assert_eq!(Config::from_root("~", Some(String::from("/h"))).root, "/h");
    assert_eq!(Config::from_root("~other/x", Some(String::from("/h"))).root, "~other/x");
    assert_eq!(Config::from_root("/a/~/b", Some(String::from("/h"))).root, "/a/~/b");
    assert_eq!(Config::from_root("~/x", None).root, "~/x");
}

#[test]
fn search_finds_exact_substring() {
    let nb = notebook();
    let names = vec![String::from("p.md")];
    let texts = vec![Some(String::from("needle in haystack"))];
    assert_eq!(nb.search(&names, &texts, "needle"), vec![String::from("/home/me/jw/diary/p.md")]);
    assert_eq!(nb.search(&names, &texts, "NEEDLE"), Vec::<String>::new());
}

#[test]
fn search_skips_unreadable_and_keeps_order() {
    let paths = vec![String::from("a"), String::from("b"), String::from("c")];
    let texts = vec![Some(String::from("x y")), None, Some(String::from("yy"))];
    let first = search_files(&paths, &texts, "y");
    assert_eq!(first, vec![String::from("a"), String::from("c")]);
    assert_eq!(search_files(&paths, &texts, "y"), first);
    assert_eq!(search_files(&paths, &texts, ""), vec![String::from("a"), String::from("c")]);
}

#[test]
fn tags_split_at_punctuation() {
    let t = tags(&vec![Some(String::from("hello #world, #foo-bar and #baz\n"))]);
    assert_eq!(t.len(), 3);
    assert_eq!(count_of(&t, "world"), Some(1));
    assert_eq!(count_of(&t, "foo"), Some(1));
    assert_eq!(count_of(&t, "baz"), Some(1));
    assert_eq!(count_of(&t, "bar"), None);
}

#[test]
fn tags_counted_over_posts() {
    let nb = notebook();
    let texts = vec![
        Some(String::from("#a #b\n#a")),
        None,
        Some(String::from("x#a\t#c#d # #")),
    ];
    let t = nb.tags(&texts);
    assert_eq!(t.len(), 4);
    assert_eq!(count_of(&t, "a"), Some(3));
    assert_eq!(count_of(&t, "b"), Some(1));
    assert_eq!(count_of(&t, "c"), Some(1));
    assert_eq!(count_of(&t, "d"), Some(1));
    assert_eq!(count_of(&t, ""), None);
}

#[test]
fn generate_refuses_existing() {
    let config = Config { root: String::from("/home/me/jw") };
    assert_eq!(Notebook::generate(&config, "diary", true).err(), Some(Error::Exists));
}

#[test]
fn generate_new_notebook() {
    let config = Config { root: String::from("/home/me/jw") };
    let (nb, conf) = Notebook::generate(&config, "diary", false).ok().unwrap();
    assert_eq!(nb.id, "diary");
    assert_eq!(nb.path, "/home/me/jw/diary");
    assert_eq!(conf.name, "diary");
    assert_eq!(conf.description, "");
    assert_eq!(conf.post_path, "%Y-%m-%d-%s.md");
    assert!(conf.metadata);
}

#[test]
fn load_needs_directory_and_config() {
    let config = Config { root: String::from("/home/me/jw/") };
    let nb = Notebook::load(&config, "diary", true, true).unwrap();
    assert_eq!(nb.id, "diary");
    assert_eq!(nb.path, "/home/me/jw/diary");
    assert!(Notebook::load(&config, "diary", true, false).is_none());
    assert!(Notebook::load(&config, "diary", false, false).is_none());
}

#[test]
fn list_keeps_only_notebooks() {
    let children = vec![
        Child { path: String::from("/r/one"), exists: true, has_config: true },
        Child { path: String::from("/r/stray.txt"), exists: true, has_config: false },
        Child { path: String::from("/r/two"), exists: true, has_config: true },
    ];
    let ids: Vec<String> = list_notebooks(&children).into_iter().map(|n| n.id).collect();
    assert_eq!(ids, vec![String::from("one"), String::from("two")]);
}

#[test]
fn draft_and_targets() {
    let nb = notebook();
    let conf = NotebookConfig::default_for("diary");
    let now = Timestamp { day: 1, month: 5, year: 2022, timestamp: String::from("T") };
    let draft = nb.draft_post(&conf, "Hello, world!", &now);
    assert_eq!(draft.relative, "2022-05-01-Hello-world.md");
    assert_eq!(draft.contents, "---\ntimestamp: T\n---\nHello, world!");
    let first = nb.post_target(&draft.relative, 0);
    let second = nb.post_target(&draft.relative, 1);
    let third = nb.post_target(&draft.relative, 2);
    assert_eq!(first.path, "/home/me/jw/diary/2022-05-01-Hello-world.md");
    assert_eq!(first.index_line, "2022-05-01-Hello-world.md\n");
    assert_eq!(second.path, "/home/me/jw/diary/2022-05-01-Hello-world.md.1");
    assert_eq!(second.index_line, "2022-05-01-Hello-world.md.1\n");
    assert_ne!(second.path, third.path);
}

#[test]
fn absolute_paths_join_names() {
    let nb = notebook();
    let names = vec![String::from("a.md"), String::from("b.md")];
    assert_eq!(
        nb.absolute_paths(&names),
        vec![String::from("/home/me/jw/diary/a.md"), String::from("/home/me/jw/diary/b.md")]
    );
}

#[test]
fn file_managers() {
    assert_eq!(file_manager(Platform::MacOs), "open");
    assert_eq!(file_manager(Platform::Windows), "explorer");
    assert_eq!(file_manager(Platform::Unix), "xdg-open");
}

#[test]
fn trailing_separator_keeps_directory_name() {
    let nb = Notebook::load_from_path("/r/one/", true, true).unwrap();
    assert_eq!(nb.id, "one");
    assert_eq!(nb.path, "/r/one/");
    let config = Config { root: String::from("/home/me/jw") };
    let (nb, conf) = Notebook::generate(&config, "diary/", false).ok().unwrap();
    assert_eq!(nb.id, "diary");
    assert_eq!(conf.name, "diary/");
}

/// Places a post at the first attempt whose path is not among `existing`.
fn place(nb: &Notebook, relative: &str, existing: &[String]) -> Target {
    let mut attempt: u64 = 0;
    loop {
        let occupied = existing.contains(&nb.post_target(relative, attempt).path);
        match nb.next_step(relative, attempt, occupied) {
            Step::Write(t) => return t,
            Step::Retry(n) => attempt = n,
            Step::GiveUp => panic!("no free place"),
        }
    }
}

#[test]
fn repeated_same_day_posts_get_distinct_files() {
    let nb = notebook();
    let conf = NotebookConfig::default_for("diary");
    let now = Timestamp { day: 9, month: 3, year: 2024, timestamp: String::from("T") };
    let mut existing: Vec<String> = Vec::new();
    let mut index = String::new();
    for _ in 0..4 {
        let draft = nb.draft_post(&conf, "Same words", &now);
        let t = place(&nb, &draft.relative, &existing);
        assert!(!existing.contains(&t.path));
        existing.push(t.path.clone());
        index.push_str(&t.index_line);
    }
    assert_eq!(
        existing,
        vec![
            String::from("/home/me/jw/diary/2024-03-09-Same-words.md"),
            String::from("/home/me/jw/diary/2024-03-09-Same-words.md.1"),
            String::from("/home/me/jw/diary/2024-03-09-Same-words.md.2"),
            String::from("/home/me/jw/diary/2024-03-09-Same-words.md.3"),
        ]
    );
    assert_eq!(
        jw_internals::index::parse_index(&index).last().unwrap(),
        "2024-03-09-Same-words.md.3"
    );
}

#[test]
fn step_when_all_attempts_taken() {
    let nb = notebook();
    assert!(matches!(nb.next_step("a.md", u64::MAX, true), Step::GiveUp));
    assert!(matches!(nb.next_step("a.md", 7, true), Step::Retry(8)));
}
