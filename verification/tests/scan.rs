use slide_index::html::generate_main_index_file;
use slide_index::metadata::{Field, MetadataError};
use slide_index::record::PresentationInfo;
use slide_index::scan::{find_wanted, is_wanted, Action, Entry, Event, Level, Scanner};

type File = (&'static str, bool, Option<&'static str>);
type Dir = (&'static str, bool, Option<Vec<File>>);

fn entry(name: &str, is_dir: bool) -> Entry {
    Entry { name: name.to_string(), is_dir }
}

fn record(name: &str, path: &str) -> PresentationInfo {
    PresentationInfo::new(name.to_string(), path.to_string())
}

fn answer(slides: &Option<Vec<Dir>>, action: Action) -> Event {
    match action {
        Action::ListSlides => match slides {
            Some(dirs) => Event::Listing(dirs.iter().map(|d| entry(d.0, d.1)).collect()),
            None => Event::Failure,
        },
        Action::ListDirectory { directory } => match &slides.as_ref().unwrap()[directory].2 {
            Some(files) => Event::Listing(files.iter().map(|f| entry(f.0, f.1)).collect()),
            None => Event::Failure,
        },
        Action::ReadFile { directory, file } => {
            match slides.as_ref().unwrap()[directory].2.as_ref().unwrap()[file].2 {
                Some(text) => Event::Content(text.to_string()),
                None => Event::Failure,
            }
        }
        Action::Finish => unreachable!(),
    }
}

fn scan(slides: Option<Vec<Dir>>) -> (Vec<PresentationInfo>, Vec<Action>, Vec<MetadataError>) {
    let mut scanner = Scanner::new();
    let mut actions = Vec::new();
    let mut rejected = Vec::new();
    loop {
        let action = scanner.pending();
        actions.push(action);
        if action == Action::Finish {
            break;
        }
        assert!(actions.len() < 1000);
        scanner = scanner.step(answer(&slides, action));
        if let Some(error) = scanner.rejected() {
            rejected.push(error);
        }
    }
    (scanner.into_records(), actions, rejected)
}

const TALK_A: &str = "{\"name\":\"Talk A\",\"path\":\"a/index.html\"}";
const TALK_B: &str = "{\"name\":\"Talk B\",\"path\":\"b/index.html\"}";
const TALK_C: &str = "{\"name\":\"Talk C\",\"path\":\"c/index.html\"}";

#[test]
fn scan_begins_with_the_listing_of_slides() {
    let scanner = Scanner::new();
    assert_eq!(scanner.pending(), Action::ListSlides);
    assert_eq!(scanner.rejected(), None);
    assert!(scanner.into_records().is_empty());
}

#[test]
fn two_presentations_give_two_links() {
    let (records, actions, rejected) = scan(Some(vec![
        ("a", true, Some(vec![("info.json", false, Some(TALK_A))])),
        ("b", true, Some(vec![("info.json", false, Some(TALK_B))])),
    ]));
    assert_eq!(
        records,
        vec![record("Talk A", "a/index.html"), record("Talk B", "b/index.html")]
    );
    assert_eq!(
        actions,
        vec![
            Action::ListSlides,
            Action::ListDirectory { directory: 0 },
            Action::ReadFile { directory: 0, file: 0 },
            Action::ListDirectory { directory: 1 },
            Action::ReadFile { directory: 1, file: 0 },
            Action::Finish,
        ]
    );
    assert!(rejected.is_empty());
    let page = generate_main_index_file(&records);
    assert!(page.contains("<a href=\"a/index.html\">Talk A</a>"));
    assert!(page.contains("<a href=\"b/index.html\">Talk B</a>"));
    assert_eq!(page.matches("<a href=").count(), 2);
}

#[test]
fn missing_slides_directory_gives_no_records() {
    let (records, actions, rejected) = scan(None);
    assert!(records.is_empty());
    assert_eq!(actions, vec![Action::ListSlides, Action::Finish]);
    assert!(rejected.is_empty());
    let page = generate_main_index_file(&records);
    assert!(!page.contains("<a href="));
    assert!(page.contains("<title>My Presentations</title>"));
    assert!(page.contains("<h1>My Presentations</h1>"));
}

#[test]
fn empty_slides_directory_gives_no_records() {
    let (records, actions, _) = scan(Some(vec![]));
    assert!(records.is_empty());
    assert_eq!(actions, vec![Action::ListSlides, Action::Finish]);
}

#[test]
fn file_without_path_is_left_out_and_the_others_stay() {
    let (records, _, rejected) = scan(Some(vec![
        ("a", true, Some(vec![("info.json", false, Some(TALK_A))])),
        ("bad", true, Some(vec![("info.json", false, Some("{\"name\":\"No Path\"}"))])),
        ("c", true, Some(vec![("info.json", false, Some(TALK_C))])),
    ]));
    assert_eq!(
        records,
        vec![record("Talk A", "a/index.html"), record("Talk C", "c/index.html")]
    );
    assert_eq!(rejected, vec![MetadataError::MissingField(Field::Path)]);
    let page = generate_main_index_file(&records);
    assert!(!page.contains("No Path"));
}

#[test]
fn file_with_invalid_syntax_is_left_out_and_the_others_stay() {
    let (records, actions, rejected) = scan(Some(vec![(
        "a",
        true,
        Some(vec![
            ("broken.json", false, Some("{\"name\": \"Talk")),
            ("info.json", false, Some(TALK_A)),
        ]),
    )]));
    assert_eq!(records, vec![record("Talk A", "a/index.html")]);
    assert_eq!(rejected, vec![MetadataError::Syntax]);
    assert_eq!(
        actions,
        vec![
            Action::ListSlides,
            Action::ListDirectory { directory: 0 },
            Action::ReadFile { directory: 0, file: 0 },
            Action::ReadFile { directory: 0, file: 1 },
            Action::Finish,
        ]
    );
}

#[test]
fn file_that_cannot_be_read_is_left_out() {
    let (records, _, rejected) = scan(Some(vec![(
        "a",
        true,
        Some(vec![("locked.json", false, None), ("info.json", false, Some(TALK_A))]),
    )]));
    assert_eq!(records, vec![record("Talk A", "a/index.html")]);
    assert!(rejected.is_empty());
}

#[test]
fn directory_that_cannot_be_listed_is_left_out() {
    let (records, actions, _) = scan(Some(vec![
        ("locked", true, None),
        ("b", true, Some(vec![("info.json", false, Some(TALK_B))])),
    ]));
    assert_eq!(records, vec![record("Talk B", "b/index.html")]);
    assert_eq!(
        actions,
        vec![
            Action::ListSlides,
            Action::ListDirectory { directory: 0 },
            Action::ListDirectory { directory: 1 },
            Action::ReadFile { directory: 1, file: 0 },
            Action::Finish,
        ]
    );
}

#[test]
fn files_in_slides_itself_are_not_looked_at() {
    let (records, actions, _) = scan(Some(vec![
        ("info.json", false, None),
        ("a", true, Some(vec![("info.json", false, Some(TALK_A))])),
        ("readme.txt", false, None),
    ]));
    assert_eq!(records, vec![record("Talk A", "a/index.html")]);
    assert_eq!(
        actions,
        vec![
            Action::ListSlides,
            Action::ListDirectory { directory: 1 },
            Action::ReadFile { directory: 1, file: 0 },
            Action::Finish,
        ]
    );
}

#[test]
fn only_metadata_files_are_read() {
    let (records, actions, _) = scan(Some(vec![(
        "a",
        true,
        Some(vec![
            ("index.html", false, Some(TALK_B)),
            ("info.JSON", false, Some(TALK_B)),
            (".json", false, Some(TALK_B)),
            ("info.json", false, Some(TALK_A)),
            ("notes.json.bak", false, Some(TALK_B)),
        ]),
    )]));
    assert_eq!(records, vec![record("Talk A", "a/index.html")]);
    assert_eq!(
        actions,
        vec![
            Action::ListSlides,
            Action::ListDirectory { directory: 0 },
            Action::ReadFile { directory: 0, file: 3 },
            Action::Finish,
        ]
    );
}

#[test]
fn directories_inside_a_presentation_are_not_gone_into() {
    let (records, actions, _) = scan(Some(vec![(
        "a",
        true,
        Some(vec![
            ("nested", true, None),
            ("nested.json", true, Some(TALK_B)),
            ("info.json", false, Some(TALK_A)),
        ]),
    )]));
    assert_eq!(records, vec![record("Talk A", "a/index.html")]);
    assert_eq!(
        actions,
        vec![
            Action::ListSlides,
            Action::ListDirectory { directory: 0 },
            Action::ReadFile { directory: 0, file: 2 },
            Action::Finish,
        ]
    );
}

#[test]
fn several_files_of_one_presentation_are_all_taken() {
    let (records, _, _) = scan(Some(vec![(
        "a",
        true,
        Some(vec![
            ("one.json", false, Some(TALK_B)),
            ("two.json", false, Some(TALK_A)),
        ]),
    )]));
    assert_eq!(
        records,
        vec![record("Talk B", "b/index.html"), record("Talk A", "a/index.html")]
    );
}

#[test]
fn records_come_in_the_order_of_the_listings() {
    let (records, _, _) = scan(Some(vec![
        ("z", true, Some(vec![("info.json", false, Some(TALK_C))])),
        ("empty", true, Some(vec![])),
        ("a", true, Some(vec![("info.json", false, Some(TALK_A))])),
        ("m", true, Some(vec![("info.json", false, Some(TALK_B))])),
    ]));
    assert_eq!(
        records,
        vec![
            record("Talk C", "c/index.html"),
            record("Talk A", "a/index.html"),
            record("Talk B", "b/index.html"),
        ]
    );
}

#[test]
fn scan_of_the_same_tree_gives_the_same_page() {
    let tree = || {
        Some(vec![
            ("a", true, Some(vec![("info.json", false, Some(TALK_A))])),
            ("b", true, Some(vec![("info.json", false, Some(TALK_B))])),
        ])
    };
    let first = generate_main_index_file(&scan(tree()).0);
    let second = generate_main_index_file(&scan(tree()).0);
    assert_eq!(first, second);
}

#[test]
fn scan_that_is_over_stays_over() {
    let scanner = Scanner::new().step(Event::Listing(vec![]));
    assert_eq!(scanner.pending(), Action::Finish);
    let scanner = scanner.step(Event::Content(TALK_A.to_string()));
    assert_eq!(scanner.pending(), Action::Finish);
    let scanner = scanner.step(Event::Listing(vec![entry("a", true)]));
    assert_eq!(scanner.pending(), Action::Finish);
    assert!(scanner.into_records().is_empty());
}

#[test]
fn event_of_another_kind_counts_as_a_failure() {
    let scanner = Scanner::new().step(Event::Content(TALK_A.to_string()));
    assert_eq!(scanner.pending(), Action::Finish);

    let scanner = Scanner::new().step(Event::Listing(vec![entry("a", true), entry("b", true)]));
    assert_eq!(scanner.pending(), Action::ListDirectory { directory: 0 });
    let scanner = scanner.step(Event::Content(TALK_A.to_string()));
    assert_eq!(scanner.pending(), Action::ListDirectory { directory: 1 });
    let scanner = scanner.step(Event::Listing(vec![entry("x.json", false), entry("y.json", false)]));
    assert_eq!(scanner.pending(), Action::ReadFile { directory: 1, file: 0 });
    let scanner = scanner.step(Event::Listing(vec![]));
    assert_eq!(scanner.pending(), Action::ReadFile { directory: 1, file: 1 });
    let scanner = scanner.step(Event::Content(TALK_B.to_string()));
    assert_eq!(scanner.pending(), Action::Finish);
    assert_eq!(scanner.into_records(), vec![record("Talk B", "b/index.html")]);
}

#[test]
fn rejection_is_told_for_the_last_step_only() {
    let scanner = Scanner::new()
        .step(Event::Listing(vec![entry("a", true)]))
        .step(Event::Listing(vec![entry("1.json", false), entry("2.json", false)]));
    let scanner = scanner.step(Event::Content("[]".to_string()));
    assert_eq!(scanner.rejected(), Some(MetadataError::MissingField(Field::Name)));
    let scanner = scanner.step(Event::Content(TALK_A.to_string()));
    assert_eq!(scanner.rejected(), None);
    assert_eq!(scanner.pending(), Action::Finish);
}

#[test]
fn wanted_entries_by_level() {
    assert!(is_wanted(Level::Slides, &entry("a", true)));
    assert!(is_wanted(Level::Slides, &entry("a.json", true)));
    assert!(!is_wanted(Level::Slides, &entry("a", false)));
    assert!(is_wanted(Level::Presentation, &entry("a.json", false)));
    assert!(!is_wanted(Level::Presentation, &entry("a.json", true)));
    assert!(!is_wanted(Level::Presentation, &entry("a.txt", false)));
}

#[test]
fn first_wanted_entry_is_found_or_the_end() {
    let entries = vec![entry("x", false), entry("a", true), entry("y", false), entry("b", true)];
    assert_eq!(find_wanted(&entries, 0, Level::Slides), 1);
    assert_eq!(find_wanted(&entries, 1, Level::Slides), 1);
    assert_eq!(find_wanted(&entries, 2, Level::Slides), 3);
    assert_eq!(find_wanted(&entries, 4, Level::Slides), 4);
    assert_eq!(find_wanted(&entries, 9, Level::Slides), 4);
    assert_eq!(find_wanted(&entries, 0, Level::Presentation), 4);
    assert_eq!(find_wanted(&Vec::new(), 0, Level::Slides), 0);
}
