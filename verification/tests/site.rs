use sitegen::checksum::Checksum;
use sitegen::file_state::EntryStat;
use sitegen::file_state::Observation;
use sitegen::file_state::Timestamp;
use sitegen::html::code_language;
use sitegen::html::rejoin;
use sitegen::html::split_document;
use sitegen::site::holds_name;
use sitegen::site::leftover_files;
use sitegen::site::StaticAction;
use sitegen::state::StateManager;

fn names(list: &[&str]) -> Vec<String> {
    list.iter().map(|s| s.to_string()).collect()
}

fn seen_file(secs: i64, size: u64, content: Option<&str>) -> Observation {
    Observation {
        stat: EntryStat::File { modified: Timestamp { secs, nanos: 0 }, size },
        checksum: content.map(|c| Checksum::from_data(c.as_bytes())),
    }
}

fn seen_dir() -> Observation {
    Observation { stat: EntryStat::Directory, checksum: None }
}

#[test]
fn language_follows_the_first_hyphen() {
    assert_eq!(code_language("language-rust"), Some("rust".to_string()));
    assert_eq!(code_language("language-objective-c"), Some("objective-c".to_string()));
    assert_eq!(code_language("language-"), Some(String::new()));
    assert_eq!(code_language("rust"), None);
    assert_eq!(code_language(""), None);
}

#[test]
fn document_is_parted_around_the_content_of_its_body() {
    let html = "<html><head></head><body class=\"x\">\n  <p>é</p>\n  </body></html>";
    let doc = split_document(html).unwrap();
    assert_eq!(doc.before, "<html><head></head><body class=\"x\">\n  ");
    assert_eq!(doc.body, "<p>é</p>");
    assert_eq!(doc.after, "\n  </body></html>");
    assert_eq!(rejoin(&doc.before, &doc.body, &doc.after), html);
    assert_eq!(
        rejoin(&doc.before, "<p>new</p>", &doc.after),
        "<html><head></head><body class=\"x\">\n  <p>new</p>\n  </body></html>"
    );
}

#[test]
fn document_with_empty_body_has_empty_content() {
    let doc = split_document("<body></body>").unwrap();
    assert_eq!(doc.before, "<body>");
    assert_eq!(doc.body, "");
    assert_eq!(doc.after, "</body>");
    let doc = split_document("a<body>  </body>b").unwrap();
    assert_eq!(doc.before, "a<body>  ");
    assert_eq!(doc.body, "");
    assert_eq!(doc.after, "</body>b");
}

#[test]
fn document_without_body_is_not_parted() {
    assert!(split_document("<p>no body</p>").is_none());
    assert!(split_document("<body><p>not closed</p>").is_none());
    assert!(split_document("</body><body>").is_none());
    assert!(split_document("").is_none());
}

#[test]
fn the_first_closing_tag_ends_the_body() {
    let doc = split_document("<body>a</body>b</body>").unwrap();
    assert_eq!(doc.body, "a");
    assert_eq!(doc.after, "</body>b</body>");
}

#[test]
fn leftover_files_are_neither_the_page_nor_copied() {
    let existing = names(&["index.html", "old.png", "kept.png", "notes.txt"]);
    let copied = names(&["kept.png", "new.png"]);
    assert_eq!(leftover_files(&existing, &copied), names(&["old.png", "notes.txt"]));
    assert_eq!(leftover_files(&existing, &Vec::new()), names(&["old.png", "kept.png", "notes.txt"]));
    assert!(leftover_files(&Vec::new(), &copied).is_empty());
    assert!(leftover_files(&names(&["index.html"]), &Vec::new()).is_empty());
    assert!(holds_name(&copied, "new.png"));
    assert!(!holds_name(&copied, "old.png"));
}

#[test]
fn walk_over_static_entries_says_what_to_do() {
    let mut state = StateManager::new();
    assert_eq!(state.visit_static_entry("img".to_string(), seen_dir()), Ok(StaticAction::CreateDirectory));
    assert_eq!(
        state.visit_static_entry("img/a.png".to_string(), seen_file(1, 3, Some("png"))),
        Ok(StaticAction::CopyFile)
    );
    assert!(state.visit_static_entry("img/b.png".to_string(), seen_file(1, 3, None)).is_err());
    assert_eq!(state.next().statics().len(), 2);
    state.commit_if_changed(true).unwrap();

    assert_eq!(state.visit_static_entry("img".to_string(), seen_dir()), Ok(StaticAction::EnterDirectory));
    assert_eq!(
        state.visit_static_entry("img/a.png".to_string(), seen_file(1, 3, None)),
        Ok(StaticAction::KeepFile)
    );
    assert_eq!(
        state.visit_static_entry("img/a.png".to_string(), seen_file(2, 3, Some("png"))),
        Ok(StaticAction::KeepFile)
    );
    assert_eq!(
        state.visit_static_entry("img/a.png".to_string(), seen_file(2, 3, Some("gif"))),
        Ok(StaticAction::CopyFile)
    );
    // a file where a directory was
    assert_eq!(
        state.visit_static_entry("img".to_string(), seen_file(2, 3, Some("x"))),
        Ok(StaticAction::CopyFile)
    );
    assert_eq!(state.next().statics().len(), 2);
    assert!(state.needs_write());
}
