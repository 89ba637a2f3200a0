use slide_index::html::{generate_main_index_file, render_link, CSS_FILE};
use slide_index::record::PresentationInfo;

fn record(name: &str, path: &str) -> PresentationInfo {
    PresentationInfo::new(name.to_string(), path.to_string())
}

const HEAD: &str = "\n        <!DOCTYPE html>\n        <html>\n            <head>\n                <link rel=\"stylesheet\" href=\"style.css\">\n                <title>My Presentations</title>\n            </head>\n            <body>\n                <h1>My Presentations</h1>\n                <div class=\"slide_container\">\n                    ";
const TAIL: &str = "\n                </div>\n            </body>\n        </html>\n        ";

#[test]
fn page_without_records_is_the_bare_frame() {
    let page = generate_main_index_file(&Vec::new());
    assert_eq!(page, format!("{}{}", HEAD, TAIL));
    assert!(!page.contains("<a href="));
    assert!(page.contains("<title>My Presentations</title>"));
    assert!(page.contains("<h1>My Presentations</h1>"));
}

#[test]
fn page_with_one_record_is_exact() {
    let page = generate_main_index_file(&vec![record("Talk A", "a/index.html")]);
    assert_eq!(
        page,
        format!("{}<a href=\"a/index.html\">Talk A</a> <br/>{}", HEAD, TAIL)
    );
}

#[test]
fn page_lists_two_talks_in_order() {
    let records = vec![
        record("Talk A", "a/index.html"),
        record("Talk B", "b/index.html"),
    ];
    let page = generate_main_index_file(&records);
    assert!(page.contains("<a href=\"a/index.html\">Talk A</a>"));
    assert!(page.contains("<a href=\"b/index.html\">Talk B</a>"));
    assert_eq!(
        page,
        format!(
            "{}<a href=\"a/index.html\">Talk A</a> <br/>\n<a href=\"b/index.html\">Talk B</a> <br/>{}",
            HEAD, TAIL
        )
    );
}

#[test]
fn page_keeps_the_order_of_the_records() {
    let records = vec![record("Z", "z"), record("A", "a"), record("M", "m")];
    let page = generate_main_index_file(&records);
    let z = page.find("<a href=\"z\">Z</a>").unwrap();
    let a = page.find("<a href=\"a\">A</a>").unwrap();
    let m = page.find("<a href=\"m\">M</a>").unwrap();
    assert!(z < a && a < m);
}

#[test]
fn page_has_one_link_for_each_record() {
    let mut records = Vec::new();
    for i in 0..7 {
        records.push(record(&format!("Talk {}", i), &format!("t{}/index.html", i)));
    }
    let page = generate_main_index_file(&records);
    assert_eq!(page.matches("<a href=\"").count(), 7);
    assert_eq!(page.matches("</a> <br/>").count(), 7);
    for i in 0..7 {
        assert!(page.contains(&format!("<a href=\"t{}/index.html\">Talk {}</a> <br/>", i, i)));
    }
}

#[test]
fn page_puts_the_fields_in_unescaped() {
    let page = generate_main_index_file(&vec![record("<b>R&D</b>", "a b/\"x\".html")]);
    assert!(page.contains("<a href=\"a b/\"x\".html\"><b>R&D</b></a> <br/>"));
}

#[test]
fn page_is_the_same_for_the_same_records() {
    let records = vec![record("Talk A", "a/index.html"), record("Talk B", "b/index.html")];
    let first = generate_main_index_file(&records);
    let second = generate_main_index_file(&records.clone());
    assert_eq!(first, second);
}

#[test]
fn page_names_the_stylesheet() {
    assert_eq!(CSS_FILE, "style.css");
    let page = generate_main_index_file(&Vec::new());
    assert!(page.contains("<link rel=\"stylesheet\" href=\"style.css\">"));
}

#[test]
fn link_of_a_record_is_exact() {
    assert_eq!(
        render_link(&record("Talk A", "a/index.html")),
        "<a href=\"a/index.html\">Talk A</a> <br/>"
    );
    assert_eq!(render_link(&record("", "")), "<a href=\"\"></a> <br/>");
}

#[test]
fn record_holds_what_it_was_made_of() {
    let r = record("Talk A", "a/index.html");
    assert_eq!(r.name, "Talk A");
    assert_eq!(r.path, "a/index.html");
}
