//! The index page: its text as a function of the list of records.

use crate::record::{records_view, PresentationInfo, PresentationView};
use vstd::prelude::*;
use vstd::string::StringExecFns;

verus! {

/// The stylesheet that every index page refers to. Nothing checks that it exists.
pub const CSS_FILE: &'static str = "style.css";

/// The link of one record: `<a href="PATH">NAME</a> <br/>`.
///
/// Both fields go in as they are; nothing is escaped.
pub open spec fn link_element(record: PresentationView) -> Seq<char> {
    "<a href=\""@ + record.path + "\">"@ + record.name + "</a> <br/>"@
}

/// The links of a list of records, one per record and in the same order.
pub open spec fn link_elements(records: Seq<PresentationView>) -> Seq<Seq<char>> {
    records.map_values(|r: PresentationView| link_element(r))
}

/// The lines, with one line feed between each two neighbours and none at either end.
pub open spec fn join_lines(lines: Seq<Seq<char>>) -> Seq<char>
    decreases lines.len(),
{
    if lines.len() == 0 {
        Seq::empty()
    } else if lines.len() == 1 {
        lines[0]
    } else {
        join_lines(lines.drop_last()) + "\n"@ + lines.last()
    }
}

/// The element that links the page to its stylesheet.
pub open spec fn stylesheet_element() -> Seq<char> {
    "<link rel=\"stylesheet\" href=\""@ + CSS_FILE@ + "\">"@
}

/// The title element of every index page.
pub open spec fn title_element() -> Seq<char> {
    "<title>My Presentations</title>"@
}

/// The heading element of every index page.
pub open spec fn heading_element() -> Seq<char> {
    "<h1>My Presentations</h1>"@
}

/// Everything on the page that comes before the first link.
pub open spec fn page_head() -> Seq<char> {
    "\n        <!DOCTYPE html>\n        <html>\n            <head>\n                "@
        + stylesheet_element() + "\n                "@ + title_element()
        + "\n            </head>\n            <body>\n                "@ + heading_element()
        + "\n                <div class=\"slide_container\">\n                    "@
}

/// Everything on the page that comes after the last link.
pub open spec fn page_tail() -> Seq<char> {
    "\n                </div>\n            </body>\n        </html>\n        "@
}

/// The whole index page for a list of records.
pub open spec fn document(records: Seq<PresentationView>) -> Seq<char> {
    page_head() + join_lines(link_elements(records)) + page_tail()
}

/// Joining one more line: the step that the page builder takes for each record.
pub proof fn lemma_join_lines_step(lines: Seq<Seq<char>>, n: int)
    requires
        0 <= n < lines.len(),
    ensures
        join_lines(lines.take(n + 1)) == if n == 0 {
            lines[0]
        } else {
            join_lines(lines.take(n)) + "\n"@ + lines[n]
        },
{
    let next = lines.take(n + 1);
    assert(next.last() == lines[n]);
    assert(next.drop_last() =~= lines.take(n));
    if n == 0 {
        assert(next[0] == lines[0]);
    }
}

/// `part` stands in `text` at offset `at`.
pub open spec fn occurs_at(text: Seq<char>, part: Seq<char>, at: int) -> bool {
    &&& 0 <= at
    &&& at + part.len() <= text.len()
    &&& text.subrange(at, at + part.len()) == part
}

/// `part` stands somewhere in `text`.
pub open spec fn occurs_in(text: Seq<char>, part: Seq<char>) -> bool {
    exists|at: int| occurs_at(text, part, at)
}

/// Where line `i` of `lines` begins in `join_lines(lines)`: behind the lines
/// before it and one line feed for each of them.
pub open spec fn line_offset(lines: Seq<Seq<char>>, i: int) -> int
    decreases i,
{
    if i <= 0 {
        0
    } else {
        line_offset(lines, i - 1) + lines[i - 1].len() + 1
    }
}

/// Where the link of record `i` begins on the page.
pub open spec fn link_offset(records: Seq<PresentationView>, i: int) -> int {
    page_head().len() + line_offset(link_elements(records), i)
}

/// A text that is put together from three parts holds the middle one, right
/// behind the first.
pub proof fn lemma_occurs_in_middle(before: Seq<char>, part: Seq<char>, after: Seq<char>)
    ensures
        occurs_at(before + part + after, part, before.len() as int),
        occurs_in(before + part + after, part),
{
    let text = before + part + after;
    assert(text.subrange(before.len() as int, (before.len() + part.len()) as int) =~= part);
    assert(occurs_at(text, part, before.len() as int));
}

/// The offset of a line depends on the lines before it only.
pub proof fn lemma_line_offset_prefix(lines: Seq<Seq<char>>, n: int, i: int)
    requires
        0 <= i <= n <= lines.len(),
    ensures
        line_offset(lines.take(n), i) == line_offset(lines, i),
    decreases i,
{
    if i > 0 {
        lemma_line_offset_prefix(lines, n, i - 1);
    }
}

/// The joined text ends where a further line would begin, less the line feed
/// that would separate the two.
pub proof fn lemma_join_lines_len(lines: Seq<Seq<char>>)
    requires
        lines.len() > 0,
    ensures
        join_lines(lines).len() + 1 == line_offset(lines, lines.len() as int),
    decreases lines.len(),
{
    reveal_strlit("\n");
    let n = lines.len() as int;
    if n == 1 {
        assert(line_offset(lines, 1) == line_offset(lines, 0) + lines[0].len() + 1);
    } else {
        lemma_join_lines_len(lines.drop_last());
        assert(lines.drop_last() == lines.take(n - 1));
        lemma_line_offset_prefix(lines, n - 1, n - 1);
    }
}

/// Every line stands in the joined text at its offset, so the lines follow
/// each other in their order, each one line feed behind the one before.
pub proof fn lemma_join_lines_holds(lines: Seq<Seq<char>>, i: int)
    requires
        0 <= i < lines.len(),
    ensures
        occurs_at(join_lines(lines), lines[i], line_offset(lines, i)),
        line_offset(lines, i + 1) == line_offset(lines, i) + lines[i].len() + 1,
    decreases lines.len(),
{
    reveal_strlit("\n");
    let n = lines.len() as int;
    let joined = join_lines(lines);
    if n == 1 {
        assert(joined.subrange(0, lines[0].len() as int) =~= lines[0]);
    } else {
        let front = lines.drop_last();
        let before = join_lines(front) + "\n"@;
        assert(front == lines.take(n - 1));
        lemma_join_lines_len(front);
        if i == n - 1 {
            lemma_line_offset_prefix(lines, n - 1, n - 1);
            assert(joined.subrange(before.len() as int, (before.len() + lines[i].len()) as int)
                =~= lines[i]);
        } else {
            lemma_join_lines_holds(front, i);
            lemma_line_offset_prefix(lines, n - 1, i);
            lemma_line_offset_prefix(lines, n - 1, i + 1);
            let at = line_offset(lines, i);
            assert(joined.subrange(at, at + lines[i].len()) =~= join_lines(front).subrange(
                at,
                at + lines[i].len(),
            ));
        }
    }
}

/// The page has one link for each record and no other: link `i` is the link
/// of record `i`.
pub proof fn lemma_one_link_per_record(records: Seq<PresentationView>)
    ensures
        link_elements(records).len() == records.len(),
        forall|i: int|
            0 <= i < records.len() ==> #[trigger] link_elements(records)[i] == link_element(
                records[i],
            ),
{
}

/// The link of every record stands on the page, word for word, and the links
/// stand in the order of the records, a line feed between each two.
pub proof fn lemma_page_holds_link(records: Seq<PresentationView>, i: int)
    requires
        0 <= i < records.len(),
    ensures
        occurs_at(document(records), link_element(records[i]), link_offset(records, i)),
        occurs_in(document(records), link_element(records[i])),
        link_offset(records, i + 1) == link_offset(records, i) + link_element(records[i]).len() + 1,
{
    let lines = link_elements(records);
    let joined = join_lines(lines);
    let link = link_element(records[i]);
    let at = line_offset(lines, i);
    lemma_join_lines_holds(lines, i);
    let page = document(records);
    let start = page_head().len() + at;
    assert(page.subrange(start, start + link.len()) =~= joined.subrange(at, at + link.len()));
    assert(occurs_at(page, link, link_offset(records, i)));
}

/// Without records the page is its head and its tail with nothing between
/// them: it has no link.
pub proof fn lemma_page_without_records()
    ensures
        link_elements(Seq::<PresentationView>::empty()).len() == 0,
        document(Seq::<PresentationView>::empty()) == page_head() + page_tail(),
{
    assert(join_lines(link_elements(Seq::<PresentationView>::empty())) =~= Seq::<char>::empty());
    assert(page_head() + Seq::<char>::empty() =~= page_head());
}

/// Whatever the records are, the page holds the stylesheet link, the title
/// and the heading.
pub proof fn lemma_page_holds_frame(records: Seq<PresentationView>)
    ensures
        occurs_in(document(records), stylesheet_element()),
        occurs_in(document(records), title_element()),
        occurs_in(document(records), heading_element()),
{
    let page = document(records);
    let rest = join_lines(link_elements(records)) + page_tail();
    let a = "\n        <!DOCTYPE html>\n        <html>\n            <head>\n                "@;
    let b = "\n                "@;
    let c = "\n            </head>\n            <body>\n                "@;
    let d = "\n                <div class=\"slide_container\">\n                    "@;

    let after_style = b + title_element() + c + heading_element() + d + rest;
    lemma_occurs_in_middle(a, stylesheet_element(), after_style);
    assert(page =~= a + stylesheet_element() + after_style);

    let before_title = a + stylesheet_element() + b;
    let after_title = c + heading_element() + d + rest;
    lemma_occurs_in_middle(before_title, title_element(), after_title);
    assert(page =~= before_title + title_element() + after_title);

    let before_heading = before_title + title_element() + c;
    let after_heading = d + rest;
    lemma_occurs_in_middle(before_heading, heading_element(), after_heading);
    assert(page =~= before_heading + heading_element() + after_heading);
}

/// The page depends on what the records hold and on nothing else: two lists
/// that hold the same names and paths in the same order give the same page.
pub proof fn lemma_same_records_same_page(first: Seq<PresentationInfo>, second: Seq<PresentationInfo>)
    requires
        first.len() == second.len(),
        forall|i: int| 0 <= i < first.len() ==> first[i]@ == second[i]@,
    ensures
        document(records_view(first)) == document(records_view(second)),
{
    assert(records_view(first) =~= records_view(second));
}

/// Renders the link of one record.
pub fn render_link(info: &PresentationInfo) -> (link: String)
    ensures
        link@ == link_element(info@),
{
    let mut link = String::from_str("<a href=\"");
    link.append(info.path.as_str());
    link.append("\">");
    link.append(info.name.as_str());
    link.append("</a> <br/>");
    link
}

/// Renders the index page for the records given, in their order.
///
/// The page is a function of the records alone: the same records always give
/// the same text.
pub fn generate_main_index_file(presentation_info: &Vec<PresentationInfo>) -> (html: String)
    ensures
        html@ == document(records_view(presentation_info@)),
{
    let ghost lines = link_elements(records_view(presentation_info@));
    let mut list_items = String::new();
    let mut i: usize = 0;
    while i < presentation_info.len()
        invariant
            i <= presentation_info.len(),
            lines == link_elements(records_view(presentation_info@)),
            list_items@ == join_lines(lines.take(i as int)),
        decreases presentation_info.len() - i,
    {
        proof {
            lemma_join_lines_step(lines, i as int);
        }
        if i > 0 {
            list_items.append("\n");
        }
        let link = render_link(&presentation_info[i]);
        list_items.append(link.as_str());
        i += 1;
    }
    assert(lines.take(i as int) =~= lines);

    let mut html = String::from_str(
        "\n        <!DOCTYPE html>\n        <html>\n            <head>\n                ",
    );
    html.append("<link rel=\"stylesheet\" href=\"");
    html.append(CSS_FILE);
    html.append("\">");
    html.append("\n                ");
    html.append("<title>My Presentations</title>");
    html.append("\n            </head>\n            <body>\n                ");
    html.append("<h1>My Presentations</h1>");
    html.append("\n                <div class=\"slide_container\">\n                    ");
    html.append(list_items.as_str());
    html.append("\n                </div>\n            </body>\n        </html>\n        ");
    assert(html@ =~= document(records_view(presentation_info@)));
    html
}

} // verus!
