use novel_static::clock::Timestamp;
use novel_static::listing::{BaseInfo, Entry};
use novel_static::negotiate::{render_listing, select_format, Format, MediaType};
use novel_static::render::{list_html, list_json, list_text, list_xml, push_decimal};

fn ts(secs: i64, offset: i32) -> Timestamp {
    Timestamp::new(secs, 0, offset).unwrap()
}

fn media(t: &str, s: &str) -> Option<MediaType> {
    Some(MediaType { type_: t.to_string(), subtype: s.to_string() })
}

fn sample() -> BaseInfo {
    let files = vec![Entry::file("a.txt".to_string(), 1234, ts(1_600_000_000, 0))];
    let dirs = vec![Entry::dir("sub".to_string(), ts(1_600_000_000, 3600))];
    BaseInfo::new("/d/".to_string(), files, dirs)
}

fn empty() -> BaseInfo {
    BaseInfo::new("/d/".to_string(), Vec::new(), Vec::new())
}

#[test]
fn decimal_digits() {
    let mut s = String::from("n=");
    push_decimal(&mut s, 0);
    push_decimal(&mut s, 10);
    push_decimal(&mut s, u64::MAX);
    assert_eq!(s, "n=01018446744073709551615");
}

#[test]
fn timestamp_bounds() {
    assert!(Timestamp::new(0, 0, 0).is_some());
    assert!(Timestamp::new(0, 1_000_000_000, 0).is_none());
    assert!(Timestamp::new(0, 0, 86_400).is_none());
    assert!(Timestamp::new(9_000_000_000_000, 0, 0).is_none());
}

#[test]
fn xml_empty_says_no_files() {
    assert_eq!(list_xml(&empty()), "<list>No files</list>");
}

#[test]
fn html_empty_says_no_files() {
    let h = list_html(&empty());
    assert!(h.contains("<title>/d/</title>"));
    assert!(h.contains("<h1>Index of: /d/</h1>"));
    assert!(h.contains("<br><br>\nNo files<hr/>"));
    assert!(!h.contains("<table>"));
}

#[test]
fn json_empty_has_empty_arrays() {
    assert_eq!(list_json(&empty()), "{\"dirs\":[],\"files\":[],\"path\":\"/d/\"}");
}

#[test]
fn xml_rows() {
    assert_eq!(
        list_xml(&sample()),
        "<list><table><dir><name>sub</name><modified>2020-09-13 13:26:40</modified></dir>\
<file><name>a.txt</name><modified>2020-09-13 12:26:40</modified><size>1234</size></file></table></list>"
    );
}

#[test]
fn html_rows() {
    let h = list_html(&sample());
    assert!(h.contains(
        "<table><tr><td><a href=\"./sub/\">sub/</a></td><td>2020-09-13 13:26:40</td><td></td></tr>\
<tr><td><a href=\"./a.txt\">a.txt</a></td><td>2020-09-13 12:26:40</td><td>1234</td></tr></table>"
    ));
    assert!(h.ends_with("<small>novel</small></div></body>"));
}

#[test]
fn json_rows() {
    assert_eq!(
        list_json(&sample()),
        "{\"dirs\":[{\"modified\":\"2020-09-13T13:26:40+01:00\",\"name\":\"sub\"}],\
\"files\":[{\"modified\":\"2020-09-13T12:26:40Z\",\"name\":\"a.txt\",\"size\":1234}],\"path\":\"/d/\"}"
    );
}

#[test]
fn json_escapes_names() {
    let files = vec![Entry::file("q\"x".to_string(), 1, ts(0, 0)), Entry::file("r".to_string(), 2, ts(0, 0))];
    let b = BaseInfo::new("/".to_string(), files, Vec::new());
    assert_eq!(
        list_json(&b),
        "{\"dirs\":[],\"files\":[{\"modified\":\"1970-01-01T00:00:00Z\",\"name\":\"q\\\"x\",\"size\":1},\
{\"modified\":\"1970-01-01T00:00:00Z\",\"name\":\"r\",\"size\":2}],\"path\":\"/\"}"
    );
}

#[test]
fn text_is_json_shaped() {
    assert_eq!(list_text(&sample()), list_json(&sample()));
}

#[test]
fn negotiation() {
    assert_eq!(select_format(&None), Format::Html);
    assert_eq!(select_format(&media("text", "html")), Format::Html);
    assert_eq!(select_format(&media("text", "json")), Format::Json);
    assert_eq!(select_format(&media("text", "xml")), Format::Xml);
    assert_eq!(select_format(&media("text", "text")), Format::Text);
    assert_eq!(select_format(&media("text", "plain")), Format::Html);
    assert_eq!(select_format(&media("image", "png")), Format::Html);
    assert_eq!(select_format(&media("application", "json")), Format::Html);
}

#[test]
fn structured_outputs() {
    let (f, j) = render_listing(&sample(), &media("text", "json"));
    assert_eq!(f, Format::Json);
    assert!(j.starts_with("{\"dirs\":["));
    assert!(j.contains("\"files\":["));
    assert!(j.contains("\"path\":"));
    let (f, x) = render_listing(&sample(), &media("text", "xml"));
    assert_eq!(f, Format::Xml);
    assert!(x.starts_with("<list>") && x.ends_with("</list>"));
}

#[test]
fn xml_names_read_back_in_order() {
    let files = vec![
        Entry::file("b.txt".to_string(), 5, ts(0, 0)),
        Entry::file("c d.txt".to_string(), 0, ts(0, 0)),
    ];
    let dirs = vec![Entry::dir("a".to_string(), ts(0, 0)), Entry::dir("z".to_string(), ts(0, 0))];
    let x = list_xml(&BaseInfo::new("/".to_string(), files, dirs));
    let read: Vec<&str> = x.split("<name>").skip(1).map(|p| p.split("</name>").next().unwrap()).collect();
    assert_eq!(read, vec!["a", "z", "b.txt", "c d.txt"]);
}
