use vstd::prelude::*;

use crate::clock::{clock_text, format_clock, format_rfc3339, rfc3339_text};
use crate::listing::{all_wf, views, BaseInfo, Entry, EntryView};

verus! {

pub open spec fn digit_char(d: nat) -> char {
    if d == 0 { '0' }
    else if d == 1 { '1' }
    else if d == 2 { '2' }
    else if d == 3 { '3' }
    else if d == 4 { '4' }
    else if d == 5 { '5' }
    else if d == 6 { '6' }
    else if d == 7 { '7' }
    else if d == 8 { '8' }
    else { '9' }
}

/// Decimal digits of `n`, most significant first, with no leading zero.
pub open spec fn decimal_text(n: nat) -> Seq<char>
    decreases n,
{
    if n < 10 {
        seq![digit_char(n)]
    } else {
        decimal_text(n / 10).push(digit_char(n % 10))
    }
}

fn digit_str(d: u64) -> (r: &'static str)
    requires
        d < 10,
    ensures
        r@ == seq![digit_char(d as nat)],
{
    proof {
        reveal_strlit("0");
        reveal_strlit("1");
        reveal_strlit("2");
        reveal_strlit("3");
        reveal_strlit("4");
        reveal_strlit("5");
        reveal_strlit("6");
        reveal_strlit("7");
        reveal_strlit("8");
        reveal_strlit("9");
    }
    if d == 0 { "0" }
    else if d == 1 { "1" }
    else if d == 2 { "2" }
    else if d == 3 { "3" }
    else if d == 4 { "4" }
    else if d == 5 { "5" }
    else if d == 6 { "6" }
    else if d == 7 { "7" }
    else if d == 8 { "8" }
    else { "9" }
}

/// Appends the decimal digits of `n`.
pub fn push_decimal(out: &mut String, n: u64)
    ensures
        final(out)@ == old(out)@ + decimal_text(n as nat),
    decreases n,
{
    if n >= 10 {
        push_decimal(out, n / 10);
    }
    out.append(digit_str(n % 10));
    proof {
        if n < 10 {
            assert(decimal_text(n as nat) =~= seq![digit_char(n as nat)]);
        }
    }
    assert(final(out)@ =~= old(out)@ + decimal_text(n as nat));
}

/// The JSON string literal that serde_json writes for a string.
pub uninterp spec fn json_quoted(s: Seq<char>) -> Seq<char>;

/// Relies on `serde_json::to_string` for a `str`: the quoted, escaped JSON
/// string literal (writing a string into memory does not fail).
#[verifier::external_body]
pub(crate) fn json_string(s: &str) -> (r: String)
    ensures
        r@ == json_quoted(s@),
{
    serde_json::to_string(s).unwrap_or_default()
}

// ---- XML ----

pub open spec fn xml_dir_row(e: EntryView) -> Seq<char> {
    "<dir><name>"@ + e.name + "</name><modified>"@ + clock_text(e.modified) + "</modified></dir>"@
}

pub open spec fn xml_file_row(e: EntryView) -> Seq<char> {
    "<file><name>"@ + e.name + "</name><modified>"@ + clock_text(e.modified) + "</modified><size>"@
        + decimal_text(e.size as nat) + "</size></file>"@
}

pub open spec fn xml_dir_rows(s: Seq<EntryView>) -> Seq<char>
    decreases s.len(),
{
    if s.len() == 0 { Seq::empty() } else { xml_dir_rows(s.drop_last()) + xml_dir_row(s.last()) }
}

pub open spec fn xml_file_rows(s: Seq<EntryView>) -> Seq<char>
    decreases s.len(),
{
    if s.len() == 0 { Seq::empty() } else { xml_file_rows(s.drop_last()) + xml_file_row(s.last()) }
}

/// The XML listing: `<list>` around either "No files" or a table of the
/// directories, then the files.
pub open spec fn xml_text(path: Seq<char>, files: Seq<EntryView>, dirs: Seq<EntryView>) -> Seq<char> {
    "<list>"@ + (if files.len() == 0 && dirs.len() == 0 {
        "No files"@
    } else {
        "<table>"@ + xml_dir_rows(dirs) + xml_file_rows(files) + "</table>"@
    }) + "</list>"@
}

fn push_xml_dirs(out: &mut String, dirs: &Vec<Entry>)
    requires
        all_wf(dirs@),
    ensures
        final(out)@ == old(out)@ + xml_dir_rows(views(dirs@)),
{
    let ghost vs = views(dirs@);
    let mut i: usize = 0;
    while i < dirs.len()
        invariant
            i <= dirs.len(),
            all_wf(dirs@),
            vs == views(dirs@),
            out@ == old(out)@ + xml_dir_rows(vs.take(i as int)),
        decreases dirs.len() - i,
    {
        let e = &dirs[i];
        assert(e.wf());
        let ghost before = out@;
        out.append("<dir><name>");
        out.append(e.name.as_str());
        out.append("</name><modified>");
        let m = format_clock(&e.modified);
        out.append(m.as_str());
        out.append("</modified></dir>");
        proof {
            assert(vs.take(i as int + 1).drop_last() =~= vs.take(i as int));
            assert(out@ =~= before + xml_dir_row(vs[i as int]));
        }
        i = i + 1;
    }
    assert(vs.take(dirs.len() as int) =~= vs);
}

fn push_xml_files(out: &mut String, files: &Vec<Entry>)
    requires
        all_wf(files@),
    ensures
        final(out)@ == old(out)@ + xml_file_rows(views(files@)),
{
    let ghost vs = views(files@);
    let mut i: usize = 0;
    while i < files.len()
        invariant
            i <= files.len(),
            all_wf(files@),
            vs == views(files@),
            out@ == old(out)@ + xml_file_rows(vs.take(i as int)),
        decreases files.len() - i,
    {
        let e = &files[i];
        assert(e.wf());
        let ghost before = out@;
        out.append("<file><name>");
        out.append(e.name.as_str());
        out.append("</name><modified>");
        let m = format_clock(&e.modified);
        out.append(m.as_str());
        out.append("</modified><size>");
        push_decimal(out, e.size);
        out.append("</size></file>");
        proof {
            assert(vs.take(i as int + 1).drop_last() =~= vs.take(i as int));
            assert(out@ =~= before + xml_file_row(vs[i as int]));
        }
        i = i + 1;
    }
    assert(vs.take(files.len() as int) =~= vs);
}

/// Renders a listing as XML.
pub fn list_xml(root: &BaseInfo) -> (r: String)
    requires
        all_wf(root.files@),
        all_wf(root.dirs@),
    ensures
        r@ == xml_text(root.path@, views(root.files@), views(root.dirs@)),
{
    let mut out = String::from_str("<list>");
    if root.is_empty() {
        out.append("No files");
    } else {
        out.append("<table>");
        push_xml_dirs(&mut out, &root.dirs);
        push_xml_files(&mut out, &root.files);
        out.append("</table>");
    }
    out.append("</list>");
    assert(out@ =~= xml_text(root.path@, views(root.files@), views(root.dirs@)));
    out
}

// ---- HTML ----

pub open spec fn html_dir_row(e: EntryView) -> Seq<char> {
    "<tr><td><a href=\"./"@ + e.name + "/\">"@ + e.name + "/</a></td><td>"@ + clock_text(e.modified)
        + "</td><td></td></tr>"@
}

pub open spec fn html_file_row(e: EntryView) -> Seq<char> {
    "<tr><td><a href=\"./"@ + e.name + "\">"@ + e.name + "</a></td><td>"@ + clock_text(e.modified)
        + "</td><td>"@ + decimal_text(e.size as nat) + "</td></tr>"@
}

pub open spec fn html_dir_rows(s: Seq<EntryView>) -> Seq<char>
    decreases s.len(),
{
    if s.len() == 0 { Seq::empty() } else { html_dir_rows(s.drop_last()) + html_dir_row(s.last()) }
}

pub open spec fn html_file_rows(s: Seq<EntryView>) -> Seq<char>
    decreases s.len(),
{
    if s.len() == 0 { Seq::empty() } else { html_file_rows(s.drop_last()) + html_file_row(s.last()) }
}

pub open spec fn html_head(path: Seq<char>) -> Seq<char> {
    "<!DOCTYPE html>\n<html>\n    <head>\n        <meta charset=\"utf-8\">\n        <title>"@ + path
        + "</title>\n    </head>\n    <body>\n        <h1>Index of: "@ + path
        + "</h1>\n        <hr/>\n        <a href=\"../\">[../]</a><br><br>\n"@
}

/// The HTML listing: a page titled by the path, a link to the parent, then
/// either "No files" or a table of the directories, then the files.
pub open spec fn html_text(path: Seq<char>, files: Seq<EntryView>, dirs: Seq<EntryView>) -> Seq<char> {
    html_head(path) + (if files.len() == 0 && dirs.len() == 0 {
        "No files"@
    } else {
        "<table>"@ + html_dir_rows(dirs) + html_file_rows(files) + "</table>"@
    }) + "<hr/><div style=\"text-align:center;\"><small>novel</small></div></body>"@
}

fn push_html_dirs(out: &mut String, dirs: &Vec<Entry>)
    requires
        all_wf(dirs@),
    ensures
        final(out)@ == old(out)@ + html_dir_rows(views(dirs@)),
{
    let ghost vs = views(dirs@);
    let mut i: usize = 0;
    while i < dirs.len()
        invariant
            i <= dirs.len(),
            all_wf(dirs@),
            vs == views(dirs@),
            out@ == old(out)@ + html_dir_rows(vs.take(i as int)),
        decreases dirs.len() - i,
    {
        let e = &dirs[i];
        assert(e.wf());
        let ghost before = out@;
        out.append("<tr><td><a href=\"./");
        out.append(e.name.as_str());
        out.append("/\">");
        out.append(e.name.as_str());
        out.append("/</a></td><td>");
        let m = format_clock(&e.modified);
        out.append(m.as_str());
        out.append("</td><td></td></tr>");
        proof {
            assert(vs.take(i as int + 1).drop_last() =~= vs.take(i as int));
            assert(out@ =~= before + html_dir_row(vs[i as int]));
        }
        i = i + 1;
    }
    assert(vs.take(dirs.len() as int) =~= vs);
}

fn push_html_files(out: &mut String, files: &Vec<Entry>)
    requires
        all_wf(files@),
    ensures
        final(out)@ == old(out)@ + html_file_rows(views(files@)),
{
    let ghost vs = views(files@);
    let mut i: usize = 0;
    while i < files.len()
        invariant
            i <= files.len(),
            all_wf(files@),
            vs == views(files@),
            out@ == old(out)@ + html_file_rows(vs.take(i as int)),
        decreases files.len() - i,
    {
        let e = &files[i];
        assert(e.wf());
        let ghost before = out@;
        out.append("<tr><td><a href=\"./");
        out.append(e.name.as_str());
        out.append("\">");
        out.append(e.name.as_str());
        out.append("</a></td><td>");
        let m = format_clock(&e.modified);
        out.append(m.as_str());
        out.append("</td><td>");
        push_decimal(out, e.size);
        out.append("</td></tr>");
        proof {
            assert(vs.take(i as int + 1).drop_last() =~= vs.take(i as int));
            assert(out@ =~= before + html_file_row(vs[i as int]));
        }
        i = i + 1;
    }
    assert(vs.take(files.len() as int) =~= vs);
}

/// Renders a listing as an HTML page.
pub fn list_html(root: &BaseInfo) -> (r: String)
    requires
        all_wf(root.files@),
        all_wf(root.dirs@),
    ensures
        r@ == html_text(root.path@, views(root.files@), views(root.dirs@)),
{
    let mut out = String::from_str("<!DOCTYPE html>\n<html>\n    <head>\n        <meta charset=\"utf-8\">\n        <title>");
    out.append(root.path.as_str());
    out.append("</title>\n    </head>\n    <body>\n        <h1>Index of: ");
    out.append(root.path.as_str());
    out.append("</h1>\n        <hr/>\n        <a href=\"../\">[../]</a><br><br>\n");
    if root.is_empty() {
        out.append("No files");
    } else {
        out.append("<table>");
        push_html_dirs(&mut out, &root.dirs);
        push_html_files(&mut out, &root.files);
        out.append("</table>");
    }
    out.append("<hr/><div style=\"text-align:center;\"><small>novel</small></div></body>");
    assert(out@ =~= html_text(root.path@, views(root.files@), views(root.dirs@)));
    out
}

// ---- JSON ----

pub open spec fn json_dir_item(e: EntryView) -> Seq<char> {
    "{\"modified\":"@ + json_quoted(rfc3339_text(e.modified)) + ",\"name\":"@ + json_quoted(e.name) + "}"@
}

pub open spec fn json_file_item(e: EntryView) -> Seq<char> {
    "{\"modified\":"@ + json_quoted(rfc3339_text(e.modified)) + ",\"name\":"@ + json_quoted(e.name)
        + ",\"size\":"@ + decimal_text(e.size as nat) + "}"@
}

/// A comma before every item but the first.
pub open spec fn json_sep(k: int) -> Seq<char> {
    if k == 0 { Seq::empty() } else { ","@ }
}

pub open spec fn json_dir_items(s: Seq<EntryView>) -> Seq<char>
    decreases s.len(),
{
    if s.len() == 0 {
        Seq::empty()
    } else {
        json_dir_items(s.drop_last()) + json_sep(s.len() - 1) + json_dir_item(s.last())
    }
}

pub open spec fn json_file_items(s: Seq<EntryView>) -> Seq<char>
    decreases s.len(),
{
    if s.len() == 0 {
        Seq::empty()
    } else {
        json_file_items(s.drop_last()) + json_sep(s.len() - 1) + json_file_item(s.last())
    }
}

/// The JSON listing, as serde_json writes the listing's value: an object
/// whose keys `dirs`, `files`, `path` come in sorted order, each entry an
/// object with keys `modified`, `name` and, for files, `size`.
pub open spec fn json_text(path: Seq<char>, files: Seq<EntryView>, dirs: Seq<EntryView>) -> Seq<char> {
    "{\"dirs\":["@ + json_dir_items(dirs) + "],\"files\":["@ + json_file_items(files) + "],\"path\":"@
        + json_quoted(path) + "}"@
}

fn push_json_dirs(out: &mut String, dirs: &Vec<Entry>)
    requires
        all_wf(dirs@),
    ensures
        final(out)@ == old(out)@ + json_dir_items(views(dirs@)),
{
    let ghost vs = views(dirs@);
    let mut i: usize = 0;
    while i < dirs.len()
        invariant
            i <= dirs.len(),
            all_wf(dirs@),
            vs == views(dirs@),
            out@ == old(out)@ + json_dir_items(vs.take(i as int)),
        decreases dirs.len() - i,
    {
        let e = &dirs[i];
        assert(e.wf());
        let ghost before = out@;
        if i > 0 {
            out.append(",");
        }
        let ghost sep = out@;
        out.append("{\"modified\":");
        let m = format_rfc3339(&e.modified);
        let q = json_string(m.as_str());
        out.append(q.as_str());
        out.append(",\"name\":");
        let nq = json_string(e.name.as_str());
        out.append(nq.as_str());
        out.append("}");
        proof {
            assert(vs.take(i as int + 1).drop_last() =~= vs.take(i as int));
            assert(sep =~= before + json_sep(i as int));
            assert(out@ =~= before + json_sep(i as int) + json_dir_item(vs[i as int]));
        }
        i = i + 1;
    }
    assert(vs.take(dirs.len() as int) =~= vs);
}

fn push_json_files(out: &mut String, files: &Vec<Entry>)
    requires
        all_wf(files@),
    ensures
        final(out)@ == old(out)@ + json_file_items(views(files@)),
{
    let ghost vs = views(files@);
    let mut i: usize = 0;
    while i < files.len()
        invariant
            i <= files.len(),
            all_wf(files@),
            vs == views(files@),
            out@ == old(out)@ + json_file_items(vs.take(i as int)),
        decreases files.len() - i,
    {
        let e = &files[i];
        assert(e.wf());
        let ghost before = out@;
        if i > 0 {
            out.append(",");
        }
        let ghost sep = out@;
        out.append("{\"modified\":");
        let m = format_rfc3339(&e.modified);
        let q = json_string(m.as_str());
        out.append(q.as_str());
        out.append(",\"name\":");
        let nq = json_string(e.name.as_str());
        out.append(nq.as_str());
        out.append(",\"size\":");
        push_decimal(out, e.size);
        out.append("}");
        proof {
            assert(vs.take(i as int + 1).drop_last() =~= vs.take(i as int));
            assert(sep =~= before + json_sep(i as int));
            assert(out@ =~= before + json_sep(i as int) + json_file_item(vs[i as int]));
        }
        i = i + 1;
    }
    assert(vs.take(files.len() as int) =~= vs);
}

/// Renders a listing as JSON.
pub fn list_json(root: &BaseInfo) -> (r: String)
    requires
        all_wf(root.files@),
        all_wf(root.dirs@),
    ensures
        r@ == json_text(root.path@, views(root.files@), views(root.dirs@)),
{
    let mut out = String::from_str("{\"dirs\":[");
    push_json_dirs(&mut out, &root.dirs);
    out.append("],\"files\":[");
    push_json_files(&mut out, &root.files);
    out.append("],\"path\":");
    let p = json_string(root.path.as_str());
    out.append(p.as_str());
    out.append("}");
    assert(out@ =~= json_text(root.path@, views(root.files@), views(root.dirs@)));
    out
}

/// Renders a listing for a plain-text request: the same text as the JSON
/// rendering.
pub fn list_text(root: &BaseInfo) -> (r: String)
    requires
        all_wf(root.files@),
        all_wf(root.dirs@),
    ensures
        r@ == json_text(root.path@, views(root.files@), views(root.dirs@)),
{
    list_json(root)
}

/// An empty listing renders "No files" in HTML and XML, and empty arrays in
/// JSON.
pub proof fn lemma_empty_listing(path: Seq<char>, files: Seq<EntryView>, dirs: Seq<EntryView>)
    requires
        files.len() == 0,
        dirs.len() == 0,
    ensures
        xml_text(path, files, dirs) == "<list>No files</list>"@,
        html_text(path, files, dirs) == html_head(path) + "No files"@
            + "<hr/><div style=\"text-align:center;\"><small>novel</small></div></body>"@,
        json_text(path, files, dirs) == "{\"dirs\":[],\"files\":[],\"path\":"@ + json_quoted(path) + "}"@,
{
    reveal_strlit("<list>No files</list>");
    reveal_strlit("<list>");
    reveal_strlit("No files");
    reveal_strlit("</list>");
    assert(xml_text(path, files, dirs) =~= "<list>No files</list>"@);
    reveal_strlit("{\"dirs\":[],\"files\":[],\"path\":");
    reveal_strlit("{\"dirs\":[");
    reveal_strlit("],\"files\":[");
    reveal_strlit("],\"path\":");
    assert(json_text(path, files, dirs) =~= "{\"dirs\":[],\"files\":[],\"path\":"@ + json_quoted(path) + "}"@);
}

// ---- reading names back from the XML listing ----

/// Position of the first `<` in `t`, or its length when there is none.
pub open spec fn first_lt(t: Seq<char>) -> nat
    decreases t.len(),
{
    if t.len() == 0 {
        0
    } else if t[0] == '<' {
        0
    } else {
        1 + first_lt(t.drop_first())
    }
}

pub open spec fn no_lt(t: Seq<char>) -> bool {
    forall|i: int| 0 <= i < t.len() ==> t[i] != '<'
}

/// Reads the `<dir>` rows at the start of `t`: their names, and what follows.
#[verifier::opaque]
pub open spec fn parse_dir_rows(t: Seq<char>) -> (Seq<Seq<char>>, Seq<char>)
    decreases t.len(),
{
    if t.len() >= 11 && t.take(11) == "<dir><name>"@ {
        let a = t.skip(11);
        let n = first_lt(a) as int;
        let b = a.skip(n + 17);
        let rest = b.skip((first_lt(b) + 17) as int);
        if n + 17 <= a.len() && first_lt(b) + 17 <= b.len() {
            let (names, tail) = parse_dir_rows(rest);
            (seq![a.take(n)] + names, tail)
        } else {
            (Seq::empty(), t)
        }
    } else {
        (Seq::empty(), t)
    }
}

/// Reads the `<file>` rows at the start of `t`: their names, and what follows.
#[verifier::opaque]
pub open spec fn parse_file_rows(t: Seq<char>) -> (Seq<Seq<char>>, Seq<char>)
    decreases t.len(),
{
    if t.len() >= 12 && t.take(12) == "<file><name>"@ {
        let a = t.skip(12);
        let n = first_lt(a) as int;
        let b = a.skip(n + 17);
        let c = b.skip((first_lt(b) + 17) as int);
        let rest = c.skip((first_lt(c) + 14) as int);
        if n + 17 <= a.len() && first_lt(b) + 17 <= b.len() && first_lt(c) + 14 <= c.len() {
            let (names, tail) = parse_file_rows(rest);
            (seq![a.take(n)] + names, tail)
        } else {
            (Seq::empty(), t)
        }
    } else {
        (Seq::empty(), t)
    }
}

/// The file names and directory names that an XML listing shows.
pub open spec fn parse_xml_names(t: Seq<char>) -> (Seq<Seq<char>>, Seq<Seq<char>>) {
    let body = t.skip(6);
    if body.len() >= 7 && body.take(7) == "<table>"@ {
        let (dirs, after) = parse_dir_rows(body.skip(7));
        let (files, _) = parse_file_rows(after);
        (files, dirs)
    } else {
        (Seq::empty(), Seq::empty())
    }
}

pub open spec fn entry_names(s: Seq<EntryView>) -> Seq<Seq<char>> {
    s.map_values(|e: EntryView| e.name)
}

/// Names and modification texts that hold no `<`, so that they cannot be
/// mistaken for markup.
pub open spec fn markup_free(s: Seq<EntryView>) -> bool {
    forall|i: int| 0 <= i < s.len() ==> no_lt(#[trigger] s[i].name) && no_lt(clock_text(s[i].modified))
}

proof fn lemma_first_lt(a: Seq<char>, b: Seq<char>)
    requires
        no_lt(a),
        b.len() > 0,
        b[0] == '<',
    ensures
        first_lt(a + b) == a.len(),
    decreases a.len(),
{
    if a.len() == 0 {
        assert(a + b =~= b);
    } else {
        assert((a + b).drop_first() =~= a.drop_first() + b);
        lemma_first_lt(a.drop_first(), b);
    }
}

proof fn lemma_decimal_no_lt(n: nat)
    ensures
        no_lt(decimal_text(n)),
    decreases n,
{
    if n >= 10 {
        lemma_decimal_no_lt(n / 10);
    }
}

proof fn lemma_dir_rows_front(s: Seq<EntryView>)
    requires
        s.len() > 0,
    ensures
        xml_dir_rows(s) == xml_dir_row(s[0]) + xml_dir_rows(s.drop_first()),
    decreases s.len(),
{
    if s.len() == 1 {
        assert(s.drop_last() =~= Seq::<EntryView>::empty());
        assert(s.drop_first() =~= Seq::<EntryView>::empty());
        assert(xml_dir_rows(s) =~= xml_dir_row(s[0]) + xml_dir_rows(s.drop_first()));
    } else {
        lemma_dir_rows_front(s.drop_last());
        assert(s.drop_last().drop_first() =~= s.drop_first().drop_last());
        assert(xml_dir_rows(s) =~= xml_dir_row(s[0]) + xml_dir_rows(s.drop_first()));
    }
}

proof fn lemma_file_rows_front(s: Seq<EntryView>)
    requires
        s.len() > 0,
    ensures
        xml_file_rows(s) == xml_file_row(s[0]) + xml_file_rows(s.drop_first()),
    decreases s.len(),
{
    if s.len() == 1 {
        assert(s.drop_last() =~= Seq::<EntryView>::empty());
        assert(s.drop_first() =~= Seq::<EntryView>::empty());
        assert(xml_file_rows(s) =~= xml_file_row(s[0]) + xml_file_rows(s.drop_first()));
    } else {
        lemma_file_rows_front(s.drop_last());
        assert(s.drop_last().drop_first() =~= s.drop_first().drop_last());
        assert(xml_file_rows(s) =~= xml_file_row(s[0]) + xml_file_rows(s.drop_first()));
    }
}

proof fn lemma_parse_dir_row(e: EntryView, r: Seq<char>)
    requires
        no_lt(e.name),
        no_lt(clock_text(e.modified)),
    ensures
        parse_dir_rows(xml_dir_row(e) + r) == (seq![e.name] + parse_dir_rows(r).0, parse_dir_rows(r).1),
{
    reveal_strlit("<dir><name>");
    reveal_strlit("</name><modified>");
    reveal_strlit("</modified></dir>");
    reveal(parse_dir_rows);
    let c = clock_text(e.modified);
    let t = xml_dir_row(e) + r;
    let tail_c = "</modified></dir>"@ + r;
    let tail_n = "</name><modified>"@ + (c + tail_c);
    assert(t =~= "<dir><name>"@ + (e.name + tail_n));
    assert(t.take(11) =~= "<dir><name>"@);
    let a = t.skip(11);
    assert(a =~= e.name + tail_n);
    lemma_first_lt(e.name, tail_n);
    assert(a.take(e.name.len() as int) =~= e.name);
    let b = a.skip((e.name.len() + 17) as int);
    assert(b =~= c + tail_c);
    lemma_first_lt(c, tail_c);
    assert(b.skip((c.len() + 17) as int) =~= r);
}

proof fn lemma_parse_dir_rows(s: Seq<EntryView>, tail: Seq<char>)
    requires
        markup_free(s),
        !(tail.len() >= 11 && tail.take(11) == "<dir><name>"@),
    ensures
        parse_dir_rows(xml_dir_rows(s) + tail) == (entry_names(s), tail),
    decreases s.len(),
{
    let t = xml_dir_rows(s) + tail;
    if s.len() == 0 {
        reveal(parse_dir_rows);
        assert(t =~= tail);
        assert(entry_names(s) =~= Seq::<Seq<char>>::empty());
    } else {
        let e = s[0];
        let r = xml_dir_rows(s.drop_first()) + tail;
        lemma_dir_rows_front(s);
        assert(markup_free(s.drop_first())) by {
            assert forall|i: int| 0 <= i < s.drop_first().len() implies no_lt(#[trigger] s.drop_first()[i].name)
                && no_lt(clock_text(s.drop_first()[i].modified)) by {
                assert(s.drop_first()[i] == s[i + 1]);
            }
        }
        assert(t =~= xml_dir_row(e) + r);
        lemma_parse_dir_row(e, r);
        lemma_parse_dir_rows(s.drop_first(), tail);
        assert(entry_names(s) =~= seq![e.name] + entry_names(s.drop_first()));
    }
}

#[verifier::rlimit(60)]
proof fn lemma_parse_file_row(e: EntryView, r: Seq<char>)
    requires
        no_lt(e.name),
        no_lt(clock_text(e.modified)),
    ensures
        parse_file_rows(xml_file_row(e) + r) == (seq![e.name] + parse_file_rows(r).0, parse_file_rows(r).1),
{
    reveal_strlit("<file><name>");
    reveal_strlit("</name><modified>");
    reveal_strlit("</modified><size>");
    reveal_strlit("</size></file>");
    reveal(parse_file_rows);
    let c = clock_text(e.modified);
    let d = decimal_text(e.size as nat);
    lemma_decimal_no_lt(e.size as nat);
    let t = xml_file_row(e) + r;
    let tail_d = "</size></file>"@ + r;
    let tail_c = "</modified><size>"@ + (d + tail_d);
    let tail_n = "</name><modified>"@ + (c + tail_c);
    assert(t =~= "<file><name>"@ + (e.name + tail_n));
    assert(t.take(12) =~= "<file><name>"@);
    let a = t.skip(12);
    assert(a =~= e.name + tail_n);
    lemma_first_lt(e.name, tail_n);
    assert(a.take(e.name.len() as int) =~= e.name);
    let b = a.skip((e.name.len() + 17) as int);
    assert(b =~= c + tail_c);
    lemma_first_lt(c, tail_c);
    let b2 = b.skip((c.len() + 17) as int);
    assert(b2 =~= d + tail_d);
    lemma_first_lt(d, tail_d);
    assert(b2.skip((d.len() + 14) as int) =~= r);
}

proof fn lemma_parse_file_rows(s: Seq<EntryView>, tail: Seq<char>)
    requires
        markup_free(s),
        !(tail.len() >= 12 && tail.take(12) == "<file><name>"@),
    ensures
        parse_file_rows(xml_file_rows(s) + tail) == (entry_names(s), tail),
    decreases s.len(),
{
    let t = xml_file_rows(s) + tail;
    if s.len() == 0 {
        reveal(parse_file_rows);
        assert(t =~= tail);
        assert(entry_names(s) =~= Seq::<Seq<char>>::empty());
    } else {
        let e = s[0];
        let r = xml_file_rows(s.drop_first()) + tail;
        lemma_file_rows_front(s);
        assert(markup_free(s.drop_first())) by {
            assert forall|i: int| 0 <= i < s.drop_first().len() implies no_lt(#[trigger] s.drop_first()[i].name)
                && no_lt(clock_text(s.drop_first()[i].modified)) by {
                assert(s.drop_first()[i] == s[i + 1]);
            }
        }
        assert(t =~= xml_file_row(e) + r);
        lemma_parse_file_row(e, r);
        lemma_parse_file_rows(s.drop_first(), tail);
        assert(entry_names(s) =~= seq![e.name] + entry_names(s.drop_first()));
    }
}

/// Rendering a listing as XML and reading the names back gives the file and
/// directory names, in order, wherever neither a name nor a modification
/// text holds `<`.
pub proof fn lemma_xml_names_round_trip(path: Seq<char>, files: Seq<EntryView>, dirs: Seq<EntryView>)
    requires
        markup_free(files),
        markup_free(dirs),
    ensures
        parse_xml_names(xml_text(path, files, dirs)) == (entry_names(files), entry_names(dirs)),
{
    reveal_strlit("<list>");
    reveal_strlit("No files");
    reveal_strlit("<table>");
    reveal_strlit("</table>");
    reveal_strlit("</list>");
    reveal_strlit("<dir><name>");
    reveal_strlit("<file><name>");
    let t = xml_text(path, files, dirs);
    if files.len() == 0 && dirs.len() == 0 {
        assert(t.skip(6) =~= "No files"@ + "</list>"@);
        assert(t.skip(6).take(7)[0] != "<table>"@[0]);
        assert(entry_names(files) =~= Seq::<Seq<char>>::empty());
        assert(entry_names(dirs) =~= Seq::<Seq<char>>::empty());
    } else {
        let end = "</table>"@ + "</list>"@;
        let after = xml_file_rows(files) + end;
        assert(t.skip(6) =~= "<table>"@ + (xml_dir_rows(dirs) + after));
        assert(t.skip(6).take(7) =~= "<table>"@);
        assert(t.skip(6).skip(7) =~= xml_dir_rows(dirs) + after);
        if files.len() > 0 {
            lemma_file_rows_front(files);
            assert(after.take(11)[1] == 'f');
        } else {
            assert(after =~= end);
            assert(after.take(11)[1] == '/');
        }
        assert("<dir><name>"@[1] == 'd');
        lemma_parse_dir_rows(dirs, after);
        assert(end.take(12)[1] == '/');
        lemma_parse_file_rows(files, end);
    }
}

} // verus!
