use vstd::prelude::*;

use crate::listing::{all_wf, views, BaseInfo};
use crate::names::compare_names;
use crate::render::{html_text, json_text, list_html, list_json, list_text, list_xml, xml_text};

verus! {

/// A media type as its top-level type and subtype, in lower case.
#[derive(Clone, Debug)]
pub struct MediaType {
    pub type_: String,
    pub subtype: String,
}

/// The renderer picked for a listing.
#[derive(Clone, Copy, Debug, PartialEq, Eq, Structural)]
pub enum Format {
    Text,
    Json,
    Xml,
    Html,
}

/// The format for the client's first accepted media type: a type other than
/// `text` (or none at all) falls back to HTML; then the subtype decides.
pub open spec fn format_for(top: Option<(Seq<char>, Seq<char>)>) -> Format {
    match top {
        Some((t, s)) => if t != "text"@ {
            Format::Html
        } else if s == "text"@ {
            Format::Text
        } else if s == "json"@ {
            Format::Json
        } else if s == "xml"@ {
            Format::Xml
        } else {
            Format::Html
        },
        None => Format::Html,
    }
}

pub open spec fn media_view(m: Option<MediaType>) -> Option<(Seq<char>, Seq<char>)> {
    match m {
        Some(m) => Some((m.type_@, m.subtype@)),
        None => None,
    }
}

/// Picks the renderer for the client's highest-priority media type.
pub fn select_format(first: &Option<MediaType>) -> (r: Format)
    ensures
        r == format_for(media_view(*first)),
{
    match first {
        None => Format::Html,
        Some(m) => {
            if compare_names(m.type_.as_str(), "text") != 0 {
                Format::Html
            } else if compare_names(m.subtype.as_str(), "text") == 0 {
                Format::Text
            } else if compare_names(m.subtype.as_str(), "json") == 0 {
                Format::Json
            } else if compare_names(m.subtype.as_str(), "xml") == 0 {
                Format::Xml
            } else {
                Format::Html
            }
        },
    }
}

/// The text of a listing in a format.
pub open spec fn rendered(f: Format, root: BaseInfo) -> Seq<char> {
    match f {
        Format::Text => json_text(root.path@, views(root.files@), views(root.dirs@)),
        Format::Json => json_text(root.path@, views(root.files@), views(root.dirs@)),
        Format::Xml => xml_text(root.path@, views(root.files@), views(root.dirs@)),
        Format::Html => html_text(root.path@, views(root.files@), views(root.dirs@)),
    }
}

/// Renders a listing in the format negotiated from the client's first
/// accepted media type; returns the format with the text.
pub fn render_listing(root: &BaseInfo, first: &Option<MediaType>) -> (r: (Format, String))
    requires
        all_wf(root.files@),
        all_wf(root.dirs@),
    ensures
        r.0 == format_for(media_view(*first)),
        r.1@ == rendered(r.0, *root),
{
    let f = select_format(first);
    let text = match f {
        Format::Text => list_text(root),
        Format::Json => list_json(root),
        Format::Xml => list_xml(root),
        Format::Html => list_html(root),
    };
    (f, text)
}

/// A client preferring `text/json` gets the JSON rendering, an object that
/// starts with its `dirs` key and ends with its `path`; one preferring
/// `text/xml` gets the XML rendering, rooted at `<list>`.
pub proof fn lemma_structured_formats(root: BaseInfo)
    ensures
        format_for(Some(("text"@, "json"@))) == Format::Json,
        format_for(Some(("text"@, "xml"@))) == Format::Xml,
        rendered(Format::Json, root).take(9) == "{\"dirs\":["@,
        rendered(Format::Xml, root).take(6) == "<list>"@,
        rendered(Format::Xml, root).skip(rendered(Format::Xml, root).len() - 7) == "</list>"@,
{
    reveal_strlit("text");
    reveal_strlit("json");
    reveal_strlit("xml");
    reveal_strlit("{\"dirs\":[");
    reveal_strlit("<list>");
    reveal_strlit("</list>");
    assert("json"@[0] != "text"@[0]);
    assert("xml"@.len() != "text"@.len());
    let j = rendered(Format::Json, root);
    assert(j.take(9) =~= "{\"dirs\":["@);
    let x = rendered(Format::Xml, root);
    assert(x.take(6) =~= "<list>"@);
    assert(x.skip(x.len() - 7) =~= "</list>"@);
}

} // verus!
