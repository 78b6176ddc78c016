//! The arXiv API's Atom response: its XML nodes as plain values, and the
//! metadata read from the first entry.

use vstd::prelude::*;
use crate::fetch::Fetched;
use crate::model::{opt_view, strings_view};
use crate::text::{
    ascii_lowercase, chars_of, contains_seq, contains_str, parse_i32, parse_i32_chars, slice_chars,
    squish, squish_str, str_eq,
};

verus! {

/// A node of a parsed XML document. The nodes of a document are listed in
/// document order, each with its id and its parent's id.
pub struct XmlNode {
    pub id: usize,
    pub parent: Option<usize>,
    pub element: bool,
    /// The namespace URI of an element's name.
    pub namespace: Option<String>,
    /// The local name of an element ("" for other nodes).
    pub name: String,
    /// An element's text: that of its first child when it is a text node.
    pub text: Option<String>,
    /// The attributes: namespace URI (if any), local name, value.
    pub attributes: Vec<(Option<String>, String, String)>,
}

/// An `XmlNode` with its strings as character sequences.
pub struct XmlNodeView {
    pub id: usize,
    pub parent: Option<usize>,
    pub element: bool,
    pub namespace: Option<Seq<char>>,
    pub name: Seq<char>,
    pub text: Option<Seq<char>>,
    pub attributes: Seq<(Option<Seq<char>>, Seq<char>, Seq<char>)>,
}

impl View for XmlNode {
    type V = XmlNodeView;

    open spec fn view(&self) -> XmlNodeView {
        XmlNodeView {
            id: self.id,
            parent: self.parent,
            element: self.element,
            namespace: opt_view(self.namespace),
            name: self.name@,
            text: opt_view(self.text),
            attributes: self.attributes@.map_values(
                |a: (Option<String>, String, String)| (opt_view(a.0), a.1@, a.2@),
            ),
        }
    }
}

/// The views of the nodes.
pub open spec fn nodes_view(v: Seq<XmlNode>) -> Seq<XmlNodeView> {
    v.map_values(|n: XmlNode| n@)
}

/// The nodes of the XML document `text` in document order (`roxmltree`'s
/// `descendants()` of the root), or nothing when `text` is not well-formed XML.
pub uninterp spec fn xml_document(text: Seq<char>) -> Option<Seq<XmlNodeView>>;

/// `roxmltree::Document::parse`, its nodes listed as `descendants()` yields
/// them, each with its node id, parent id, kind, expanded name, `text()` and
/// attributes. The contract says that the nodes are those of `xml_document`
/// and that an error comes exactly when that is nothing; the error's message
/// is roxmltree's and is left unsaid.
#[verifier::external_body]
fn parse_xml(text: &str) -> (r: Result<Vec<XmlNode>, String>)
    ensures
        match r {
            Ok(v) => xml_document(text@) == Some(nodes_view(v@)),
            Err(_) => xml_document(text@) is None,
        },
{
    let doc = roxmltree::Document::parse(text).map_err(|e| e.to_string())?;
    Ok(doc.descendants().map(|n| XmlNode {
        id: n.id().get_usize(),
        parent: n.parent().map(|p| p.id().get_usize()),
        element: n.is_element(),
        namespace: n.tag_name().namespace().map(String::from),
        name: n.tag_name().name().to_string(),
        text: n.text().map(String::from),
        attributes: n.attributes().map(|a| (a.namespace().map(String::from), a.name().into(), a.value().into())).collect(),
    }).collect())
}

/// The Atom namespace.
pub open spec fn atom_ns() -> Seq<char> {
    "http://www.w3.org/2005/Atom"@
}

/// The index of the first Atom `entry` element.
pub open spec fn first_entry(ns: Seq<XmlNodeView>) -> Option<int>
    decreases ns.len(),
{
    if ns.len() == 0 {
        None
    } else if ns[0].element && ns[0].namespace == Some(atom_ns()) && ns[0].name == "entry"@ {
        Some(0)
    } else {
        match first_entry(ns.drop_first()) {
            Some(k) => Some(k + 1),
            None => None,
        }
    }
}

/// Node `n` is an element child of node `parent` with local name `local`.
pub open spec fn is_child_named(n: XmlNodeView, parent: usize, local: Seq<char>) -> bool {
    n.parent == Some(parent) && n.element && n.name == local
}

/// The index of the first element child of `parent` named `local`.
pub open spec fn first_child(ns: Seq<XmlNodeView>, parent: usize, local: Seq<char>) -> Option<int>
    decreases ns.len(),
{
    if ns.len() == 0 {
        None
    } else if is_child_named(ns[0], parent, local) {
        Some(0)
    } else {
        match first_child(ns.drop_first(), parent, local) {
            Some(k) => Some(k + 1),
            None => None,
        }
    }
}

/// The text of the first child named `local`, whitespace collapsed, if not empty.
pub open spec fn child_text(ns: Seq<XmlNodeView>, parent: usize, local: Seq<char>) -> Option<
    Seq<char>,
> {
    match first_child(ns, parent, local) {
        Some(k) => match ns[k].text {
            Some(t) => if squish(t).len() > 0 {
                Some(squish(t))
            } else {
                None
            },
            None => None,
        },
        None => None,
    }
}

/// The authors of an entry: for each `author` child in order, the collapsed
/// text of its first `name` child, empty names left out.
pub open spec fn entry_authors(all: Seq<XmlNodeView>, ns: Seq<XmlNodeView>, entry: usize) -> Seq<
    Seq<char>,
>
    decreases ns.len(),
{
    if ns.len() == 0 {
        seq![]
    } else {
        let rest = entry_authors(all, ns.drop_last(), entry);
        let a = ns.last();
        if is_child_named(a, entry, "author"@) {
            match first_child(all, a.id, "name"@) {
                Some(k) => match all[k].text {
                    Some(t) => if squish(t).len() > 0 {
                        rest.push(squish(t))
                    } else {
                        rest
                    },
                    None => rest,
                },
                None => rest,
            }
        } else {
            rest
        }
    }
}

/// The value of the attribute without namespace named `name`.
pub open spec fn attribute(
    attrs: Seq<(Option<Seq<char>>, Seq<char>, Seq<char>)>,
    name: Seq<char>,
) -> Option<Seq<char>>
    decreases attrs.len(),
{
    if attrs.len() == 0 {
        None
    } else if attrs[0].0 is None && attrs[0].1 == name {
        Some(attrs[0].2)
    } else {
        attribute(attrs.drop_first(), name)
    }
}

/// The PDF and abstract-page links of an entry: the `href` of its `link`
/// children titled "pdf", and of those with rel "alternate"; the last of
/// each counts.
pub open spec fn entry_links(ns: Seq<XmlNodeView>, entry: usize) -> (
    Option<Seq<char>>,
    Option<Seq<char>>,
)
    decreases ns.len(),
{
    if ns.len() == 0 {
        (None, None)
    } else {
        let (pdf, abs) = entry_links(ns.drop_last(), entry);
        let l = ns.last();
        if is_child_named(l, entry, "link"@) {
            let href = match attribute(l.attributes, "href"@) {
                Some(h) => h,
                None => seq![],
            };
            if attribute(l.attributes, "title"@) == Some("pdf"@) {
                (Some(href), abs)
            } else if attribute(l.attributes, "rel"@) == Some("alternate"@) {
                (pdf, Some(href))
            } else {
                (pdf, abs)
            }
        } else {
            (pdf, abs)
        }
    }
}

/// The year in the first four characters of a publication date.
pub open spec fn year_in(published: Option<Seq<char>>) -> Option<i32> {
    match published {
        Some(p) => if p.len() >= 4 {
            match parse_i32(p.take(4)) {
                Some(y) => Some(y as i32),
                None => None,
            }
        } else {
            None
        },
        None => None,
    }
}

/// The title or id of an entry (empty when missing).
pub open spec fn entry_text(ns: Seq<XmlNodeView>, entry: usize, local: Seq<char>) -> Seq<char> {
    match child_text(ns, entry, local) {
        Some(t) => t,
        None => seq![],
    }
}

/// The entry is arXiv's report of an error.
pub open spec fn is_error_entry(ns: Seq<XmlNodeView>, entry: usize) -> bool {
    ascii_lowercase(entry_text(ns, entry, "title"@)) == "error"@ || contains_seq(
        entry_text(ns, entry, "id"@),
        "/api/errors"@,
    )
}

/// What an arXiv response gives: the error for a missing entry, an error
/// entry or a missing title; else the entry's metadata, links falling back
/// to the abs and pdf pages of `base_id`.
pub open spec fn arxiv_result(
    ns: Seq<XmlNodeView>,
    fetch_id: Seq<char>,
    base_id: Seq<char>,
    r: Result<Fetched, String>,
) -> bool {
    match first_entry(ns) {
        None => r matches Err(e) && e@ == "arXiv returned no entry for "@ + fetch_id
            + " — is the id correct?"@,
        Some(k) => {
            let entry = ns[k].id;
            if is_error_entry(ns, entry) {
                r matches Err(e) && e@ == "arXiv error for "@ + fetch_id + ": "@ + match child_text(
                    ns,
                    entry,
                    "summary"@,
                ) {
                    Some(d) => d,
                    None => "unknown error"@,
                }
            } else if entry_text(ns, entry, "title"@).len() == 0 {
                r matches Err(e) && e@ == "arXiv entry for "@ + fetch_id + " has no title"@
            } else {
                r matches Ok(f) && {
                    let (pdf, abs) = entry_links(ns, entry);
                    &&& f.title@ == entry_text(ns, entry, "title"@)
                    &&& strings_view(f.authors@) == entry_authors(ns, ns, entry)
                    &&& f.year == year_in(child_text(ns, entry, "published"@))
                    &&& opt_view(f.venue) == child_text(ns, entry, "journal_ref"@)
                    &&& opt_view(f.abstract_) == child_text(ns, entry, "summary"@)
                    &&& opt_view(f.url) == Some(
                        match abs {
                            Some(u) => u,
                            None => "https://arxiv.org/abs/"@ + base_id,
                        },
                    )
                    &&& opt_view(f.pdf_url) == Some(
                        match pdf {
                            Some(u) => u,
                            None => "https://arxiv.org/pdf/"@ + base_id,
                        },
                    )
                    &&& opt_view(f.doi) == child_text(ns, entry, "doi"@)
                    &&& opt_view(f.arxiv_id) == Some(base_id)
                }
            }
        },
    }
}

fn first_entry_exec(nodes: &Vec<XmlNode>) -> (r: Option<usize>)
    ensures
        match r {
            Some(k) => first_entry(nodes_view(nodes@)) == Some(k as int) && k < nodes@.len(),
            None => first_entry(nodes_view(nodes@)) is None,
        },
{
    let ghost s = nodes_view(nodes@);
    let mut i: usize = 0;
    assert(s.skip(0) =~= s);
    while i < nodes.len()
        invariant
            i <= s.len() == nodes@.len(),
            s == nodes_view(nodes@),
            first_entry(s) == match first_entry(s.skip(i as int)) {
                Some(k) => Some(k + i),
                None => None::<int>,
            },
        decreases nodes.len() - i,
    {
        assert(s.skip(i as int)[0] == nodes@[i as int]@);
        assert(s.skip(i as int).drop_first() =~= s.skip(i + 1));
        let n = &nodes[i];
        let atom = match &n.namespace {
            Some(u) => str_eq(u.as_str(), "http://www.w3.org/2005/Atom"),
            None => false,
        };
        if n.element && atom && str_eq(n.name.as_str(), "entry") {
            return Some(i);
        }
        i += 1;
    }
    assert(s.skip(i as int) =~= seq![]);
    None
}

fn first_child_exec(nodes: &Vec<XmlNode>, parent: usize, local: &str) -> (r: Option<usize>)
    ensures
        match r {
            Some(k) => first_child(nodes_view(nodes@), parent, local@) == Some(k as int) && k
                < nodes@.len(),
            None => first_child(nodes_view(nodes@), parent, local@) is None,
        },
{
    let ghost s = nodes_view(nodes@);
    let mut i: usize = 0;
    assert(s.skip(0) =~= s);
    while i < nodes.len()
        invariant
            i <= s.len() == nodes@.len(),
            s == nodes_view(nodes@),
            first_child(s, parent, local@) == match first_child(s.skip(i as int), parent, local@) {
                Some(k) => Some(k + i),
                None => None::<int>,
            },
        decreases nodes.len() - i,
    {
        assert(s.skip(i as int)[0] == nodes@[i as int]@);
        assert(s.skip(i as int).drop_first() =~= s.skip(i + 1));
        let n = &nodes[i];
        if n.parent == Some(parent) && n.element && str_eq(n.name.as_str(), local) {
            return Some(i);
        }
        i += 1;
    }
    assert(s.skip(i as int) =~= seq![]);
    None
}

fn text_of_node(n: &XmlNode) -> (r: Option<String>)
    ensures
        opt_view(r) == match n@.text {
            Some(t) => if squish(t).len() > 0 {
                Some(squish(t))
            } else {
                None
            },
            None => None,
        },
{
    match &n.text {
        Some(t) => {
            let q = squish_str(t.as_str());
            if q.as_str().is_empty() {
                None
            } else {
                Some(q)
            }
        },
        None => None,
    }
}

fn child_text_exec(nodes: &Vec<XmlNode>, parent: usize, local: &str) -> (r: Option<String>)
    ensures
        opt_view(r) == child_text(nodes_view(nodes@), parent, local@),
{
    match first_child_exec(nodes, parent, local) {
        Some(k) => {
            assert(nodes_view(nodes@)[k as int] == nodes@[k as int]@);
            text_of_node(&nodes[k])
        },
        None => None,
    }
}

fn attribute_exec<'a>(attrs: &'a Vec<(Option<String>, String, String)>, name: &str) -> (r: Option<&'a str>)
    ensures
        match r {
            Some(v) => attribute(
                attrs@.map_values(|a: (Option<String>, String, String)| (opt_view(a.0), a.1@, a.2@)),
                name@,
            ) == Some(v@),
            None => attribute(
                attrs@.map_values(|a: (Option<String>, String, String)| (opt_view(a.0), a.1@, a.2@)),
                name@,
            ) is None,
        },
{
    let ghost s = attrs@.map_values(|a: (Option<String>, String, String)| (opt_view(a.0), a.1@, a.2@));
    let mut i: usize = 0;
    assert(s.skip(0) =~= s);
    while i < attrs.len()
        invariant
            i <= s.len() == attrs@.len(),
            s == attrs@.map_values(|a: (Option<String>, String, String)| (opt_view(a.0), a.1@, a.2@)),
            attribute(s, name@) == attribute(s.skip(i as int), name@),
        decreases attrs.len() - i,
    {
        assert(s.skip(i as int)[0] == s[i as int]);
        assert(s.skip(i as int).drop_first() =~= s.skip(i + 1));
        let a = &attrs[i];
        if a.0.is_none() && str_eq(a.1.as_str(), name) {
            return Some(a.2.as_str());
        }
        i += 1;
    }
    assert(s.skip(i as int) =~= seq![]);
    None
}

fn entry_authors_exec(nodes: &Vec<XmlNode>, entry: usize) -> (r: Vec<String>)
    ensures
        strings_view(r@) == entry_authors(nodes_view(nodes@), nodes_view(nodes@), entry),
{
    let ghost all = nodes_view(nodes@);
    let mut out: Vec<String> = Vec::new();
    let mut i: usize = 0;
    while i < nodes.len()
        invariant
            i <= nodes@.len() == all.len(),
            all == nodes_view(nodes@),
            strings_view(out@) == entry_authors(all, all.take(i as int), entry),
        decreases nodes.len() - i,
    {
        let ghost t = all.take(i + 1);
        assert(t.drop_last() =~= all.take(i as int));
        assert(t.last() == nodes@[i as int]@);
        let ghost before = strings_view(out@);
        let a = &nodes[i];
        if a.parent == Some(entry) && a.element && str_eq(a.name.as_str(), "author") {
            match first_child_exec(nodes, a.id, "name") {
                Some(k) => {
                    assert(all[k as int] == nodes@[k as int]@);
                    match text_of_node(&nodes[k]) {
                        Some(name) => {
                            let ghost nv = name@;
                            out.push(name);
                            assert(strings_view(out@) =~= before.push(nv));
                        },
                        None => {},
                    }
                },
                None => {},
            }
        }
        i += 1;
    }
    assert(all.take(i as int) =~= all);
    out
}

fn entry_links_exec(nodes: &Vec<XmlNode>, entry: usize) -> (r: (Option<String>, Option<String>))
    ensures
        (opt_view(r.0), opt_view(r.1)) == entry_links(nodes_view(nodes@), entry),
{
    let ghost all = nodes_view(nodes@);
    let mut pdf: Option<String> = None;
    let mut abs: Option<String> = None;
    let mut i: usize = 0;
    while i < nodes.len()
        invariant
            i <= nodes@.len() == all.len(),
            all == nodes_view(nodes@),
            (opt_view(pdf), opt_view(abs)) == entry_links(all.take(i as int), entry),
        decreases nodes.len() - i,
    {
        let ghost t = all.take(i + 1);
        assert(t.drop_last() =~= all.take(i as int));
        assert(t.last() == nodes@[i as int]@);
        let l = &nodes[i];
        if l.parent == Some(entry) && l.element && str_eq(l.name.as_str(), "link") {
            let href = match attribute_exec(&l.attributes, "href") {
                Some(h) => h.to_owned(),
                None => String::new(),
            };
            let titled_pdf = match attribute_exec(&l.attributes, "title") {
                Some(v) => str_eq(v, "pdf"),
                None => false,
            };
            let alternate = match attribute_exec(&l.attributes, "rel") {
                Some(v) => str_eq(v, "alternate"),
                None => false,
            };
            if titled_pdf {
                pdf = Some(href);
            } else if alternate {
                abs = Some(href);
            }
        }
        i += 1;
    }
    assert(all.take(i as int) =~= all);
    (pdf, abs)
}

fn with_base(prefix: &str, base_id: &str) -> (r: String)
    ensures
        r@ == prefix@ + base_id@,
{
    let mut s = prefix.to_owned();
    s.append(base_id);
    s
}

/// The metadata of the first entry of an arXiv response, given its nodes.
pub fn arxiv_entry(nodes: &Vec<XmlNode>, fetch_id: &str, base_id: &str) -> (r: Result<
    Fetched,
    String,
>)
    ensures
        arxiv_result(nodes_view(nodes@), fetch_id@, base_id@, r),
{
    let ghost ns = nodes_view(nodes@);
    let k = match first_entry_exec(nodes) {
        Some(k) => k,
        None => {
            let mut e = "arXiv returned no entry for ".to_owned();
            e.append(fetch_id);
            e.append(" — is the id correct?");
            return Err(e);
        },
    };
    assert(ns[k as int] == nodes@[k as int]@);
    let entry = nodes[k].id;
    let title = match child_text_exec(nodes, entry, "title") {
        Some(t) => t,
        None => String::new(),
    };
    let entry_id = match child_text_exec(nodes, entry, "id") {
        Some(t) => t,
        None => String::new(),
    };
    let tl = lowercase_ascii_string(title.as_str());
    let idc = chars_of(entry_id.as_str());
    if str_eq(tl.as_str(), "error") || contains_str(idc.as_slice(), "/api/errors") {
        let detail = match child_text_exec(nodes, entry, "summary") {
            Some(d) => d,
            None => "unknown error".to_owned(),
        };
        let mut e = "arXiv error for ".to_owned();
        e.append(fetch_id);
        e.append(": ");
        e.append(detail.as_str());
        return Err(e);
    }
    if title.as_str().is_empty() {
        let mut e = "arXiv entry for ".to_owned();
        e.append(fetch_id);
        e.append(" has no title");
        return Err(e);
    }
    let authors = entry_authors_exec(nodes, entry);
    let published = child_text_exec(nodes, entry, "published");
    let year = match &published {
        Some(p) => {
            let pc = chars_of(p.as_str());
            if pc.len() >= 4 {
                let head = slice_chars(pc.as_slice(), 0, 4);
                assert(head@ =~= pc@.take(4));
                match parse_i32_chars(head.as_slice()) {
                    Some(y) => Some(y),
                    None => None,
                }
            } else {
                None
            }
        },
        None => None,
    };
    let (pdf, abs) = entry_links_exec(nodes, entry);
    let url = match abs {
        Some(u) => u,
        None => with_base("https://arxiv.org/abs/", base_id),
    };
    let pdf_url = match pdf {
        Some(u) => u,
        None => with_base("https://arxiv.org/pdf/", base_id),
    };
    Ok(
        Fetched {
            title,
            authors,
            year,
            venue: child_text_exec(nodes, entry, "journal_ref"),
            abstract_: child_text_exec(nodes, entry, "summary"),
            url: Some(url),
            pdf_url: Some(pdf_url),
            doi: child_text_exec(nodes, entry, "doi"),
            arxiv_id: Some(base_id.to_owned()),
        },
    )
}

fn lowercase_ascii_string(s: &str) -> (r: String)
    ensures
        r@ == ascii_lowercase(s@),
{
    let v = chars_of(s);
    let mut out: Vec<char> = Vec::new();
    let mut i: usize = 0;
    while i < v.len()
        invariant
            i <= v@.len(),
            v@ == s@,
            out@ == ascii_lowercase(s@.take(i as int)),
        decreases v.len() - i,
    {
        out.push(crate::text::to_ascii_lower(v[i]));
        assert(out@ =~= ascii_lowercase(s@.take(i + 1)));
        i += 1;
    }
    assert(s@.take(i as int) =~= s@);
    string_of_chars(out)
}

fn string_of_chars(v: Vec<char>) -> (r: String)
    ensures
        r@ == v@,
{
    crate::text::string_of(v.as_slice())
}

/// The arXiv API query for one id.
pub fn arxiv_query_url(fetch_id: &str) -> (r: String)
    ensures
        r@ == "https://export.arxiv.org/api/query?id_list="@ + fetch_id@ + "&max_results=1"@,
{
    let mut s = "https://export.arxiv.org/api/query?id_list=".to_owned();
    s.append(fetch_id);
    s.append("&max_results=1");
    s
}

/// The metadata of an arXiv API response body: its XML parsed, then the
/// first entry read; a body that is not XML is an error.
pub fn read_arxiv(body: &str, fetch_id: &str, base_id: &str) -> (r: Result<Fetched, String>)
    ensures
        match xml_document(body@) {
            Some(ns) => arxiv_result(ns, fetch_id@, base_id@, r),
            None => r matches Err(m) && crate::text::starts_with(m@, "parsing arXiv response XML: "@),
        },
{
    match parse_xml(body) {
        Ok(nodes) => arxiv_entry(&nodes, fetch_id, base_id),
        Err(e) => {
            let mut m = "parsing arXiv response XML: ".to_owned();
            let ghost head = m@;
            m.append(e.as_str());
            assert(m@.take(head.len() as int) =~= head);
            Err(m)
        },
    }
}

} // verus!
