//! Resolution of property values and property names.
use crate::dom::{node_attr, text_of, Document, NodeData, SData, SNode};
use crate::domain::{error_view, name_view, value_view, Config, MicrodataError, Name, SError, SName, SValue, ValueType};
use crate::text::{chars_of, string_of, trim, trim_of};
use vstd::prelude::*;
use vstd::string::*;

verus! {

/// The serialization of what `url::Url::parse` makes of a string, or `None`
/// where it is no absolute URL.
pub uninterp spec fn url_of(s: Seq<char>) -> Option<Seq<char>>;

/// Relies on `url::Url::parse` and the `Display` of `url::Url`: whether `s`
/// parses as an absolute URL, and its serialization; a function of `s` alone.
#[verifier::external_body]
pub(crate) fn parse_url(s: &str) -> (r: Option<String>)
    ensures
        r matches Some(u) ==> url_of(s@) == Some(u@),
        r is None ==> url_of(s@) is None,
{
    url::Url::parse(s).ok().map(|u| u.to_string())
}

/// The reason that `scraper::Selector::parse` gives for refusing `#id`, or
/// `None` where it accepts it.
pub uninterp spec fn selector_error(id: Seq<char>) -> Option<Seq<char>>;

/// Relies on `scraper::Selector::parse` on `#id` and the `Display` of its
/// error: whether the selector is accepted, and why not; a function of `id`
/// alone.
#[verifier::external_body]
pub(crate) fn check_id_selector(id: &str) -> (r: Option<String>)
    ensures
        r matches Some(m) ==> selector_error(id@) == Some(m@),
        r is None ==> selector_error(id@) is None,
{
    scraper::Selector::parse(&format!("#{}", id)).err().map(|e| e.to_string())
}

/// `s` without its last character when it starts with `/` (applied before
/// joining it to the base address).
pub open spec fn strip_for_join(s: Seq<char>) -> Seq<char> {
    if s.len() > 0 && s[0] == '/' {
        s.drop_last()
    } else {
        s
    }
}

/// The value of a URL-valued attribute: the absolute URL it parses to;
/// without a base, the trimmed text; with a base, the URL that the base, a
/// `/` and the text join to, or `Empty`.
pub open spec fn url_value(base: Seq<char>, s: Option<Seq<char>>) -> SValue {
    match s {
        None => SValue::Empty,
        Some(s) => match url_of(trim_of(s)) {
            Some(u) => SValue::Url(u),
            None => if base.len() == 0 {
                SValue::Text(trim_of(s))
            } else {
                match url_of(base + seq!['/'] + strip_for_join(s)) {
                    Some(u) => SValue::Url(u),
                    None => SValue::Empty,
                }
            },
        },
    }
}

/// Resolves a URL-valued attribute against the base address.
pub fn serialize_url(config: Config, url_elt: Option<&str>) -> (r: ValueType)
    ensures
        value_view(r) == url_value(config.base_url@, match url_elt {
            Some(s) => Some(s@),
            None => None,
        }),
{
    match url_elt {
        None => ValueType::Empty,
        Some(e) => {
            let t = trim(e);
            match parse_url(t.as_str()) {
                Some(u) => ValueType::Url(u),
                None => {
                    if config.base_url.is_empty() {
                        ValueType::String(t)
                    } else {
                        let mut cs = chars_of(e);
                        let rel = if cs.len() > 0 && cs[0] == '/' {
                            cs.pop();
                            string_of(cs.as_slice())
                        } else {
                            e.to_owned()
                        };
                        proof {
                            reveal_strlit("/");
                            assert(rel@ == strip_for_join(e@));
                        }
                        let abs = config.base_url.to_owned().concat("/").concat(rel.as_str());
                        proof {
                            assert(abs@ =~= config.base_url@ + seq!['/'] + strip_for_join(e@));
                        }
                        match parse_url(abs.as_str()) {
                            Some(u) => ValueType::Url(u),
                            None => ValueType::Empty,
                        }
                    }
                },
            }
        },
    }
}

/// A token holds `:` or `.`, the characters kept for vocabulary-qualified names.
pub open spec fn has_reserved(tok: Seq<char>) -> bool {
    exists|k: int| 0 <= k < tok.len() && (tok[k] == ':' || tok[k] == '.')
}

/// The name that a property-name token resolves to.
pub open spec fn name_of(base: Seq<char>, tok: Seq<char>) -> Result<SName, SError> {
    match url_value(base, Some(tok)) {
        SValue::Url(u) => Ok(SName::Url(u)),
        _ => if !has_reserved(tok) {
            Ok(SName::Plain(tok))
        } else {
            Err(SError::InvalidName(tok))
        },
    }
}

pub open spec fn name_result_view(r: Result<Name, MicrodataError>) -> Result<SName, SError> {
    match r {
        Ok(n) => Ok(name_view(n)),
        Err(e) => Err(error_view(e)),
    }
}

/// Resolves a property-name token: an absolute URL (by itself or against the
/// base) names by URL; else a token without `:` or `.` names itself.
pub fn serialize_name(config: Config, itemprop: String) -> (r: Result<Name, MicrodataError>)
    ensures
        name_result_view(r) == name_of(config.base_url@, itemprop@),
        r matches Err(e) ==> e is InvalidPropertyName,
{
    let v = serialize_url(config, Some(itemprop.as_str()));
    match v {
        ValueType::Url(url) => Ok(Name::Url(url)),
        _ => {
            let ghost uv = url_value(config.base_url@, Some(itemprop@));
            let cs = chars_of(itemprop.as_str());
            let mut k: usize = 0;
            while k < cs.len()
                invariant
                    k <= cs@.len(),
                    cs@ == itemprop@,
                    !(uv is Url),
                    uv == url_value(config.base_url@, Some(itemprop@)),
                    forall|m: int| 0 <= m < k ==> cs@[m] != ':' && cs@[m] != '.',
                decreases cs.len() - k,
            {
                if cs[k] == ':' || cs[k] == '.' {
                    proof {
                        assert(cs@[k as int] == ':' || cs@[k as int] == '.');
                    }
                    return Err(MicrodataError::InvalidPropertyName(itemprop));
                }
                k = k + 1;
            }
            Ok(Name::String(itemprop))
        },
    }
}

/// The tag name of node `i` (empty for a node that is not an element).
pub open spec fn tag_of(doc: Seq<SNode>, i: int) -> Seq<char> {
    match doc[i].data {
        SData::Element(n, _) => n,
        _ => seq![],
    }
}

pub open spec fn is_media_tag(t: Seq<char>) -> bool {
    t == "audio"@ || t == "embed"@ || t == "iframe"@ || t == "img"@ || t == "source"@ || t
        == "track"@ || t == "video"@
}

pub open spec fn is_link_tag(t: Seq<char>) -> bool {
    t == "a"@ || t == "area"@ || t == "link"@
}

/// The value that element `i` gives a property, by its tag name.
pub open spec fn property_value_of(base: Seq<char>, doc: Seq<SNode>, i: int) -> SValue {
    let t = tag_of(doc, i);
    if t == "meta"@ {
        match node_attr(doc, i, "content"@) {
            Some(c) => SValue::Text(c),
            None => SValue::Empty,
        }
    } else if is_media_tag(t) {
        url_value(base, node_attr(doc, i, "src"@))
    } else if is_link_tag(t) {
        url_value(base, node_attr(doc, i, "href"@))
    } else if t == "object"@ {
        url_value(base, node_attr(doc, i, "data"@))
    } else if t == "data"@ {
        match node_attr(doc, i, "value"@) {
            Some(v) => SValue::Text(trim_of(v)),
            None => SValue::Empty,
        }
    } else if t == "meter"@ {
        match node_attr(doc, i, "value"@) {
            Some(v) => SValue::Meter(trim_of(v)),
            None => SValue::Empty,
        }
    } else if t == "time"@ {
        match node_attr(doc, i, "datetime"@) {
            Some(v) => SValue::Time(trim_of(v)),
            None => SValue::Empty,
        }
    } else {
        SValue::Text(text_of(doc, i))
    }
}

fn tag_is(tag: &String, name: &str) -> (r: bool)
    ensures
        r == (tag@ == name@),
{
    let n = name.to_owned();
    tag.eq(&n)
}

/// Resolves the URL-valued attribute `name` of node `i`.
fn url_attr(config: Config, doc: &Document, i: usize, name: &str) -> (r: ValueType)
    requires
        i < doc@.len(),
    ensures
        value_view(r) == url_value(config.base_url@, node_attr(doc@, i as int, name@)),
{
    match doc.attr(i, name) {
        Some(s) => serialize_url(config, Some(s.as_str())),
        None => serialize_url(config, None),
    }
}

/// The value that element `i` gives each of its property names.
pub fn property_value(config: Config, doc: &Document, i: usize) -> (r: ValueType)
    requires
        i < doc@.len(),
    ensures
        value_view(r) == property_value_of(config.base_url@, doc@, i as int),
{
    proof {
        assert(doc@[i as int] == crate::dom::node_view(doc.nodes@[i as int]));
    }
    let tag = match &doc.nodes[i].data {
        NodeData::Element(n, _) => n.clone(),
        _ => String::new(),
    };
    if tag_is(&tag, "meta") {
        match doc.attr(i, "content") {
            Some(c) => ValueType::String(c),
            None => ValueType::Empty,
        }
    } else if tag_is(&tag, "audio") || tag_is(&tag, "embed") || tag_is(&tag, "iframe") || tag_is(
        &tag,
        "img",
    ) || tag_is(&tag, "source") || tag_is(&tag, "track") || tag_is(&tag, "video") {
        url_attr(config, doc, i, "src")
    } else if tag_is(&tag, "a") || tag_is(&tag, "area") || tag_is(&tag, "link") {
        url_attr(config, doc, i, "href")
    } else if tag_is(&tag, "object") {
        url_attr(config, doc, i, "data")
    } else if tag_is(&tag, "data") {
        match doc.attr(i, "value") {
            Some(v) => ValueType::String(trim(v.as_str())),
            None => ValueType::Empty,
        }
    } else if tag_is(&tag, "meter") {
        match doc.attr(i, "value") {
            Some(v) => ValueType::Meter(trim(v.as_str())),
            None => ValueType::Empty,
        }
    } else if tag_is(&tag, "time") {
        match doc.attr(i, "datetime") {
            Some(v) => ValueType::Time(trim(v.as_str())),
            None => ValueType::Empty,
        }
    } else {
        ValueType::String(doc.text(i))
    }
}

} // verus!
