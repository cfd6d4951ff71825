//! The extracted data model and its mathematical counterpart.
use std::collections::VecDeque;
use std::sync::Arc;
use vstd::prelude::*;
use vstd::string::*;

verus! {

/// One extracted item: its global identifier, its vocabulary types and its
/// properties in extraction order.
#[derive(Debug, PartialEq, Eq, PartialOrd, Ord, Default)]
pub struct ItemScope {
    pub itemid: Option<String>,
    pub itemtype: Vec<String>,
    pub items: VecDeque<Property>,
}

/// The value of a property.
#[derive(Debug, PartialEq, Eq, PartialOrd, Ord)]
pub enum ValueType {
    Empty,
    Array(VecDeque<ValueType>),
    Url(String),
    String(String),
    Meter(String),
    Time(String),
    ScopeRef(Arc<ItemScope>),
}

/// A name/value pair of an item.
#[derive(Debug, PartialEq, Eq, PartialOrd, Ord)]
pub struct Property {
    pub name: Name,
    pub value: ValueType,
}

/// A property name: an absolute URL, or a bare token without `:` or `.`.
#[derive(Debug, PartialEq, Eq, PartialOrd, Ord, Clone)]
pub enum Name {
    Url(String),
    String(String),
}

/// Extraction settings: the base address that relative URLs and names are
/// resolved against (empty for none).
#[derive(Debug, Default, Clone, Copy)]
pub struct Config<'a> {
    pub base_url: &'a str,
}

/// Mathematical model of a property name.
pub enum SName {
    Url(Seq<char>),
    Plain(Seq<char>),
}

/// Mathematical model of a property value.
pub enum SValue {
    Empty,
    Array(Seq<SValue>),
    Url(Seq<char>),
    Text(Seq<char>),
    Meter(Seq<char>),
    Time(Seq<char>),
    Item(SItem),
}

/// Mathematical model of a property.
pub struct SProp {
    pub name: SName,
    pub value: SValue,
}

/// Mathematical model of an item.
pub struct SItem {
    pub id: Option<Seq<char>>,
    pub types: Seq<Seq<char>>,
    pub props: Seq<SProp>,
}

pub open spec fn opt_str_view(s: Option<String>) -> Option<Seq<char>> {
    match s {
        Some(t) => Some(t@),
        None => None,
    }
}

pub open spec fn strs_view(v: Seq<String>) -> Seq<Seq<char>> {
    v.map_values(|s: String| s@)
}

pub open spec fn name_view(n: Name) -> SName {
    match n {
        Name::Url(u) => SName::Url(u@),
        Name::String(s) => SName::Plain(s@),
    }
}

/// The model of an item.
pub open spec fn item_view(it: ItemScope) -> SItem
    decreases it, 3nat, 0nat,
{
    SItem {
        id: opt_str_view(it.itemid),
        types: strs_view(it.itemtype@),
        props: props_view(it.items, it.items@.len()),
    }
}

/// The model of the first `k` properties of `ps`.
pub open spec fn props_view(ps: VecDeque<Property>, k: nat) -> Seq<SProp>
    decreases ps, 2nat, k,
{
    if k == 0 || k > ps@.len() {
        seq![]
    } else {
        let p = ps@[k - 1];
        props_view(ps, (k - 1) as nat).push(
            SProp { name: name_view(p.name), value: value_view(p.value) },
        )
    }
}

/// The model of a value.
pub open spec fn value_view(v: ValueType) -> SValue
    decreases v, 1nat, 0nat,
{
    match v {
        ValueType::Empty => SValue::Empty,
        ValueType::Array(a) => SValue::Array(values_view(a, a@.len())),
        ValueType::Url(s) => SValue::Url(s@),
        ValueType::String(s) => SValue::Text(s@),
        ValueType::Meter(s) => SValue::Meter(s@),
        ValueType::Time(s) => SValue::Time(s@),
        ValueType::ScopeRef(it) => SValue::Item(item_view(*it)),
    }
}

/// The model of the first `k` values of `vs`.
pub open spec fn values_view(vs: VecDeque<ValueType>, k: nat) -> Seq<SValue>
    decreases vs, 0nat, k,
{
    if k == 0 || k > vs@.len() {
        seq![]
    } else {
        values_view(vs, (k - 1) as nat).push(value_view(vs@[k - 1]))
    }
}

} // verus!

verus! {

/// Why an extraction failed; each aborts the whole document.
#[derive(Debug, PartialEq, Eq)]
pub enum MicrodataError {
    /// A reference list names an identifier that is already being walked
    /// through references; holds the identifiers being walked at that point.
    CycleDetected(Vec<String>),
    /// A property name holds `:` or `.` but is no absolute URL.
    InvalidPropertyName(String),
    /// A reference identifier does not form a valid `#id` selector; holds the
    /// selector parser's reason.
    SelectorConstructionFailed(String),
}

/// Mathematical model of an error.
pub enum SError {
    Cycle(Set<Seq<char>>),
    InvalidName(Seq<char>),
    Selector(Seq<char>),
}

pub open spec fn error_view(e: MicrodataError) -> SError {
    match e {
        MicrodataError::CycleDetected(ids) => SError::Cycle(strs_view(ids@).to_set()),
        MicrodataError::InvalidPropertyName(t) => SError::InvalidName(t@),
        MicrodataError::SelectorConstructionFailed(m) => SError::Selector(m@),
    }
}

} // verus!

verus! {

/// The `Debug` form of a string: quoted, with escapes.
pub uninterp spec fn debug_quoted(s: Seq<char>) -> Seq<char>;

/// Relies on the `Debug` format of `str`: the string quoted and escaped; a
/// function of `s` alone.
#[verifier::external_body]
fn debug_str(s: &str) -> (r: String)
    ensures
        r@ == debug_quoted(s@),
{
    format!("{:?}", s)
}

/// The identifiers listed as `Some("a"), Some("b")`.
pub open spec fn ids_listing(ids: Seq<Seq<char>>) -> Seq<char>
    decreases ids.len(),
{
    if ids.len() == 0 {
        seq![]
    } else if ids.len() == 1 {
        "Some("@ + debug_quoted(ids[0]) + ")"@
    } else {
        ids_listing(ids.drop_last()) + ", Some("@ + debug_quoted(ids.last()) + ")"@
    }
}

/// The text that describes an error.
pub open spec fn message_of(e: MicrodataError) -> Seq<char> {
    match e {
        MicrodataError::CycleDetected(ids) => "cycle detected! {"@ + ids_listing(strs_view(ids@))
            + "}"@,
        MicrodataError::InvalidPropertyName(t) => "itemprop "@ + t@ + " is not a valid property"@,
        MicrodataError::SelectorConstructionFailed(m) => m@,
    }
}

impl MicrodataError {
    /// The text that describes this error.
    pub fn message(&self) -> (r: String)
        ensures
            r@ == message_of(*self),
    {
        match self {
            MicrodataError::CycleDetected(ids) => {
                let mut out = "cycle detected! {".to_owned();
                let mut k: usize = 0;
                let ghost head = "cycle detected! {"@;
                proof {
                    assert(strs_view(ids@).take(0) =~= seq![]);
                }
                while k < ids.len()
                    invariant
                        k <= ids@.len(),
                        out@ == head + ids_listing(strs_view(ids@).take(k as int)),
                    decreases ids.len() - k,
                {
                    let q = debug_str(ids[k].as_str());
                    let ghost before = out@;
                    if k > 0 {
                        out = out.concat(", Some(");
                    } else {
                        out = out.concat("Some(");
                    }
                    out = out.concat(q.as_str()).concat(")");
                    proof {
                        let t1 = strs_view(ids@).take(k + 1);
                        assert(t1.drop_last() =~= strs_view(ids@).take(k as int));
                        assert(t1.last() == ids@[k as int]@);
                        if k == 0 {
                            assert(t1.len() == 1);
                            assert(ids_listing(strs_view(ids@).take(0)) == Seq::<char>::empty());
                            assert(before =~= head);
                            assert(out@ =~= head + ids_listing(t1));
                        } else {
                            assert(out@ =~= head + ids_listing(t1));
                        }
                    }
                    k = k + 1;
                }
                proof {
                    assert(strs_view(ids@).take(ids@.len() as int) =~= strs_view(ids@));
                }
                out.concat("}")
            },
            MicrodataError::InvalidPropertyName(t) => {
                "itemprop ".to_owned().concat(t.as_str()).concat(" is not a valid property")
            },
            MicrodataError::SelectorConstructionFailed(m) => m.clone(),
        }
    }
}

} // verus!
