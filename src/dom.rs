//! The document tree that extraction walks: nodes in document order, each
//! knowing its parent, built from the open/close events of an HTML parse.
use crate::text::{trim, trim_of};
use ego_tree::iter::Edge;
use scraper::Node;
use vstd::prelude::*;

verus! {

/// What a node holds: an element with its tag name and attributes, a text
/// node, or anything else (document root, doctype, comment).
pub enum NodeData {
    Element(String, Vec<(String, String)>),
    Text(String),
    Other,
}

/// One step of a depth-first walk over a parsed document.
pub enum Event {
    Open(NodeData),
    Close,
}

/// A node and the index of its parent (the root is its own parent).
pub struct DomNode {
    pub parent: usize,
    pub data: NodeData,
}

/// A document: its nodes in document order; node 0 is the root.
pub struct Document {
    pub nodes: Vec<DomNode>,
}

pub enum SData {
    Element(Seq<char>, Seq<(Seq<char>, Seq<char>)>),
    Text(Seq<char>),
    Other,
}

pub enum SEvent {
    Open(SData),
    Close,
}

pub struct SNode {
    pub parent: int,
    pub data: SData,
}

pub open spec fn data_view(d: NodeData) -> SData {
    match d {
        NodeData::Element(n, a) => SData::Element(
            n@,
            a@.map_values(|p: (String, String)| (p.0@, p.1@)),
        ),
        NodeData::Text(t) => SData::Text(t@),
        NodeData::Other => SData::Other,
    }
}

pub open spec fn event_view(e: Event) -> SEvent {
    match e {
        Event::Open(d) => SEvent::Open(data_view(d)),
        Event::Close => SEvent::Close,
    }
}

pub open spec fn events_view(es: Seq<Event>) -> Seq<SEvent> {
    es.map_values(|e: Event| event_view(e))
}

pub open spec fn node_view(n: DomNode) -> SNode {
    SNode { parent: n.parent as int, data: data_view(n.data) }
}

impl View for Document {
    type V = Seq<SNode>;

    open spec fn view(&self) -> Seq<SNode> {
        self.nodes@.map_values(|n: DomNode| node_view(n))
    }
}

/// The events of the depth-first walk over the tree that `scraper` builds
/// from an HTML text.
pub uninterp spec fn parsed_events(html: Seq<char>) -> Seq<SEvent>;

/// Relies on `scraper::Html::parse_document` and `ego_tree`'s `traverse`: the
/// tree that the HTML parser builds from `html` (a function of the text
/// alone), walked depth first, each node opened and later closed.
#[verifier::external_body]
pub(crate) fn html_events(html: &str) -> (r: Vec<Event>)
    ensures
        events_view(r@) == parsed_events(html@),
{
    let document = scraper::Html::parse_document(html);
    document.tree.root().traverse().map(|edge| match edge {
        Edge::Open(node) => Event::Open(match node.value() {
            Node::Element(e) => NodeData::Element(
                e.name().to_string(),
                e.attrs().map(|(k, v)| (k.to_string(), v.to_string())).collect(),
            ),
            Node::Text(t) => NodeData::Text(t.to_string()),
            Node::Document | Node::Fragment | Node::Doctype(_) | Node::Comment(_)
            | Node::ProcessingInstruction(_) => NodeData::Other,
        }),
        Edge::Close(_) => Event::Close,
    }).collect()
}

/// The nodes and the stack of open nodes after one more event.
pub open spec fn build_step(st: (Seq<SNode>, Seq<int>), e: SEvent) -> (Seq<SNode>, Seq<int>) {
    match e {
        SEvent::Open(d) => {
            let parent = if st.1.len() == 0 { 0 } else { st.1.last() };
            (st.0.push(SNode { parent, data: d }), st.1.push(st.0.len() as int))
        },
        SEvent::Close => (st.0, if st.1.len() == 0 { st.1 } else { st.1.drop_last() }),
    }
}

pub open spec fn build_from(es: Seq<SEvent>) -> (Seq<SNode>, Seq<int>)
    decreases es.len(),
{
    if es.len() == 0 {
        (seq![], seq![])
    } else {
        build_step(build_from(es.drop_last()), es.last())
    }
}

/// The tree that a sequence of events describes: each opened node is a child
/// of the innermost node still open.
pub open spec fn tree_of(es: Seq<SEvent>) -> Seq<SNode> {
    build_from(es).0
}

/// The value of the first attribute named `name` among `attrs[k..]`.
pub open spec fn attr_from(attrs: Seq<(Seq<char>, Seq<char>)>, name: Seq<char>, k: int) -> Option<Seq<char>>
    decreases attrs.len() - k,
{
    if k < 0 || k >= attrs.len() {
        None
    } else if attrs[k].0 == name {
        Some(attrs[k].1)
    } else {
        attr_from(attrs, name, k + 1)
    }
}

/// The value of attribute `name` of node `i` (`None` for a node that is not
/// an element).
pub open spec fn node_attr(doc: Seq<SNode>, i: int, name: Seq<char>) -> Option<Seq<char>> {
    match doc[i].data {
        SData::Element(_, attrs) => attr_from(attrs, name, 0),
        _ => None,
    }
}

pub open spec fn is_element(doc: Seq<SNode>, i: int) -> bool {
    doc[i].data is Element
}

/// Node `i` is `j` or one of its ancestors.
pub open spec fn ancestor_or_self(doc: Seq<SNode>, j: int, i: int) -> bool
    decreases j,
{
    if j <= i {
        j == i
    } else {
        let p = doc[j].parent;
        if p < 0 || p >= j {
            false
        } else {
            ancestor_or_self(doc, p, i)
        }
    }
}

/// What text node `j` adds to the text of element `i`: its trimmed text, when
/// it lies below `i` and is not blank.
pub open spec fn text_piece(doc: Seq<SNode>, i: int, j: int) -> Seq<char> {
    if j > i && ancestor_or_self(doc, j, i) {
        match doc[j].data {
            SData::Text(t) => trim_of(t),
            _ => seq![],
        }
    } else {
        seq![]
    }
}

/// The pieces of text of element `i` from node `j` on.
pub open spec fn text_from(doc: Seq<SNode>, i: int, j: int) -> Seq<char>
    decreases doc.len() - j,
{
    if j < 0 || j >= doc.len() {
        seq![]
    } else {
        text_piece(doc, i, j) + text_from(doc, i, j + 1)
    }
}

/// The text of element `i`: its descendant text nodes, each trimmed, joined.
pub open spec fn text_of(doc: Seq<SNode>, i: int) -> Seq<char> {
    text_from(doc, i, i + 1)
}

impl Document {
    /// Builds the tree that `events` describe.
    pub fn from_events(events: Vec<Event>) -> (r: Document)
        ensures
            r@ == tree_of(events_view(events@)),
    {
        let ghost es = events_view(events@);
        let mut events = events;
        let mut nodes: Vec<DomNode> = Vec::new();
        let mut stack: Vec<usize> = Vec::new();
        let mut i: usize = 0;
        let n = events.len();
        proof {
            assert(es.take(0) =~= seq![]);
        }
        while i < n
            invariant
                n == events@.len(),
                i <= n,
                forall|k: int| i <= k < n ==> event_view(#[trigger] events@[k]) == es[k],
                es.len() == n,
                nodes@.len() <= i,
                nodes@.map_values(|x: DomNode| node_view(x)) == build_from(es.take(i as int)).0,
                stack@.map_values(|x: usize| x as int) == build_from(es.take(i as int)).1,
            decreases n - i,
        {
            let mut e = Event::Close;
            events.set_and_swap(i, &mut e);
            proof {
                assert(es.take(i + 1).drop_last() =~= es.take(i as int));
                assert(es.take(i + 1).last() == es[i as int]);
            }
            let ghost nodes0 = nodes@;
            let ghost stack0 = stack@;
            match e {
                Event::Open(d) => {
                    let parent: usize = if stack.len() == 0 {
                        0
                    } else {
                        stack[stack.len() - 1]
                    };
                    let idx = nodes.len();
                    nodes.push(DomNode { parent, data: d });
                    stack.push(idx);
                    proof {
                        assert(nodes@.map_values(|x: DomNode| node_view(x)) =~= nodes0.map_values(
                            |x: DomNode| node_view(x),
                        ).push(node_view(DomNode { parent, data: d })));
                        assert(stack@.map_values(|x: usize| x as int) =~= stack0.map_values(
                            |x: usize| x as int,
                        ).push(idx as int));
                    }
                },
                Event::Close => {
                    if stack.len() > 0 {
                        stack.pop();
                        proof {
                            assert(stack@.map_values(|x: usize| x as int) =~= stack0.map_values(
                                |x: usize| x as int,
                            ).drop_last());
                        }
                    }
                },
            }
            i = i + 1;
        }
        proof {
            assert(es.take(n as int) =~= es);
        }
        Document { nodes }
    }

    /// Parses an HTML text into its tree.
    pub fn parse(html: &str) -> (r: Document)
        ensures
            r@ == tree_of(parsed_events(html@)),
    {
        Document::from_events(html_events(html))
    }

    /// The value of attribute `name` of node `i`.
    pub fn attr(&self, i: usize, name: &str) -> (r: Option<String>)
        requires
            i < self@.len(),
        ensures
            r matches Some(v) ==> node_attr(self@, i as int, name@) == Some(v@),
            r is None ==> node_attr(self@, i as int, name@) is None,
    {
        proof {
            assert(self@[i as int] == node_view(self.nodes@[i as int]));
        }
        match &self.nodes[i].data {
            NodeData::Element(_, attrs) => {
                let key = name.to_owned();
                let ghost sa = attrs@.map_values(|p: (String, String)| (p.0@, p.1@));
                proof {
                    assert(node_attr(self@, i as int, name@) == attr_from(sa, name@, 0));
                }
                let mut k: usize = 0;
                while k < attrs.len()
                    invariant
                        k <= attrs@.len(),
                        key@ == name@,
                        sa == attrs@.map_values(|p: (String, String)| (p.0@, p.1@)),
                        attr_from(sa, name@, 0) == attr_from(sa, name@, k as int),
                        node_attr(self@, i as int, name@) == attr_from(sa, name@, 0),
                    decreases attrs.len() - k,
                {
                    if attrs[k].0 == key {
                        let v = attrs[k].1.clone();
                        proof {
                            assert(sa[k as int] == (attrs@[k as int].0@, attrs@[k as int].1@));
                        }
                        return Some(v);
                    }
                    proof {
                        assert(sa[k as int] == (attrs@[k as int].0@, attrs@[k as int].1@));
                    }
                    k = k + 1;
                }
                None
            },
            _ => None,
        }
    }

    /// Whether node `i` is `j` or one of its ancestors.
    pub fn is_ancestor_or_self(&self, j: usize, i: usize) -> (r: bool)
        requires
            j < self@.len(),
        ensures
            r == ancestor_or_self(self@, j as int, i as int),
    {
        let mut k = j;
        while k > i
            invariant
                k < self@.len(),
                ancestor_or_self(self@, k as int, i as int) == ancestor_or_self(self@, j as int, i as int),
            decreases k,
        {
            let p = self.nodes[k].parent;
            if p >= k {
                return false;
            }
            k = p;
        }
        k == i
    }

    /// The text of element `i`: its descendant text nodes that are not blank,
    /// each trimmed, joined with nothing between them.
    pub fn text(&self, i: usize) -> (r: String)
        requires
            i < self@.len(),
        ensures
            r@ == text_of(self@, i as int),
    {
        proof {
            assert(self@.len() == self.nodes@.len());
        }
        let n = self.nodes.len();
        let mut out = String::new();
        let mut j = i + 1;
        while j < self.nodes.len()
            invariant
                i < j <= self@.len(),
                out@ + text_from(self@, i as int, j as int) == text_of(self@, i as int),
            decreases self@.len() - j,
        {
            let ghost before = out@;
            if self.is_ancestor_or_self(j, i) {
                if let NodeData::Text(t) = &self.nodes[j].data {
                    let tr = trim(t.as_str());
                    out.append(tr.as_str());
                }
            }
            proof {
                assert(before + text_from(self@, i as int, j as int) =~= out@ + text_from(self@, i as int, j + 1));
            }
            j = j + 1;
        }
        out
    }
}

} // verus!
