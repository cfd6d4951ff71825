//! The extraction walk, stated over the mathematical models.
use crate::dom::{node_attr, SNode};
use crate::domain::{SError, SItem, SName, SProp, SValue};
use crate::resolve::{name_of, property_value_of, selector_error, url_of};
use crate::text::{tokens, trim_of};
use vstd::prelude::*;

verus! {

/// The properties of the item being built and the items found so far.
pub struct SState {
    pub parent: Option<Seq<SProp>>,
    pub items: Seq<SItem>,
}

/// The index of the first property named `n` among `props[k..]`, or
/// `props.len()` where there is none.
pub open spec fn name_index_from(props: Seq<SProp>, n: SName, k: int) -> int
    decreases props.len() - k,
{
    if k < 0 || k >= props.len() {
        props.len() as int
    } else if props[k].name == n {
        k
    } else {
        name_index_from(props, n, k + 1)
    }
}

pub proof fn lemma_name_index(props: Seq<SProp>, n: SName, k: int)
    requires
        0 <= k,
    ensures
        k <= name_index_from(props, n, k) <= props.len() || props.len() < k,
        name_index_from(props, n, k) < props.len() ==> props[name_index_from(props, n, k)].name == n,
    decreases props.len() - k,
{
    if k < props.len() && props[k].name != n {
        lemma_name_index(props, n, k + 1);
    }
}

/// A value merged with a further value of the same name: the values, in
/// arrival order, as an array.
pub open spec fn merged_value(old: SValue, v: SValue) -> SValue {
    match old {
        SValue::Array(xs) => SValue::Array(xs.push(v)),
        _ => SValue::Array(seq![old, v]),
    }
}

/// `props` with the property `n: v` merged in: added to an existing property
/// of that name, else appended.
pub open spec fn merge_prop(props: Seq<SProp>, n: SName, v: SValue) -> Seq<SProp> {
    let k = name_index_from(props, n, 0);
    if k < props.len() {
        props.update(k, SProp { name: n, value: merged_value(props[k].value, v) })
    } else {
        props.push(SProp { name: n, value: v })
    }
}

/// `props` with `v` merged in under each of `names[k..]`, in order; fails on
/// the first name that does not resolve.
pub open spec fn add_names(
    base: Seq<char>,
    names: Seq<Seq<char>>,
    k: int,
    props: Seq<SProp>,
    v: SValue,
) -> Result<Seq<SProp>, SError>
    decreases names.len() - k,
{
    if k < 0 || k >= names.len() {
        Ok(props)
    } else {
        match name_of(base, names[k]) {
            Err(e) => Err(e),
            Ok(n) => add_names(base, names, k + 1, merge_prop(props, n, v), v),
        }
    }
}

/// The tokens that parse as absolute URLs, in order.
pub open spec fn absolute_urls(ts: Seq<Seq<char>>) -> Seq<Seq<char>>
    decreases ts.len(),
{
    if ts.len() == 0 {
        seq![]
    } else {
        let r = absolute_urls(ts.drop_last());
        if url_of(ts.last()) is Some {
            r.push(ts.last())
        } else {
            r
        }
    }
}

/// The identifier of node `i`: its `id` attribute.
pub open spec fn node_id(doc: Seq<SNode>, i: int) -> Option<Seq<char>> {
    node_attr(doc, i, "id"@)
}

/// How many of the first `k` nodes carry an identifier outside `active`.
pub open spec fn fresh(doc: Seq<SNode>, active: Set<Seq<char>>, k: int) -> nat
    decreases k,
{
    if k <= 0 {
        0
    } else {
        fresh(doc, active, k - 1) + match node_id(doc, k - 1) {
            Some(s) => if active.contains(s) {
                0nat
            } else {
                1nat
            },
            None => 0nat,
        }
    }
}

pub proof fn lemma_fresh_insert_le(doc: Seq<SNode>, active: Set<Seq<char>>, tok: Seq<char>, k: int)
    ensures
        fresh(doc, active.insert(tok), k) <= fresh(doc, active, k),
    decreases k,
{
    if k > 0 {
        lemma_fresh_insert_le(doc, active, tok, k - 1);
    }
}

pub proof fn lemma_fresh_insert_lt(
    doc: Seq<SNode>,
    active: Set<Seq<char>>,
    tok: Seq<char>,
    m: int,
    k: int,
)
    requires
        !active.contains(tok),
        0 <= m < k,
        node_id(doc, m) == Some(tok),
    ensures
        fresh(doc, active.insert(tok), k) < fresh(doc, active, k),
    decreases k,
{
    if m < k - 1 {
        lemma_fresh_insert_lt(doc, active, tok, m, k - 1);
    } else {
        lemma_fresh_insert_le(doc, active, tok, k - 1);
    }
}

/// The item that element `i` starts, before any property is added.
pub open spec fn new_item(doc: Seq<SNode>, i: int) -> SItem {
    SItem {
        id: match node_attr(doc, i, "itemid"@) {
            Some(s) => Some(trim_of(s)),
            None => None,
        },
        types: match node_attr(doc, i, "itemtype"@) {
            Some(s) => absolute_urls(tokens(s)),
            None => seq![],
        },
        props: seq![],
    }
}

/// Some token of `toks` is in `active`.
pub open spec fn any_active(toks: Seq<Seq<char>>, active: Set<Seq<char>>) -> bool {
    exists|t: int| 0 <= t < toks.len() && active.contains(toks[t])
}

/// The walk of element `i`: it starts an item (properties from its
/// references first, then from its children), gives its value to the item
/// being built, or lets the walk pass through to its children.
pub open spec fn walk(
    base: Seq<char>,
    doc: Seq<SNode>,
    i: int,
    st: SState,
    active: Set<Seq<char>>,
) -> Result<SState, SError>
    decreases fresh(doc, active, doc.len() as int), doc.len() - i, 2int, 0int,
{
    if i < 0 || i >= doc.len() {
        Ok(st)
    } else if node_attr(doc, i, "itemscope"@) is Some {
        let inner = SState { parent: Some(seq![]), items: st.items };
        let after_refs = match node_attr(doc, i, "itemref"@) {
            None => Ok(inner),
            Some(r) => if any_active(tokens(r), active) {
                Err(SError::Cycle(active))
            } else {
                walk_refs(base, doc, i, tokens(r), 0, inner, active)
            },
        };
        match after_refs {
            Err(e) => Err(e),
            Ok(s1) => match walk_children(base, doc, i, i + 1, s1, active) {
                Err(e) => Err(e),
                Ok(s2) => {
                    let item = SItem {
                        props: match s2.parent {
                            Some(ps) => ps,
                            None => seq![],
                        },
                        ..new_item(doc, i)
                    };
                    match node_attr(doc, i, "itemprop"@) {
                        Some(p) => match st.parent {
                            Some(pp) => match add_names(base, tokens(p), 0, pp, SValue::Item(item)) {
                                Ok(merged) => Ok(SState { parent: Some(merged), items: s2.items }),
                                Err(e) => Err(e),
                            },
                            None => Ok(SState { parent: None, items: s2.items }),
                        },
                        None => Ok(SState { parent: st.parent, items: s2.items.push(item) }),
                    }
                },
            },
        }
    } else if node_attr(doc, i, "itemprop"@) is Some {
        let p = node_attr(doc, i, "itemprop"@)->Some_0;
        match st.parent {
            Some(pp) => match add_names(base, tokens(p), 0, pp, property_value_of(base, doc, i)) {
                Ok(merged) => Ok(SState { parent: Some(merged), items: st.items }),
                Err(e) => Err(e),
            },
            None => Ok(st),
        }
    } else {
        walk_children(base, doc, i, i + 1, st, active)
    }
}

/// The walk of the element children of `i` from node `j` on, in document order.
pub open spec fn walk_children(
    base: Seq<char>,
    doc: Seq<SNode>,
    i: int,
    j: int,
    st: SState,
    active: Set<Seq<char>>,
) -> Result<SState, SError>
    decreases fresh(doc, active, doc.len() as int), doc.len() - i, 1int, doc.len() - j,
{
    if i < 0 || j <= i || j >= doc.len() {
        Ok(st)
    } else if doc[j].parent == i && doc[j].data is Element {
        match walk(base, doc, j, st, active) {
            Err(e) => Err(e),
            Ok(s) => walk_children(base, doc, i, j + 1, s, active),
        }
    } else {
        walk_children(base, doc, i, j + 1, st, active)
    }
}

/// The walk of the elements that the reference tokens `toks[t..]` of item
/// element `i` name, token by token.
pub open spec fn walk_refs(
    base: Seq<char>,
    doc: Seq<SNode>,
    i: int,
    toks: Seq<Seq<char>>,
    t: int,
    st: SState,
    active: Set<Seq<char>>,
) -> Result<SState, SError>
    decreases fresh(doc, active, doc.len() as int), doc.len() - i, 1int, toks.len() - t,
{
    if i < 0 || i >= doc.len() || t < 0 || t >= toks.len() {
        Ok(st)
    } else {
        match selector_error(toks[t]) {
            Some(m) => Err(SError::Selector(m)),
            None => match walk_matches(base, doc, i, toks[t], 0, st, active) {
                Err(e) => Err(e),
                Ok(s) => walk_refs(base, doc, i, toks, t + 1, s, active),
            },
        }
    }
}

/// The walk of the elements from node `j` on whose identifier is `tok`, in
/// document order, each with `tok` among the identifiers being walked. These
/// are the elements that the selector `#tok` picks: those whose `id`
/// attribute equals `tok`, compared case-sensitively.
pub open spec fn walk_matches(
    base: Seq<char>,
    doc: Seq<SNode>,
    i: int,
    tok: Seq<char>,
    j: int,
    st: SState,
    active: Set<Seq<char>>,
) -> Result<SState, SError>
    decreases fresh(doc, active, doc.len() as int), doc.len() - i, 0int, doc.len() - j,
    via walk_matches_decreases
{
    if j < 0 || j >= doc.len() {
        Ok(st)
    } else if node_id(doc, j) == Some(tok) && !active.contains(tok) {
        match walk(base, doc, j, st, active.insert(tok)) {
            Err(e) => Err(e),
            Ok(s) => walk_matches(base, doc, i, tok, j + 1, s, active),
        }
    } else {
        walk_matches(base, doc, i, tok, j + 1, st, active)
    }
}

#[via_fn]
proof fn walk_matches_decreases(
    base: Seq<char>,
    doc: Seq<SNode>,
    i: int,
    tok: Seq<char>,
    j: int,
    st: SState,
    active: Set<Seq<char>>,
) {
    if 0 <= j < doc.len() && node_id(doc, j) == Some(tok) && !active.contains(tok) {
        lemma_fresh_insert_lt(doc, active, tok, j, doc.len() as int);
    }
}

} // verus!
