//! Properties of extraction as a whole, proved over the models.
use crate::dom::{node_attr, tree_of, parsed_events, SNode};
use crate::domain::{ItemScope, MicrodataError, SError, SItem, SName, SProp, SValue};
use crate::engine::{extraction, result_view};
use crate::resolve::{has_reserved, name_of, property_value_of, selector_error, url_value};
use crate::text::tokens;
use crate::walk::{
    any_active, fresh, merge_prop, name_index_from, node_id, walk, walk_children,
    walk_matches, walk_refs, SState,
};
use crate::stripped_base;
use std::collections::VecDeque;
use vstd::prelude::*;

verus! {

/// No element of `doc` is marked as an item.
pub open spec fn no_item_markers(doc: Seq<SNode>) -> bool {
    forall|i: int| 0 <= i < doc.len() ==> #[trigger] node_attr(doc, i, "itemscope"@) is None
}

proof fn lemma_walk_unmarked(base: Seq<char>, doc: Seq<SNode>, i: int, items: Seq<SItem>, active: Set<Seq<char>>)
    requires
        no_item_markers(doc),
    ensures
        walk(base, doc, i, SState { parent: None, items }, active) == Ok::<SState, SError>(SState { parent: None, items }),
    decreases fresh(doc, active, doc.len() as int), doc.len() - i, 2int, 0int,
{
    if 0 <= i < doc.len() {
        assert(node_attr(doc, i, "itemscope"@) is None);
        if node_attr(doc, i, "itemprop"@) is None {
            lemma_children_unmarked(base, doc, i, i + 1, items, active);
        }
    }
}

proof fn lemma_children_unmarked(
    base: Seq<char>,
    doc: Seq<SNode>,
    i: int,
    j: int,
    items: Seq<SItem>,
    active: Set<Seq<char>>,
)
    requires
        no_item_markers(doc),
    ensures
        walk_children(base, doc, i, j, SState { parent: None, items }, active) == Ok::<SState, SError>(SState { parent: None, items }),
    decreases fresh(doc, active, doc.len() as int), doc.len() - i, 1int, doc.len() - j,
{
    if 0 <= i && i < j < doc.len() {
        if doc[j].parent == i && doc[j].data is Element {
            lemma_walk_unmarked(base, doc, j, items, active);
        }
        lemma_children_unmarked(base, doc, i, j + 1, items, active);
    }
}

/// A document in which no element is marked as an item yields no items.
pub proof fn law_no_item_markers_no_items(base: Seq<char>, doc: Seq<SNode>)
    requires
        no_item_markers(doc),
    ensures
        extraction(base, doc) == Ok::<Seq<SItem>, SError>(seq![]),
{
    if doc.len() > 0 {
        lemma_walk_unmarked(base, doc, 0, seq![], Set::empty());
    }
}

/// `props` after merging each of `vs` under the name `n`, in order.
pub open spec fn merge_all(props: Seq<SProp>, n: SName, vs: Seq<SValue>) -> Seq<SProp>
    decreases vs.len(),
{
    if vs.len() == 0 {
        props
    } else {
        merge_prop(merge_all(props, n, vs.drop_last()), n, vs.last())
    }
}

proof fn lemma_index_after_push(props: Seq<SProp>, p: SProp, n: SName, k: int)
    requires
        0 <= k <= props.len(),
        name_index_from(props, n, k) == props.len(),
        p.name == n,
    ensures
        name_index_from(props.push(p), n, k) == props.len(),
    decreases props.len() - k,
{
    if k < props.len() {
        assert(props.push(p)[k] == props[k]);
        lemma_index_after_push(props, p, n, k + 1);
    }
}

/// Values merged one after another under a name that the property list does
/// not hold yet end up in one property of that name whose value is the array
/// of all of them, as many as there were, in arrival order (the first value
/// not being an array itself, as no element's value is).
pub proof fn law_repeated_name_collects(props: Seq<SProp>, n: SName, vs: Seq<SValue>)
    requires
        name_index_from(props, n, 0) == props.len(),
        vs.len() >= 2,
        !(vs[0] is Array),
    ensures
        merge_all(props, n, vs) == props.push(SProp { name: n, value: SValue::Array(vs) }),
    decreases vs.len(),
{
    let first = SProp { name: n, value: vs[0] };
    assert(merge_all(props, n, vs.take(1)) == props.push(first)) by {
        assert(vs.take(1).drop_last() =~= seq![]);
        assert(merge_all(props, n, vs.take(1).drop_last()) == props);
    }
    lemma_index_after_push(props, first, n, 0);
    if vs.len() == 2 {
        assert(vs.drop_last() =~= vs.take(1));
        assert(props.push(first)[props.len() as int] == first);
        assert(seq![vs[0], vs[1]] =~= vs);
        assert(merge_all(props, n, vs) =~= props.push(SProp { name: n, value: SValue::Array(vs) }));
    } else {
        let init = vs.drop_last();
        assert(init[0] == vs[0]);
        law_repeated_name_collects(props, n, init);
        let q = SProp { name: n, value: SValue::Array(init) };
        lemma_index_after_push(props, q, n, 0);
        assert(props.push(q)[props.len() as int] == q);
        assert(init.push(vs.last()) =~= vs);
        assert(merge_all(props, n, vs) =~= props.push(SProp { name: n, value: SValue::Array(vs) }));
    }
}

/// No element gives a property an array as its value: arrays come only from
/// merging.
pub proof fn law_element_value_not_array(base: Seq<char>, doc: Seq<SNode>, i: int)
    ensures
        !(property_value_of(base, doc, i) is Array),
{
}

/// An item element reached while one of its reference tokens is among the
/// identifiers being walked through references fails with exactly those
/// identifiers, not counting the tokens just refused.
pub proof fn law_cycle_reports_active(
    base: Seq<char>,
    doc: Seq<SNode>,
    i: int,
    st: SState,
    active: Set<Seq<char>>,
    r: Seq<char>,
)
    requires
        0 <= i < doc.len(),
        node_attr(doc, i, "itemscope"@) is Some,
        node_attr(doc, i, "itemref"@) == Some(r),
        any_active(tokens(r), active),
    ensures
        walk(base, doc, i, st, active) == Err::<SState, SError>(SError::Cycle(active)),
{
}

proof fn lemma_matches_skip(
    base: Seq<char>,
    doc: Seq<SNode>,
    i: int,
    x: Seq<char>,
    j: int,
    k: int,
    st: SState,
    active: Set<Seq<char>>,
)
    requires
        0 <= j <= k <= doc.len(),
        forall|m: int| j <= m < k ==> #[trigger] node_id(doc, m) != Some(x),
    ensures
        walk_matches(base, doc, i, x, j, st, active) == walk_matches(base, doc, i, x, k, st, active),
    decreases k - j,
{
    if j < k {
        lemma_matches_skip(base, doc, i, x, j + 1, k, st, active);
    }
}

/// An item element that lists its own identifier `x` as its reference,
/// reached outside any reference walk, fails: walking itself through the
/// reference finds `x` being walked, and the failure reports exactly `{x}`.
pub proof fn law_self_reference_fails(
    base: Seq<char>,
    doc: Seq<SNode>,
    i: int,
    st: SState,
    x: Seq<char>,
    r: Seq<char>,
)
    requires
        0 <= i < doc.len(),
        node_attr(doc, i, "itemscope"@) is Some,
        node_id(doc, i) == Some(x),
        node_attr(doc, i, "itemref"@) == Some(r),
        tokens(r) == seq![x],
        selector_error(x) is None,
        forall|m: int| 0 <= m < i ==> #[trigger] node_id(doc, m) != Some(x),
    ensures
        walk(base, doc, i, st, Set::empty()) == Err::<SState, SError>(SError::Cycle(Set::empty().insert(x))),
{
    let a0 = Set::<Seq<char>>::empty();
    let a1 = a0.insert(x);
    let inner = SState { parent: Some(seq![]), items: st.items };
    assert(!any_active(tokens(r), a0));
    assert(any_active(tokens(r), a1)) by {
        assert(tokens(r)[0] == x);
    }
    lemma_matches_skip(base, doc, i, x, 0, i, inner, a0);
    assert(walk(base, doc, i, inner, a1) == Err::<SState, SError>(SError::Cycle(a1)));
    assert(walk_matches(base, doc, i, x, i, inner, a0) == Err::<SState, SError>(SError::Cycle(a1)));
    assert(walk_refs(base, doc, i, tokens(r), 0, inner, a0) == Err::<SState, SError>(SError::Cycle(a1)));
}

/// A property-name token holding `:` or `.` that resolves to no absolute URL
/// is refused.
pub proof fn law_reserved_token_refused(base: Seq<char>, tok: Seq<char>)
    requires
        has_reserved(tok),
        !(url_value(base, Some(tok)) is Url),
    ensures
        name_of(base, tok) == Err::<SName, SError>(SError::InvalidName(tok)),
{
}

/// An element inside an item whose first property-name token holds `:` or
/// `.` and resolves to no absolute URL makes the walk fail with that token.
pub proof fn law_invalid_name_fails_walk(
    base: Seq<char>,
    doc: Seq<SNode>,
    i: int,
    props: Seq<SProp>,
    items: Seq<SItem>,
    active: Set<Seq<char>>,
    p: Seq<char>,
)
    requires
        0 <= i < doc.len(),
        node_attr(doc, i, "itemscope"@) is None,
        node_attr(doc, i, "itemprop"@) == Some(p),
        tokens(p).len() > 0,
        has_reserved(tokens(p)[0]),
        !(url_value(base, Some(tokens(p)[0])) is Url),
    ensures
        walk(base, doc, i, SState { parent: Some(props), items }, active) == Err::<SState, SError>(
            SError::InvalidName(tokens(p)[0]),
        ),
{
    law_reserved_token_refused(base, tokens(p)[0]);
}

/// Extracting twice from the same base address and text gives equal results.
pub proof fn law_extraction_deterministic(
    base_url: Seq<char>,
    html: Seq<char>,
    r1: Result<VecDeque<ItemScope>, MicrodataError>,
    r2: Result<VecDeque<ItemScope>, MicrodataError>,
)
    requires
        result_view(r1) == extraction(stripped_base(base_url), tree_of(parsed_events(html))),
        result_view(r2) == extraction(stripped_base(base_url), tree_of(parsed_events(html))),
    ensures
        result_view(r1) == result_view(r2),
{
}

} // verus!
