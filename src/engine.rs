//! The extraction engine: the walk over a document, building items.
use crate::dom::{node_attr, Document, NodeData};
use crate::domain::{
    error_view, item_view, name_view, props_view, strs_view, value_view, values_view, Config,
    ItemScope, MicrodataError, Name, Property, SError, SItem, SProp, SValue, ValueType,
};
use crate::guard::{active_set, any_token_active, enter, ordered, snapshot};
use crate::resolve::{check_id_selector, parse_url, property_value, property_value_of, serialize_name};
use crate::text::{split_tokens, tokens, trim};
use crate::walk::{
    absolute_urls, add_names, any_active, fresh, lemma_fresh_insert_lt, lemma_name_index,
    merge_prop, merged_value, name_index_from, walk, walk_children, walk_matches, walk_refs,
    SState,
};
use std::collections::VecDeque;
use std::sync::Arc;
use vstd::prelude::*;

verus! {

pub open spec fn prop_model(p: Property) -> SProp {
    SProp { name: name_view(p.name), value: value_view(p.value) }
}

/// The model of a property list.
pub open spec fn props_model(ps: VecDeque<Property>) -> Seq<SProp> {
    props_view(ps, ps@.len())
}

proof fn lemma_props_view_index(ps: VecDeque<Property>, m: nat)
    requires
        m <= ps@.len(),
    ensures
        props_view(ps, m).len() == m,
        forall|k: int| 0 <= k < m ==> #[trigger] props_view(ps, m)[k] == prop_model(ps@[k]),
    decreases m,
{
    if m > 0 {
        lemma_props_view_index(ps, (m - 1) as nat);
    }
}

proof fn lemma_values_view_index(vs: VecDeque<ValueType>, m: nat)
    requires
        m <= vs@.len(),
    ensures
        values_view(vs, m).len() == m,
        forall|k: int| 0 <= k < m ==> #[trigger] values_view(vs, m)[k] == value_view(vs@[k]),
    decreases m,
{
    if m > 0 {
        lemma_values_view_index(vs, (m - 1) as nat);
    }
}

fn same_name(a: &Name, b: &Name) -> (r: bool)
    ensures
        r == (name_view(*a) == name_view(*b)),
{
    match (a, b) {
        (Name::Url(x), Name::Url(y)) => x.eq(y),
        (Name::String(x), Name::String(y)) => x.eq(y),
        _ => false,
    }
}

/// The index of the first property named `name`, or the length.
fn find_name(props: &VecDeque<Property>, name: &Name) -> (r: usize)
    ensures
        r as int == name_index_from(props_model(*props), name_view(*name), 0),
{
    let ghost m = props_model(*props);
    proof {
        lemma_props_view_index(*props, props@.len());
    }
    let mut k: usize = 0;
    while k < props.len()
        invariant
            k <= props@.len(),
            m == props_model(*props),
            m.len() == props@.len(),
            forall|j: int| 0 <= j < m.len() ==> #[trigger] m[j] == prop_model(props@[j]),
            name_index_from(m, name_view(*name), 0) == name_index_from(m, name_view(*name), k as int),
        decreases props.len() - k,
    {
        if same_name(&props[k].name, name) {
            return k;
        }
        k = k + 1;
    }
    k
}

/// The value that a further value `v` merged into `old` makes.
fn merge_value(old: ValueType, v: ValueType) -> (r: ValueType)
    ensures
        value_view(r) == merged_value(value_view(old), value_view(v)),
{
    match old {
        ValueType::Array(xs) => {
            let ghost xs0 = xs;
            let mut xs = xs;
            xs.push_back(v);
            proof {
                lemma_values_view_index(xs0, xs0@.len());
                lemma_values_view_index(xs, xs@.len());
                assert(values_view(xs, xs@.len()) =~= values_view(xs0, xs0@.len()).push(value_view(v)));
            }
            ValueType::Array(xs)
        },
        other => {
            let ghost o = value_view(other);
            let mut xs: VecDeque<ValueType> = VecDeque::new();
            xs.push_back(other);
            xs.push_back(v);
            proof {
                lemma_values_view_index(xs, 2);
                assert(values_view(xs, xs@.len()) =~= seq![o, value_view(v)]);
            }
            ValueType::Array(xs)
        },
    }
}

/// Merges the property `name: value` into `props`.
pub fn merge_into(props: &mut VecDeque<Property>, name: Name, value: ValueType)
    ensures
        props_model(*final(props)) == merge_prop(props_model(*old(props)), name_view(name), value_view(value)),
{
    let ghost m0 = props_model(*props);
    let ghost props0 = *props;
    proof {
        lemma_props_view_index(*props, props@.len());
    }
    let k = find_name(props, &name);
    proof {
        lemma_name_index(m0, name_view(name), 0);
    }
    if k < props.len() {
        let old_prop = props.remove(k);
        match old_prop {
            Some(p) => {
                let newp = Property { name: p.name, value: merge_value(p.value, value) };
                let ghost np = prop_model(newp);
                props.insert(k, newp);
                proof {
                    lemma_props_view_index(*props, props@.len());
                    assert(props@ =~= props0@.update(k as int, newp));
                    assert(name_view(p.name) == name_view(name));
                    assert(props_model(*props) =~= m0.update(
                        k as int,
                        SProp { name: name_view(name), value: merged_value(m0[k as int].value, value_view(value)) },
                    ));
                }
            },
            None => {},
        }
    } else {
        let ghost nv = value_view(value);
        let ghost nn = name_view(name);
        props.push_back(Property { name, value });
        proof {
            lemma_props_view_index(*props, props@.len());
            assert(props_model(*props) =~= m0.push(SProp { name: nn, value: nv }));
        }
    }
}

/// What a call that adds properties returned agrees with the model's result.
pub open spec fn props_outcome(
    r: Result<(), MicrodataError>,
    s: Result<Seq<SProp>, SError>,
    ps: VecDeque<Property>,
) -> bool {
    match r {
        Ok(_) => s == Ok::<Seq<SProp>, SError>(props_model(ps)),
        Err(e) => s == Err::<Seq<SProp>, SError>(error_view(e)),
    }
}

/// The model of a shared item as a property value.
pub open spec fn shared_item(a: &Arc<ItemScope>) -> SValue {
    SValue::Item(item_view(**a))
}

/// Relies on `Arc::clone`: another handle to the same item.
#[verifier::external_body]
fn share(a: &Arc<ItemScope>) -> (r: Arc<ItemScope>)
    ensures
        r == *a,
{
    a.clone()
}

/// The tokens that parse as absolute URLs, in order.
pub fn absolute_tokens(ts: &Vec<String>) -> (r: Vec<String>)
    ensures
        strs_view(r@) == absolute_urls(strs_view(ts@)),
{
    let mut out: Vec<String> = Vec::new();
    let mut k: usize = 0;
    proof {
        assert(strs_view(ts@).take(0) =~= seq![]);
    }
    while k < ts.len()
        invariant
            k <= ts@.len(),
            strs_view(out@) == absolute_urls(strs_view(ts@).take(k as int)),
        decreases ts.len() - k,
    {
        proof {
            let tk1 = strs_view(ts@).take(k + 1);
            assert(tk1.drop_last() =~= strs_view(ts@).take(k as int));
            assert(tk1.last() == ts@[k as int]@);
        }
        let ghost before = out@;
        if parse_url(ts[k].as_str()).is_some() {
            out.push(ts[k].clone());
            proof {
                assert(strs_view(out@) =~= strs_view(before).push(ts@[k as int]@));
            }
        }
        k = k + 1;
    }
    proof {
        assert(strs_view(ts@).take(ts@.len() as int) =~= strs_view(ts@));
    }
    out
}

/// Merges the value of element `i` into `props` under each of `names`.
fn add_leaf_names(
    config: Config,
    doc: &Document,
    i: usize,
    names: &Vec<String>,
    props: &mut VecDeque<Property>,
) -> (r: Result<(), MicrodataError>)
    requires
        i < doc@.len(),
    ensures
        props_outcome(
            r,
            add_names(config.base_url@, strs_view(names@), 0, props_model(*old(props)), property_value_of(config.base_url@, doc@, i as int)),
            *final(props),
        ),
        r matches Err(e) ==> e is InvalidPropertyName,
{
    let ghost base = config.base_url@;
    let ghost v = property_value_of(base, doc@, i as int);
    let ghost ns = strs_view(names@);
    let ghost whole = add_names(base, ns, 0, props_model(*props), v);
    let mut k: usize = 0;
    while k < names.len()
        invariant
            k <= names@.len(),
            i < doc@.len(),
            base == config.base_url@,
            ns == strs_view(names@),
            v == property_value_of(base, doc@, i as int),
            whole == add_names(base, ns, k as int, props_model(*props), v),
            whole == add_names(base, ns, 0, props_model(*old(props)), v),
        decreases names.len() - k,
    {
        proof {
            assert(ns[k as int] == names@[k as int]@);
        }
        match serialize_name(config, names[k].clone()) {
            Err(e) => {
                return Err(e);
            },
            Ok(n) => {
                let value = property_value(config, doc, i);
                merge_into(props, n, value);
            },
        }
        k = k + 1;
    }
    Ok(())
}

/// Merges the item `item` into `props` under each of `names`.
fn add_item_names(config: Config, names: &Vec<String>, props: &mut VecDeque<Property>, item: &Arc<ItemScope>) -> (r: Result<(), MicrodataError>)
    ensures
        props_outcome(
            r,
            add_names(config.base_url@, strs_view(names@), 0, props_model(*old(props)), shared_item(item)),
            *final(props),
        ),
        r matches Err(e) ==> e is InvalidPropertyName,
{
    let ghost base = config.base_url@;
    let ghost v = shared_item(item);
    let ghost ns = strs_view(names@);
    let ghost whole = add_names(base, ns, 0, props_model(*props), v);
    let mut k: usize = 0;
    while k < names.len()
        invariant
            k <= names@.len(),
            base == config.base_url@,
            ns == strs_view(names@),
            v == shared_item(item),
            whole == add_names(base, ns, k as int, props_model(*props), v),
            whole == add_names(base, ns, 0, props_model(*old(props)), v),
        decreases names.len() - k,
    {
        proof {
            assert(ns[k as int] == names@[k as int]@);
        }
        match serialize_name(config, names[k].clone()) {
            Err(e) => {
                return Err(e);
            },
            Ok(n) => {
                merge_into(props, n, ValueType::ScopeRef(share(item)));
            },
        }
        k = k + 1;
    }
    Ok(())
}

/// The model of the items found.
pub open spec fn items_model(v: VecDeque<ItemScope>) -> Seq<SItem> {
    v@.map_values(|it: ItemScope| item_view(it))
}

/// The model of the walk's state: the properties of the item being built
/// (if any) and the items found.
pub open spec fn state_model(parent: Option<VecDeque<Property>>, items: VecDeque<ItemScope>) -> SState {
    SState {
        parent: match parent {
            Some(ps) => Some(props_model(ps)),
            None => None,
        },
        items: items_model(items),
    }
}

/// A step of the walk returned what the model's walk gives.
pub open spec fn walk_outcome(
    r: Result<(), MicrodataError>,
    s: Result<SState, SError>,
    parent: Option<VecDeque<Property>>,
    items: VecDeque<ItemScope>,
) -> bool {
    match r {
        Ok(_) => s == Ok::<SState, SError>(state_model(parent, items)),
        Err(e) => s == Err::<SState, SError>(error_view(e)),
    }
}

/// Walks element `i`.
fn traverse(
    config: Config,
    doc: &Document,
    i: usize,
    parent: &mut Option<VecDeque<Property>>,
    items: &mut VecDeque<ItemScope>,
    active: &mut Vec<String>,
) -> (r: Result<(), MicrodataError>)
    requires
        i < doc@.len(),
        ordered(old(active)@),
    ensures
        walk_outcome(
            r,
            walk(config.base_url@, doc@, i as int, state_model(*old(parent), *old(items)), active_set(old(active)@)),
            *final(parent),
            *final(items),
        ),
        r is Ok ==> final(active)@ == old(active)@,
        r matches Err(MicrodataError::CycleDetected(ids)) ==> ordered(ids@),
    decreases fresh(doc@, active_set(old(active)@), doc@.len() as int), doc@.len() - i, 2int, 0int,
{
    let ghost base = config.base_url@;
    let ghost st0 = state_model(*parent, *items);
    let ghost a0 = active_set(active@);
    let ghost spec_r = walk(base, doc@, i as int, st0, a0);
    let scope_attr = doc.attr(i, "itemscope");
    let prop_attr = doc.attr(i, "itemprop");
    if scope_attr.is_some() {
        let itemid = match doc.attr(i, "itemid") {
            Some(s) => Some(trim(s.as_str())),
            None => None,
        };
        let itemtype = match doc.attr(i, "itemtype") {
            Some(s) => absolute_tokens(&split_tokens(s.as_str())),
            None => Vec::new(),
        };
        let mut scope: Option<VecDeque<Property>> = Some(VecDeque::new());
        let ghost inner = SState { parent: Some(seq![]), items: st0.items };
        proof {
            lemma_props_view_index(scope->Some_0, 0);
            assert(props_model(scope->Some_0) =~= seq![]);
            assert(state_model(scope, *items) == inner);
        }
        let ghost after_refs = match node_attr(doc@, i as int, "itemref"@) {
            None => Ok(inner),
            Some(r) => if any_active(tokens(r), a0) {
                Err(SError::Cycle(a0))
            } else {
                walk_refs(base, doc@, i as int, tokens(r), 0, inner, a0)
            },
        };
        // Properties reached through the reference list come first, then
        // those of the children.
        match doc.attr(i, "itemref") {
            Some(r) => {
                let toks = split_tokens(r.as_str());
                if any_token_active(&toks, active) {
                    let ids = snapshot(active);
                    proof {
                        assert(spec_r == Err::<SState, SError>(SError::Cycle(a0)));
                    }
                    return Err(MicrodataError::CycleDetected(ids));
                }
                match traverse_refs(config, doc, i, &toks, &mut scope, items, active) {
                    Err(e) => {
                        return Err(e);
                    },
                    Ok(_) => {},
                }
            },
            None => {},
        }
        let ghost s1 = state_model(scope, *items);
        proof {
            assert(after_refs == Ok::<SState, SError>(s1));
            assert(active@ == old(active)@);
        }
        match traverse_children(config, doc, i, &mut scope, items, active) {
            Err(e) => {
                return Err(e);
            },
            Ok(_) => {},
        }
        let ghost s2 = state_model(scope, *items);
        let props = match scope {
            Some(ps) => ps,
            None => VecDeque::new(),
        };
        proof {
            lemma_props_view_index(props, props@.len());
            assert(props_model(props) =~= match s2.parent {
                Some(ps) => ps,
                None => seq![],
            });
        }
        let item = ItemScope { itemid, itemtype, items: props };
        proof {
            assert(strs_view(item.itemtype@) =~= crate::walk::new_item(doc@, i as int).types);
            assert(item_view(item) == SItem {
                props: match s2.parent {
                    Some(ps) => ps,
                    None => seq![],
                },
                ..crate::walk::new_item(doc@, i as int)
            });
        }
        match prop_attr {
            Some(p) => match parent {
                Some(pp) => {
                    let names = split_tokens(p.as_str());
                    let shared = Arc::new(item);
                    let res = add_item_names(config, &names, pp, &shared);
                    proof {
                        assert(shared_item(&shared) == SValue::Item(item_view(item)));
                    }
                    res
                },
                None => Ok(()),
            },
            None => {
                let ghost items0 = *items;
                items.push_back(item);
                proof {
                    assert(items_model(*items) =~= items_model(items0).push(item_view(item)));
                }
                Ok(())
            },
        }
    } else if prop_attr.is_some() {
        match parent {
            Some(pp) => {
                let names = split_tokens(prop_attr.unwrap().as_str());
                add_leaf_names(config, doc, i, &names, pp)
            },
            None => Ok(()),
        }
    } else {
        traverse_children(config, doc, i, parent, items, active)
    }
}

/// Walks the element children of element `i`, in document order.
fn traverse_children(
    config: Config,
    doc: &Document,
    i: usize,
    parent: &mut Option<VecDeque<Property>>,
    items: &mut VecDeque<ItemScope>,
    active: &mut Vec<String>,
) -> (r: Result<(), MicrodataError>)
    requires
        i < doc@.len(),
        ordered(old(active)@),
    ensures
        walk_outcome(
            r,
            walk_children(config.base_url@, doc@, i as int, i + 1, state_model(*old(parent), *old(items)), active_set(old(active)@)),
            *final(parent),
            *final(items),
        ),
        r is Ok ==> final(active)@ == old(active)@,
        r matches Err(MicrodataError::CycleDetected(ids)) ==> ordered(ids@),
    decreases fresh(doc@, active_set(old(active)@), doc@.len() as int), doc@.len() - i, 1int, 0int,
{
    let ghost base = config.base_url@;
    let ghost a0 = active_set(active@);
    let ghost whole = walk_children(base, doc@, i as int, i + 1, state_model(*parent, *items), a0);
    let n = doc.nodes.len();
    let mut j = i + 1;
    while j < n
        invariant
            i < j <= n,
            n == doc@.len(),
            base == config.base_url@,
            active@ == old(active)@,
            ordered(old(active)@),
            a0 == active_set(old(active)@),
            whole == walk_children(base, doc@, i as int, i + 1, state_model(*old(parent), *old(items)), a0),
            whole == walk_children(base, doc@, i as int, j as int, state_model(*parent, *items), a0),
        decreases n - j,
    {
        proof {
            assert(doc@[j as int] == crate::dom::node_view(doc.nodes@[j as int]));
        }
        let is_elem = match &doc.nodes[j].data {
            NodeData::Element(_, _) => true,
            _ => false,
        };
        if doc.nodes[j].parent == i && is_elem {
            match traverse(config, doc, j, parent, items, active) {
                Err(e) => {
                    return Err(e);
                },
                Ok(_) => {},
            }
        }
        j = j + 1;
    }
    Ok(())
}

/// Walks the elements that the reference tokens `toks` of item element `i`
/// name, token by token, each match in document order.
fn traverse_refs(
    config: Config,
    doc: &Document,
    i: usize,
    toks: &Vec<String>,
    parent: &mut Option<VecDeque<Property>>,
    items: &mut VecDeque<ItemScope>,
    active: &mut Vec<String>,
) -> (r: Result<(), MicrodataError>)
    requires
        i < doc@.len(),
        ordered(old(active)@),
        !any_active(strs_view(toks@), active_set(old(active)@)),
    ensures
        walk_outcome(
            r,
            walk_refs(config.base_url@, doc@, i as int, strs_view(toks@), 0, state_model(*old(parent), *old(items)), active_set(old(active)@)),
            *final(parent),
            *final(items),
        ),
        r is Ok ==> final(active)@ == old(active)@,
        r matches Err(MicrodataError::CycleDetected(ids)) ==> ordered(ids@),
    decreases fresh(doc@, active_set(old(active)@), doc@.len() as int), doc@.len() - i, 1int, 0int,
{
    let ghost base = config.base_url@;
    let ghost a0 = active_set(active@);
    let ghost ts = strs_view(toks@);
    let ghost whole = walk_refs(base, doc@, i as int, ts, 0, state_model(*parent, *items), a0);
    let n = doc.nodes.len();
    let mut t: usize = 0;
    while t < toks.len()
        invariant
            i < n,
            t <= toks@.len(),
            n == doc@.len(),
            base == config.base_url@,
            ts == strs_view(toks@),
            active@ == old(active)@,
            ordered(old(active)@),
            a0 == active_set(old(active)@),
            !any_active(ts, a0),
            whole == walk_refs(base, doc@, i as int, ts, 0, state_model(*old(parent), *old(items)), a0),
            whole == walk_refs(base, doc@, i as int, ts, t as int, state_model(*parent, *items), a0),
        decreases toks.len() - t,
    {
        let tok = &toks[t];
        proof {
            assert(ts[t as int] == tok@);
            assert(!a0.contains(tok@));
        }
        match check_id_selector(tok.as_str()) {
            Some(m) => {
                return Err(MicrodataError::SelectorConstructionFailed(m));
            },
            None => {},
        }
        let ghost st_t = state_model(*parent, *items);
        let mut j: usize = 0;
        while j < n
            invariant
                i < n,
                t < toks@.len(),
                j <= n,
                n == doc@.len(),
                base == config.base_url@,
                ts == strs_view(toks@),
                tok@ == ts[t as int],
                !a0.contains(tok@),
                crate::resolve::selector_error(ts[t as int]) is None,
                active@ == old(active)@,
                ordered(old(active)@),
                a0 == active_set(old(active)@),
                whole == walk_refs(base, doc@, i as int, ts, 0, state_model(*old(parent), *old(items)), a0),
                whole == walk_refs(base, doc@, i as int, ts, t as int, st_t, a0),
                walk_matches(base, doc@, i as int, tok@, 0, st_t, a0) == walk_matches(base, doc@, i as int, tok@, j as int, state_model(*parent, *items), a0),
            decreases n - j,
        {
            let is_match = match doc.attr(j, "id") {
                Some(s) => s.eq(tok),
                None => false,
            };
            if is_match {
                let k = enter(active, tok.clone());
                proof {
                    lemma_fresh_insert_lt(doc@, a0, tok@, j as int, n as int);
                }
                match traverse(config, doc, j, parent, items, active) {
                    Err(e) => {
                        return Err(e);
                    },
                    Ok(_) => {},
                }
                let ghost before = active@;
                active.remove(k);
                proof {
                    assert(active@ =~= old(active)@);
                }
            }
            j = j + 1;
        }
        t = t + 1;
    }
    Ok(())
}

/// The items of a document: the walk from its root, outside any item, with
/// no identifier being walked through references.
pub open spec fn extraction(base: Seq<char>, doc: Seq<crate::dom::SNode>) -> Result<Seq<SItem>, SError> {
    if doc.len() == 0 {
        Ok(seq![])
    } else {
        match walk(base, doc, 0, SState { parent: None, items: seq![] }, Set::empty()) {
            Ok(s) => Ok(s.items),
            Err(e) => Err(e),
        }
    }
}

/// The model of an extraction's result.
pub open spec fn result_view(r: Result<VecDeque<ItemScope>, MicrodataError>) -> Result<Seq<SItem>, SError> {
    match r {
        Ok(items) => Ok(items_model(items)),
        Err(e) => Err(error_view(e)),
    }
}

/// Extracts the items of a document: those not used as a property value of
/// another item, in document order.
pub fn extract(config: Config, doc: &Document) -> (r: Result<VecDeque<ItemScope>, MicrodataError>)
    ensures
        result_view(r) == extraction(config.base_url@, doc@),
        r matches Err(MicrodataError::CycleDetected(ids)) ==> ordered(ids@),
{
    let mut items: VecDeque<ItemScope> = VecDeque::new();
    if doc.nodes.len() == 0 {
        proof {
            assert(items_model(items) =~= seq![]);
        }
        return Ok(items);
    }
    let mut parent: Option<VecDeque<Property>> = None;
    let mut active: Vec<String> = Vec::new();
    proof {
        assert(items_model(items) =~= seq![]);
        assert(active_set(active@) =~= Set::empty());
    }
    match traverse(config, doc, 0, &mut parent, &mut items, &mut active) {
        Ok(_) => Ok(items),
        Err(e) => Err(e),
    }
}

} // verus!
