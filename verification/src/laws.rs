use vstd::prelude::*;

verus! {

use crate::catalog::{
    add_required, body_req_fold, body_schema_of, catalog_spec, catalog_upto, entry_tools,
    op_schema, params_fold, req_view, tools_view, Tool, ToolV,
};
use crate::codec::{
    encode_name, entry_matches, find_from, method_of_upper, normalize_path, split_tool_name,
};
use crate::model::{
    method_lower, method_slot, method_upper, BodySchema, Document, Method, Operation, Param,
    RefOr,
};
use crate::text::{lemma_first_index_found, to_upper_char, upper_seq};

proof fn lemma_method_lower_chars(m: Method)
    ensures
        1 <= method_lower(m).len(),
        forall|j: int| 0 <= j < method_lower(m).len() ==> #[trigger] method_lower(m)[j] != '_',
        upper_seq(method_lower(m)) == method_upper(m),
        method_of_upper(method_upper(m)) == Some(m),
{
    assert(upper_seq(method_lower(m)) =~= method_upper(m)) by {
        assert(upper_seq(method_lower(m)).len() == method_lower(m).len());
        assert forall|j: int|
            0 <= j < method_lower(m).len() implies upper_seq(method_lower(m))[j] == method_upper(
            m,
        )[j] by {
            assert(upper_seq(method_lower(m))[j] == to_upper_char(method_lower(m)[j]));
        }
    }
    if method_upper(m) == method_upper(Method::Get) && !(m is Get) {
        assert(method_upper(m)[0] == method_upper(Method::Get)[0]);
        assert(false);
    }
    if method_upper(m) == method_upper(Method::Post) && !(m is Post) {
        assert(method_upper(m)[1] == method_upper(Method::Post)[1]);
        assert(false);
    }
    if method_upper(m) == method_upper(Method::Put) && !(m is Put) {
        assert(method_upper(m)[0] == method_upper(Method::Put)[0]);
        assert(method_upper(m)[1] == method_upper(Method::Put)[1]);
        assert(false);
    }
}

proof fn lemma_find_from_exists(
    paths: Seq<(String, RefOr<crate::model::PathItem>)>,
    m: Method,
    key: Seq<char>,
    lo: int,
    i: int,
)
    requires
        0 <= lo <= i < paths.len(),
        entry_matches(paths[i], m, key),
    ensures
        find_from(paths, m, key, lo) is Some,
    decreases i - lo,
{
    if !entry_matches(paths[lo], m, key) {
        lemma_find_from_exists(paths, m, key, lo + 1, i);
    }
}

proof fn lemma_find_from_props(
    paths: Seq<(String, RefOr<crate::model::PathItem>)>,
    m: Method,
    key: Seq<char>,
    lo: int,
    r: int,
)
    requires
        0 <= lo,
        find_from(paths, m, key, lo) == Some(r),
    ensures
        lo <= r < paths.len(),
        entry_matches(paths[r], m, key),
        forall|j: int| lo <= j < r ==> !entry_matches(paths[j], m, key),
    decreases paths.len() - lo,
{
    if lo < paths.len() {
        if !entry_matches(paths[lo], m, key) {
            lemma_find_from_props(paths, m, key, lo + 1, r);
        }
    }
}

/// Law: for any indexed operation, the codec's output decodes back
/// to the same method prefix and normalized key, and looking that
/// key up in the document finds a record whose slot for the same
/// method is populated.
pub proof fn lemma_name_round_trip(doc: Document, i: int, m: Method)
    requires
        0 <= i < doc.paths@.len(),
        doc.paths@[i].1 is Item,
        method_slot(doc.paths@[i].1->Item_0, m) is Some,
    ensures
        split_tool_name(encode_name(m, doc.paths@[i].0@)) == Some(
            (method_lower(m), normalize_path(doc.paths@[i].0@)),
        ),
        method_of_upper(upper_seq(method_lower(m))) == Some(m),
        find_from(doc.paths@, m, normalize_path(doc.paths@[i].0@), 0) is Some,
        entry_matches(
            doc.paths@[find_from(doc.paths@, m, normalize_path(doc.paths@[i].0@), 0)->Some_0],
            m,
            normalize_path(doc.paths@[i].0@),
        ),
{
    let p = doc.paths@[i].0@;
    let name = encode_name(m, p);
    let ml = method_lower(m);
    let key = normalize_path(p);
    lemma_method_lower_chars(m);
    assert(name[ml.len() as int] == '_');
    assert forall|j: int| 0 <= j < ml.len() implies name[j] != '_' by {
        assert(name[j] == ml[j]);
    }
    lemma_first_index_found(name, '_', ml.len() as int);
    assert(name.subrange(0, ml.len() as int) =~= ml);
    assert(name.subrange(ml.len() as int + 1, name.len() as int) =~= key);
    assert(entry_matches(doc.paths@[i], m, key));
    lemma_find_from_exists(doc.paths@, m, key, 0, i);
    let r = find_from(doc.paths@, m, key, 0)->Some_0;
    lemma_find_from_props(doc.paths@, m, key, 0, r);
}

/// Law: under the round trip above, the very path is recovered
/// whenever no other path entry shares its normalized key for the
/// same method; a colliding key may pick an earlier entry instead.
pub proof fn lemma_name_round_trip_unique(doc: Document, i: int, m: Method)
    requires
        0 <= i < doc.paths@.len(),
        doc.paths@[i].1 is Item,
        method_slot(doc.paths@[i].1->Item_0, m) is Some,
        forall|j: int|
            0 <= j < doc.paths@.len() && j != i ==> !entry_matches(
                doc.paths@[j],
                m,
                normalize_path(doc.paths@[i].0@),
            ),
    ensures
        find_from(doc.paths@, m, normalize_path(doc.paths@[i].0@), 0) == Some(i),
{
    lemma_name_round_trip(doc, i, m);
    let key = normalize_path(doc.paths@[i].0@);
    let r = find_from(doc.paths@, m, key, 0)->Some_0;
    lemma_find_from_props(doc.paths@, m, key, 0, r);
}

/// The names of the resolvable path-location parameters.
pub open spec fn path_param_names(params: Seq<RefOr<Param>>) -> Set<Seq<char>> {
    Set::new(
        |k: Seq<char>|
            exists|i: int|
                0 <= i < params.len() && params[i] is Item && params[i]->Item_0.location is Path
                    && params[i]->Item_0.name@ == k,
    )
}

/// The required names of the resolved body object schema, if any.
pub open spec fn body_required_names(doc: Document, op: Operation) -> Set<Seq<char>> {
    match body_schema_of(doc, op) {
        Some(BodySchema::ObjectType { required, .. }) => req_view(required@).to_set(),
        _ => Set::empty(),
    }
}

proof fn lemma_push_to_set(r: Seq<Seq<char>>, k: Seq<char>)
    ensures
        r.push(k).to_set() =~= r.to_set().insert(k),
{
    assert forall|x: Seq<char>| #[trigger] r.push(k).to_set().contains(x) implies r.to_set().insert(
        k,
    ).contains(x) by {
        let t = choose|t: int| 0 <= t < r.push(k).len() && r.push(k)[t] == x;
        if t < r.len() {
            assert(r[t] == x);
            assert(r.contains(x));
        }
    }
    assert forall|x: Seq<char>| #[trigger] r.to_set().insert(k).contains(x) implies r.push(
        k,
    ).to_set().contains(x) by {
        if x == k {
            assert(r.push(k)[r.len() as int] == x);
        } else {
            let t = choose|t: int| 0 <= t < r.len() && r[t] == x;
            assert(r.push(k)[t] == x);
        }
    }
}

proof fn lemma_add_required_to_set(r: Seq<Seq<char>>, k: Seq<char>)
    ensures
        add_required(r, k).to_set() =~= r.to_set().insert(k),
{
    if r.contains(k) {
        assert(r.to_set().contains(k));
        assert(add_required(r, k).to_set() =~= r.to_set().insert(k));
    } else {
        lemma_push_to_set(r, k);
    }
}

proof fn lemma_params_required(params: Seq<RefOr<Param>>)
    requires
        forall|i: int|
            0 <= i < params.len() && params[i] is Item && params[i]->Item_0.required
                ==> params[i]->Item_0.location is Path,
    ensures
        params_fold(params).1.to_set() =~= path_param_names(params),
    decreases params.len(),
{
    if params.len() == 0 {
        assert forall|x: Seq<char>| !(#[trigger] path_param_names(params).contains(x)) by {}
        assert(params_fold(params).1.to_set() =~= path_param_names(params));
    } else {
        let pre = params.drop_last();
        let last = params.last();
        assert forall|i: int|
            0 <= i < pre.len() && pre[i] is Item && pre[i]->Item_0.required implies pre[i]->Item_0.location is Path by {
            assert(pre[i] == params[i]);
        }
        lemma_params_required(pre);
        match last {
            RefOr::Reference(_) => {
                assert(params_fold(params).1 == params_fold(pre).1);
                assert forall|x: Seq<char>| #[trigger] path_param_names(params).contains(x) implies
                    path_param_names(pre).contains(x) by {
                    let t = choose|t: int|
                        0 <= t < params.len() && params[t] is Item
                            && params[t]->Item_0.location is Path && params[t]->Item_0.name@ == x;
                    assert(t < pre.len() && pre[t] == params[t]);
                }
                assert forall|x: Seq<char>| #[trigger] path_param_names(pre).contains(x) implies
                    path_param_names(params).contains(x) by {
                    let t = choose|t: int|
                        0 <= t < pre.len() && pre[t] is Item && pre[t]->Item_0.location is Path
                            && pre[t]->Item_0.name@ == x;
                    assert(params[t] == pre[t]);
                }
                assert(path_param_names(params) =~= path_param_names(pre));
            }
            RefOr::Item(p) => {
                if p.location is Path || p.required {
                    assert(p.location is Path);
                    assert(params_fold(params).1 == add_required(params_fold(pre).1, p.name@));
                    lemma_add_required_to_set(params_fold(pre).1, p.name@);
                    assert forall|x: Seq<char>| #[trigger] path_param_names(params).contains(
                        x,
                    ) implies path_param_names(pre).insert(p.name@).contains(x) by {
                        let t = choose|t: int|
                            0 <= t < params.len() && params[t] is Item
                                && params[t]->Item_0.location is Path && params[t]->Item_0.name@
                                == x;
                        if t < pre.len() {
                            assert(pre[t] == params[t]);
                            assert(path_param_names(pre).contains(x));
                        } else {
                            assert(x == p.name@);
                        }
                    }
                    assert forall|x: Seq<char>| #[trigger] path_param_names(pre).insert(
                        p.name@,
                    ).contains(x) implies path_param_names(params).contains(x) by {
                        if x == p.name@ {
                            assert(params[params.len() - 1] is Item);
                            assert(params[params.len() - 1]->Item_0.location is Path);
                        } else {
                            let t = choose|t: int|
                                0 <= t < pre.len() && pre[t] is Item
                                    && pre[t]->Item_0.location is Path && pre[t]->Item_0.name@
                                    == x;
                            assert(params[t] == pre[t]);
                        }
                    }
                    assert(path_param_names(params) =~= path_param_names(pre).insert(p.name@));
                } else {
                    assert(params_fold(params).1 == params_fold(pre).1);
                    assert forall|x: Seq<char>| #[trigger] path_param_names(params).contains(
                        x,
                    ) implies path_param_names(pre).contains(x) by {
                        let t = choose|t: int|
                            0 <= t < params.len() && params[t] is Item
                                && params[t]->Item_0.location is Path && params[t]->Item_0.name@
                                == x;
                        assert(t < pre.len());
                        assert(pre[t] == params[t]);
                    }
                    assert forall|x: Seq<char>| #[trigger] path_param_names(pre).contains(
                        x,
                    ) implies path_param_names(params).contains(x) by {
                        let t = choose|t: int|
                            0 <= t < pre.len() && pre[t] is Item && pre[t]->Item_0.location is Path
                                && pre[t]->Item_0.name@ == x;
                        assert(params[t] == pre[t]);
                    }
                    assert(path_param_names(params) =~= path_param_names(pre));
                }
            }
        }
    }
}

proof fn lemma_body_req_to_set(names: Seq<String>, acc: Seq<Seq<char>>)
    ensures
        body_req_fold(names, acc).to_set() =~= acc.to_set().union(req_view(names).to_set()),
    decreases names.len(),
{
    if names.len() == 0 {
        assert forall|x: Seq<char>| !(#[trigger] req_view(names).to_set().contains(x)) by {
            if req_view(names).contains(x) {
                let t = choose|t: int| 0 <= t < req_view(names).len() && req_view(names)[t] == x;
            }
        }
        assert(body_req_fold(names, acc).to_set() =~= acc.to_set().union(req_view(names).to_set()));
    } else {
        let pre = names.drop_last();
        lemma_body_req_to_set(pre, acc);
        lemma_add_required_to_set(body_req_fold(pre, acc), names.last()@);
        assert(req_view(names) =~= req_view(pre).push(names.last()@));
        lemma_push_to_set(req_view(pre), names.last()@);
        assert(body_req_fold(names, acc).to_set() =~= acc.to_set().union(
            req_view(names).to_set(),
        ));
    }
}

/// Law: a tool's required set equals the union of its path-parameter
/// names and the resolved body schema's required names, for any
/// operation whose explicitly required parameters are all path
/// parameters.
pub proof fn lemma_required_union(doc: Document, op: Operation)
    requires
        forall|i: int|
            0 <= i < op.parameters@.len() && op.parameters@[i] is Item
                && op.parameters@[i]->Item_0.required ==> op.parameters@[i]->Item_0.location is Path,
    ensures
        op_schema(doc, op).1.to_set() == path_param_names(op.parameters@).union(
            body_required_names(doc, op),
        ),
{
    lemma_params_required(op.parameters@);
    match body_schema_of(doc, op) {
        Some(s) => match s {
            BodySchema::ObjectType { properties, required } => {
                lemma_body_req_to_set(required@, params_fold(op.parameters@).1);
                assert(op_schema(doc, op).1 == body_req_fold(
                    required@,
                    params_fold(op.parameters@).1,
                ));
                assert(op_schema(doc, op).1.to_set() =~= path_param_names(op.parameters@).union(
                    body_required_names(doc, op),
                ));
            }
            BodySchema::OtherType => {
                assert(op_schema(doc, op).1 == params_fold(op.parameters@).1);
                assert(op_schema(doc, op).1.to_set() =~= path_param_names(op.parameters@).union(
                    body_required_names(doc, op),
                ));
            }
        },
        None => {
            assert(op_schema(doc, op).1 == params_fold(op.parameters@).1);
            assert(op_schema(doc, op).1.to_set() =~= path_param_names(op.parameters@).union(
                body_required_names(doc, op),
            ));
        }
    }
}

/// Law: the catalog is a function of the document alone, so building
/// it twice from the same document yields catalogs equal tool for
/// tool, properties in the same order.
pub proof fn lemma_catalog_deterministic(doc: Document, a: Seq<Tool>, b: Seq<Tool>)
    requires
        tools_view(a) == catalog_spec(doc),
        tools_view(b) == catalog_spec(doc),
    ensures
        tools_view(a) == tools_view(b),
{
}

/// Law: a path entry that is purely a remote reference contributes
/// zero tools to the catalog.
pub proof fn lemma_reference_entry_no_tools(doc: Document, i: int)
    requires
        0 <= i < doc.paths@.len(),
        doc.paths@[i].1 is Reference,
    ensures
        entry_tools(doc, doc.paths@[i]) == Seq::<ToolV>::empty(),
        catalog_upto(doc, i + 1) == catalog_upto(doc, i),
{
    assert(entry_tools(doc, doc.paths@[i]) =~= Seq::<ToolV>::empty());
    assert(catalog_upto(doc, i + 1) =~= catalog_upto(doc, i));
}

} // verus!
