use vstd::prelude::*;

verus! {

use crate::codec::{encode_name, encode_tool_name};
use crate::model::{
    method_slot, method_upper, BodySchema, Document, MediaEntry, Method, Operation, Param,
    ParamFormat, ParamLocation, PathItem, PropSchema, RefOr, SchemaKind,
};
use crate::text::{chars_eq, chars_of, string_from_chars};

/// The flat type a property is published with.
#[derive(Debug, Clone, Copy, PartialEq, Eq, Structural)]
pub enum TypeTag {
    Str,
    Number,
    Integer,
    Boolean,
    Array,
    Object,
}

/// One published property: its flat type and an optional description.
pub struct PropDesc {
    pub ty: TypeTag,
    pub description: Option<String>,
}

/// A tool's input schema: named properties in encounter order, and
/// the names that are required.
pub struct InputSchema {
    pub properties: Vec<(String, PropDesc)>,
    pub required: Vec<String>,
}

/// One callable tool derived from one operation.
pub struct Tool {
    pub name: String,
    pub description: String,
    pub input_schema: InputSchema,
}

/// The mathematical shape of a published property.
pub struct PropV {
    pub ty: TypeTag,
    pub description: Option<Seq<char>>,
}

/// The mathematical shape of a tool.
pub struct ToolV {
    pub name: Seq<char>,
    pub description: Seq<char>,
    pub properties: Seq<(Seq<char>, PropV)>,
    pub required: Seq<Seq<char>>,
}

/// The text of an optional string.
pub open spec fn opt_view(o: Option<String>) -> Option<Seq<char>> {
    match o {
        Some(s) => Some(s@),
        None => None,
    }
}

/// The shape of a property descriptor.
pub open spec fn prop_view(p: PropDesc) -> PropV {
    PropV { ty: p.ty, description: opt_view(p.description) }
}

/// The shapes of a property list.
pub open spec fn props_view(ps: Seq<(String, PropDesc)>) -> Seq<(Seq<char>, PropV)> {
    ps.map_values(|p: (String, PropDesc)| (p.0@, prop_view(p.1)))
}

/// The texts of a required-name list.
pub open spec fn req_view(rs: Seq<String>) -> Seq<Seq<char>> {
    rs.map_values(|s: String| s@)
}

/// The shape of a tool.
pub open spec fn tool_view(t: Tool) -> ToolV {
    ToolV {
        name: t.name@,
        description: t.description@,
        properties: props_view(t.input_schema.properties@),
        required: req_view(t.input_schema.required@),
    }
}

/// The shapes of a tool list.
pub open spec fn tools_view(ts: Seq<Tool>) -> Seq<ToolV> {
    ts.map_values(|t: Tool| tool_view(t))
}

/// The flat type published for a resolved schema node: the six
/// concrete kinds map to themselves; anything else is a string.
pub open spec fn extract_type(k: SchemaKind) -> TypeTag {
    match k {
        SchemaKind::Str => TypeTag::Str,
        SchemaKind::Number => TypeTag::Number,
        SchemaKind::Integer => TypeTag::Integer,
        SchemaKind::Boolean => TypeTag::Boolean,
        SchemaKind::Array => TypeTag::Array,
        SchemaKind::Object => TypeTag::Object,
        SchemaKind::Other => TypeTag::Str,
    }
}

/// The property published for one body property's schema: an inline
/// node keeps its type and description; a reference becomes a bare
/// string.
pub open spec fn prop_of_schema(ps: RefOr<PropSchema>) -> PropV {
    match ps {
        RefOr::Item(p) => PropV { ty: extract_type(p.kind), description: opt_view(p.description) },
        RefOr::Reference(_) => PropV { ty: TypeTag::Str, description: None },
    }
}

/// The property published for one declared parameter: always a
/// string; the description is copied only from an inline schema.
pub open spec fn param_prop(p: Param) -> PropV {
    PropV {
        ty: TypeTag::Str,
        description: if p.format is SchemaItem {
            opt_view(p.description)
        } else {
            None
        },
    }
}

/// Insert a property, overwriting in place the first entry that
/// already carries the name.
pub open spec fn upsert(
    s: Seq<(Seq<char>, PropV)>,
    k: Seq<char>,
    v: PropV,
) -> Seq<(Seq<char>, PropV)>
    decreases s.len(),
{
    if s.len() == 0 {
        seq![(k, v)]
    } else if s[0].0 == k {
        seq![(k, v)] + s.drop_first()
    } else {
        seq![s[0]] + upsert(s.drop_first(), k, v)
    }
}

/// Add a name to the required list unless it is already there.
pub open spec fn add_required(r: Seq<Seq<char>>, k: Seq<char>) -> Seq<Seq<char>> {
    if r.contains(k) {
        r
    } else {
        r.push(k)
    }
}

/// What one declared parameter contributes to the accumulated
/// properties and required names.
pub open spec fn params_step(
    acc: (Seq<(Seq<char>, PropV)>, Seq<Seq<char>>),
    pr: RefOr<Param>,
) -> (Seq<(Seq<char>, PropV)>, Seq<Seq<char>>) {
    match pr {
        RefOr::Reference(_) => acc,
        RefOr::Item(p) => (
            upsert(acc.0, p.name@, param_prop(p)),
            if p.location is Path || p.required {
                add_required(acc.1, p.name@)
            } else {
                acc.1
            },
        ),
    }
}

/// The properties and required names contributed by a parameter
/// list, in declaration order.
pub open spec fn params_fold(params: Seq<RefOr<Param>>) -> (
    Seq<(Seq<char>, PropV)>,
    Seq<Seq<char>>,
)
    decreases params.len(),
{
    if params.len() == 0 {
        (Seq::empty(), Seq::empty())
    } else {
        params_step(params_fold(params.drop_last()), params.last())
    }
}

/// The first JSON media entry of a content map, if any.
pub open spec fn first_json_media(content: Seq<MediaEntry>) -> Option<MediaEntry>
    decreases content.len(),
{
    if content.len() == 0 {
        None
    } else if content[0].media_type@ == "application/json"@ {
        Some(content[0])
    } else {
        first_json_media(content.drop_first())
    }
}

/// The first named component schema carrying the name, if any.
pub open spec fn lookup_schema(
    schemas: Seq<(String, RefOr<BodySchema>)>,
    name: Seq<char>,
) -> Option<RefOr<BodySchema>>
    decreases schemas.len(),
{
    if schemas.len() == 0 {
        None
    } else if schemas[0].0@ == name {
        Some(schemas[0].1)
    } else {
        lookup_schema(schemas.drop_first(), name)
    }
}

/// The reference prefix under which component schemas are named.
pub open spec fn schemas_prefix() -> Seq<char> {
    "#/components/schemas/"@
}

/// A body schema resolved one level deep: inline, or through a
/// single component-schema reference; deeper chains stay unresolved.
pub open spec fn resolve_body(doc: Document, sr: RefOr<BodySchema>) -> Option<BodySchema> {
    match sr {
        RefOr::Item(s) => Some(s),
        RefOr::Reference(r) => if r@.len() >= schemas_prefix().len() && r@.subrange(
            0,
            schemas_prefix().len() as int,
        ) == schemas_prefix() {
            match lookup_schema(doc.schemas@, r@.subrange(schemas_prefix().len() as int, r@.len() as int)) {
                Some(RefOr::Item(s)) => Some(s),
                _ => None,
            }
        } else {
            None
        },
    }
}

/// The resolved JSON request-body schema of an operation, if any.
pub open spec fn body_schema_of(doc: Document, op: Operation) -> Option<BodySchema> {
    match op.request_body {
        Some(RefOr::Item(rb)) => match first_json_media(rb.content@) {
            Some(e) => match e.schema {
                Some(sr) => resolve_body(doc, sr),
                None => None,
            },
            None => None,
        },
        _ => None,
    }
}

/// Flatten body properties into the accumulated property list.
pub open spec fn body_props_fold(
    props: Seq<(String, RefOr<PropSchema>)>,
    acc: Seq<(Seq<char>, PropV)>,
) -> Seq<(Seq<char>, PropV)>
    decreases props.len(),
{
    if props.len() == 0 {
        acc
    } else {
        upsert(
            body_props_fold(props.drop_last(), acc),
            props.last().0@,
            prop_of_schema(props.last().1),
        )
    }
}

/// Merge body required names into the accumulated required list.
pub open spec fn body_req_fold(names: Seq<String>, acc: Seq<Seq<char>>) -> Seq<Seq<char>>
    decreases names.len(),
{
    if names.len() == 0 {
        acc
    } else {
        add_required(body_req_fold(names.drop_last(), acc), names.last()@)
    }
}

/// Apply the flattened request body, if one resolves to an object
/// schema, on top of the parameter contributions.
pub open spec fn apply_body(
    doc: Document,
    op: Operation,
    acc: (Seq<(Seq<char>, PropV)>, Seq<Seq<char>>),
) -> (Seq<(Seq<char>, PropV)>, Seq<Seq<char>>) {
    match body_schema_of(doc, op) {
        Some(BodySchema::ObjectType { properties, required }) => (
            body_props_fold(properties@, acc.0),
            body_req_fold(required@, acc.1),
        ),
        _ => acc,
    }
}

/// The full input schema of one operation: parameters first, then
/// the flattened body on top.
pub open spec fn op_schema(doc: Document, op: Operation) -> (
    Seq<(Seq<char>, PropV)>,
    Seq<Seq<char>>,
) {
    apply_body(doc, op, params_fold(op.parameters@))
}

/// A tool's description: the summary, else the description, else
/// the method and path template.
pub open spec fn tool_description(m: Method, path: Seq<char>, op: Operation) -> Seq<char> {
    match op.summary {
        Some(s) => s@,
        None => match op.description {
            Some(d) => d@,
            None => method_upper(m) + seq![' '] + path,
        },
    }
}

/// The tool derived from one operation.
pub open spec fn tool_spec(doc: Document, path: Seq<char>, m: Method, op: Operation) -> ToolV {
    ToolV {
        name: encode_name(m, path),
        description: tool_description(m, path, op),
        properties: op_schema(doc, op).0,
        required: op_schema(doc, op).1,
    }
}

/// The tools contributed by one method slot of a path item.
pub open spec fn slot_tools(doc: Document, path: Seq<char>, pi: PathItem, m: Method) -> Seq<ToolV> {
    match method_slot(pi, m) {
        Some(op) => seq![tool_spec(doc, path, m, op)],
        None => Seq::empty(),
    }
}

/// The tools contributed by one path entry; a reference-only entry
/// contributes none.
pub open spec fn entry_tools(doc: Document, e: (String, RefOr<PathItem>)) -> Seq<ToolV> {
    match e.1 {
        RefOr::Reference(_) => Seq::empty(),
        RefOr::Item(pi) => slot_tools(doc, e.0@, pi, Method::Get) + slot_tools(
            doc,
            e.0@,
            pi,
            Method::Post,
        ) + slot_tools(doc, e.0@, pi, Method::Put) + slot_tools(doc, e.0@, pi, Method::Delete)
            + slot_tools(doc, e.0@, pi, Method::Patch),
    }
}

/// The catalog contributed by the first `n` path entries.
pub open spec fn catalog_upto(doc: Document, n: int) -> Seq<ToolV>
    decreases n,
{
    if n <= 0 {
        Seq::empty()
    } else {
        catalog_upto(doc, n - 1) + entry_tools(doc, doc.paths@[n - 1])
    }
}

/// The whole tool catalog of a document, in document order.
pub open spec fn catalog_spec(doc: Document) -> Seq<ToolV> {
    catalog_upto(doc, doc.paths@.len() as int)
}

/// A copy of an optional description.
fn clone_opt(o: &Option<String>) -> (r: Option<String>)
    ensures
        opt_view(r) == opt_view(*o),
{
    match o {
        Some(s) => Some(s.clone()),
        None => None,
    }
}

proof fn lemma_upsert_found(s: Seq<(Seq<char>, PropV)>, k: Seq<char>, v: PropV, i: int)
    requires
        0 <= i < s.len(),
        s[i].0 == k,
        forall|j: int| 0 <= j < i ==> s[j].0 != k,
    ensures
        upsert(s, k, v) =~= s.update(i, (k, v)),
    decreases i,
{
    if i == 0 {
        assert(upsert(s, k, v) == seq![(k, v)] + s.drop_first());
    } else {
        lemma_upsert_found(s.drop_first(), k, v, i - 1);
        assert(upsert(s, k, v) == seq![s[0]] + upsert(s.drop_first(), k, v));
        assert(s.drop_first().update(i - 1, (k, v)) =~= s.update(i, (k, v)).drop_first());
    }
}

proof fn lemma_upsert_absent(s: Seq<(Seq<char>, PropV)>, k: Seq<char>, v: PropV)
    requires
        forall|j: int| 0 <= j < s.len() ==> s[j].0 != k,
    ensures
        upsert(s, k, v) =~= s.push((k, v)),
    decreases s.len(),
{
    if s.len() > 0 {
        lemma_upsert_absent(s.drop_first(), k, v);
        assert(upsert(s, k, v) == seq![s[0]] + upsert(s.drop_first(), k, v));
        assert(seq![s[0]] + s.drop_first().push((k, v)) =~= s.push((k, v)));
    }
}

/// Insert a property into the list, overwriting in place the first
/// entry that already carries the name.
fn upsert_prop(props: &mut Vec<(String, PropDesc)>, name: String, p: PropDesc)
    ensures
        props_view(final(props)@) == upsert(props_view(old(props)@), name@, prop_view(p)),
{
    let ghost orig = props_view(props@);
    let mut i: usize = 0;
    while i < props.len()
        invariant
            i <= props@.len(),
            props@ == old(props)@,
            orig == props_view(props@),
            forall|j: int| 0 <= j < i ==> props@[j].0@ != name@,
        decreases props@.len() - i,
    {
        if props[i].0 == name {
            proof {
                assert(orig[i as int].0 == name@);
                lemma_upsert_found(orig, name@, prop_view(p), i as int);
            }
            props[i] = (name, p);
            proof {
                assert(props@ == old(props)@.update(i as int, props@[i as int]));
                assert(props@[i as int].0@ == name@ && prop_view(props@[i as int].1) == prop_view(
                    p,
                ));
                assert(props_view(props@) =~= orig.update(i as int, (name@, prop_view(p))));
            }
            return ;
        }
        proof {
            assert(orig[i as int].0 != name@);
        }
        i = i + 1;
    }
    proof {
        lemma_upsert_absent(orig, name@, prop_view(p));
    }
    props.push((name, p));
    proof {
        assert(props_view(props@) =~= orig.push((name@, prop_view(p))));
    }
}

/// Add a name to the required list unless it is already there.
fn push_required(req: &mut Vec<String>, name: String)
    ensures
        req_view(final(req)@) == add_required(req_view(old(req)@), name@),
{
    let ghost orig = req_view(req@);
    let mut i: usize = 0;
    while i < req.len()
        invariant
            i <= req@.len(),
            req@ == old(req)@,
            orig == req_view(req@),
            forall|j: int| 0 <= j < i ==> req@[j]@ != name@,
        decreases req@.len() - i,
    {
        if req[i] == name {
            proof {
                assert(orig[i as int] == name@);
                assert(orig.contains(name@));
            }
            return ;
        }
        i = i + 1;
    }
    proof {
        assert(forall|j: int| 0 <= j < orig.len() ==> orig[j] != name@);
        assert(!orig.contains(name@));
    }
    req.push(name);
    proof {
        assert(req_view(req@) =~= orig.push(name@));
    }
}

/// The property published for one body property's schema.
fn build_prop(ps: &RefOr<PropSchema>) -> (r: PropDesc)
    ensures
        prop_view(r) == prop_of_schema(*ps),
{
    match ps {
        RefOr::Item(p) => {
            let ty = match p.kind {
                SchemaKind::Str => TypeTag::Str,
                SchemaKind::Number => TypeTag::Number,
                SchemaKind::Integer => TypeTag::Integer,
                SchemaKind::Boolean => TypeTag::Boolean,
                SchemaKind::Array => TypeTag::Array,
                SchemaKind::Object => TypeTag::Object,
                SchemaKind::Other => TypeTag::Str,
            };
            PropDesc { ty, description: clone_opt(&p.description) }
        }
        RefOr::Reference(_) => PropDesc { ty: TypeTag::Str, description: None },
    }
}

/// Index of the first JSON media entry of a content map, if any.
fn find_json_media(content: &Vec<MediaEntry>) -> (r: Option<usize>)
    ensures
        match r {
            Some(i) => 0 <= i < content@.len() && first_json_media(content@) == Some(
                content@[i as int],
            ),
            None => first_json_media(content@) is None,
        },
{
    let jc = chars_of("application/json");
    let mut i: usize = 0;
    proof {
        assert(content@.subrange(0, content@.len() as int) =~= content@);
    }
    while i < content.len()
        invariant
            i <= content@.len(),
            jc@ == "application/json"@,
            first_json_media(content@) == first_json_media(
                content@.subrange(i as int, content@.len() as int),
            ),
        decreases content@.len() - i,
    {
        let mc = chars_of(content[i].media_type.as_str());
        let ghost suffix = content@.subrange(i as int, content@.len() as int);
        if chars_eq(&mc, &jc) {
            proof {
                assert(suffix[0] == content@[i as int]);
                assert(first_json_media(suffix) == Some(content@[i as int]));
            }
            return Some(i);
        }
        proof {
            assert(suffix[0] == content@[i as int]);
            assert(suffix.drop_first() =~= content@.subrange(i + 1 as int, content@.len() as int));
        }
        i = i + 1;
    }
    proof {
        assert(content@.subrange(content@.len() as int, content@.len() as int).len() == 0);
    }
    None
}

/// Index of the first named component schema carrying the name.
fn find_schema(schemas: &Vec<(String, RefOr<BodySchema>)>, name: &Vec<char>) -> (r: Option<usize>)
    ensures
        match r {
            Some(i) => 0 <= i < schemas@.len() && lookup_schema(schemas@, name@) == Some(
                schemas@[i as int].1,
            ),
            None => lookup_schema(schemas@, name@) is None,
        },
{
    let mut i: usize = 0;
    proof {
        assert(schemas@.subrange(0, schemas@.len() as int) =~= schemas@);
    }
    while i < schemas.len()
        invariant
            i <= schemas@.len(),
            lookup_schema(schemas@, name@) == lookup_schema(
                schemas@.subrange(i as int, schemas@.len() as int),
                name@,
            ),
        decreases schemas@.len() - i,
    {
        let sc = chars_of(schemas[i].0.as_str());
        let ghost suffix = schemas@.subrange(i as int, schemas@.len() as int);
        if chars_eq(&sc, name) {
            proof {
                assert(suffix[0] == schemas@[i as int]);
                assert(lookup_schema(suffix, name@) == Some(schemas@[i as int].1));
            }
            return Some(i);
        }
        proof {
            assert(suffix[0] == schemas@[i as int]);
            assert(suffix.drop_first() =~= schemas@.subrange(i + 1 as int, schemas@.len() as int));
        }
        i = i + 1;
    }
    proof {
        assert(schemas@.subrange(schemas@.len() as int, schemas@.len() as int).len() == 0);
    }
    None
}

/// The component-schema name under the reference prefix, if the
/// reference carries it.
fn strip_schemas_prefix(r: &String) -> (res: Option<Vec<char>>)
    ensures
        match res {
            Some(rest) => r@.len() >= schemas_prefix().len() && r@.subrange(
                0,
                schemas_prefix().len() as int,
            ) == schemas_prefix() && rest@ == r@.subrange(
                schemas_prefix().len() as int,
                r@.len() as int,
            ),
            None => !(r@.len() >= schemas_prefix().len() && r@.subrange(
                0,
                schemas_prefix().len() as int,
            ) == schemas_prefix()),
        },
{
    let rc = chars_of(r.as_str());
    let pc = chars_of("#/components/schemas/");
    proof {
        assert(pc@ == schemas_prefix());
    }
    if rc.len() < pc.len() {
        return None;
    }
    let mut i: usize = 0;
    while i < pc.len()
        invariant
            i <= pc@.len() <= rc@.len(),
            rc@ == r@,
            pc@ == schemas_prefix(),
            forall|j: int| 0 <= j < i ==> rc@[j] == pc@[j],
        decreases pc@.len() - i,
    {
        if rc[i] != pc[i] {
            proof {
                assert(r@.subrange(0, schemas_prefix().len() as int)[i as int] != schemas_prefix()[i as int]);
            }
            return None;
        }
        i = i + 1;
    }
    proof {
        assert(r@.subrange(0, schemas_prefix().len() as int) =~= schemas_prefix());
    }
    let mut rest: Vec<char> = Vec::new();
    let mut k: usize = pc.len();
    while k < rc.len()
        invariant
            pc@.len() <= k <= rc@.len(),
            rc@ == r@,
            pc@ == schemas_prefix(),
            rest@ == r@.subrange(pc@.len() as int, k as int),
        decreases rc@.len() - k,
    {
        rest.push(rc[k]);
        proof {
            assert(r@.subrange(pc@.len() as int, k + 1 as int) =~= r@.subrange(
                pc@.len() as int,
                k as int,
            ).push(r@[k as int]));
        }
        k = k + 1;
    }
    Some(rest)
}

/// The resolved JSON request-body schema of an operation, if any.
fn resolve_body_schema<'a>(doc: &'a Document, op: &'a Operation) -> (r: Option<&'a BodySchema>)
    ensures
        match r {
            Some(s) => body_schema_of(*doc, *op) == Some(*s),
            None => body_schema_of(*doc, *op) is None,
        },
{
    let rb = match &op.request_body {
        Some(RefOr::Item(rb)) => rb,
        _ => {
            return None;
        },
    };
    let media_idx = match find_json_media(&rb.content) {
        Some(i) => i,
        None => {
            return None;
        },
    };
    let sr = match &rb.content[media_idx].schema {
        Some(sr) => sr,
        None => {
            return None;
        },
    };
    match sr {
        RefOr::Item(s) => Some(s),
        RefOr::Reference(rname) => {
            let rest = match strip_schemas_prefix(rname) {
                Some(rest) => rest,
                None => {
                    return None;
                },
            };
            match find_schema(&doc.schemas, &rest) {
                Some(i) => match &doc.schemas[i].1 {
                    RefOr::Item(s) => Some(s),
                    RefOr::Reference(_) => None,
                },
                None => None,
            }
        }
    }
}

/// The full input schema of one operation: every resolvable declared
/// parameter as a string-typed property, path and explicitly required
/// parameters required, then the flattened JSON body object on top,
/// its properties overwriting parameters of the same name.
pub fn build_input_schema(doc: &Document, op: &Operation) -> (r: InputSchema)
    ensures
        props_view(r.properties@) == op_schema(*doc, *op).0,
        req_view(r.required@) == op_schema(*doc, *op).1,
{
    let mut props: Vec<(String, PropDesc)> = Vec::new();
    let mut req: Vec<String> = Vec::new();
    let ghost params = op.parameters@;
    let mut i: usize = 0;
    proof {
        assert(params.subrange(0, 0) =~= Seq::<RefOr<Param>>::empty());
    }
    while i < op.parameters.len()
        invariant
            i <= params.len(),
            params == op.parameters@,
            props_view(props@) == params_fold(params.subrange(0, i as int)).0,
            req_view(req@) == params_fold(params.subrange(0, i as int)).1,
        decreases params.len() - i,
    {
        let ghost sub1 = params.subrange(0, i + 1 as int);
        proof {
            assert(sub1.drop_last() =~= params.subrange(0, i as int));
            assert(sub1.last() == params[i as int]);
        }
        match &op.parameters[i] {
            RefOr::Reference(_) => {}
            RefOr::Item(p) => {
                let is_path = p.location == ParamLocation::Path;
                if is_path || p.required {
                    push_required(&mut req, p.name.clone());
                }
                let desc = match p.format {
                    ParamFormat::SchemaItem => clone_opt(&p.description),
                    _ => None,
                };
                upsert_prop(&mut props, p.name.clone(), PropDesc { ty: TypeTag::Str, description: desc });
            }
        }
        i = i + 1;
    }
    proof {
        assert(params.subrange(0, params.len() as int) =~= params);
    }
    match resolve_body_schema(doc, op) {
        Some(BodySchema::ObjectType { properties, required }) => {
            let ghost acc = params_fold(params);
            let ghost bprops = properties@;
            let mut j: usize = 0;
            proof {
                assert(bprops.subrange(0, 0) =~= Seq::<(String, RefOr<PropSchema>)>::empty());
            }
            while j < properties.len()
                invariant
                    j <= bprops.len(),
                    bprops == properties@,
                    props_view(props@) == body_props_fold(bprops.subrange(0, j as int), acc.0),
                    req_view(req@) == acc.1,
                decreases bprops.len() - j,
            {
                let ghost sub1 = bprops.subrange(0, j + 1 as int);
                proof {
                    assert(sub1.drop_last() =~= bprops.subrange(0, j as int));
                    assert(sub1.last() == bprops[j as int]);
                }
                let p = build_prop(&properties[j].1);
                upsert_prop(&mut props, properties[j].0.clone(), p);
                j = j + 1;
            }
            proof {
                assert(bprops.subrange(0, bprops.len() as int) =~= bprops);
            }
            let ghost bnames = required@;
            let mut k: usize = 0;
            proof {
                assert(bnames.subrange(0, 0) =~= Seq::<String>::empty());
            }
            while k < required.len()
                invariant
                    k <= bnames.len(),
                    bnames == required@,
                    props_view(props@) == body_props_fold(bprops, acc.0),
                    req_view(req@) == body_req_fold(bnames.subrange(0, k as int), acc.1),
                decreases bnames.len() - k,
            {
                let ghost sub1 = bnames.subrange(0, k + 1 as int);
                proof {
                    assert(sub1.drop_last() =~= bnames.subrange(0, k as int));
                    assert(sub1.last() == bnames[k as int]);
                }
                push_required(&mut req, required[k].clone());
                k = k + 1;
            }
            proof {
                assert(bnames.subrange(0, bnames.len() as int) =~= bnames);
            }
        }
        _ => {}
    }
    InputSchema { properties: props, required: req }
}

/// The description of a tool: the summary, else the description,
/// else the method and path template.
fn build_description(m: Method, path: &String, op: &Operation) -> (r: String)
    ensures
        r@ == tool_description(m, path@, *op),
{
    match &op.summary {
        Some(s) => s.clone(),
        None => match &op.description {
            Some(d) => d.clone(),
            None => {
                let mut out = m.upper_chars();
                out.push(' ');
                let pc = chars_of(path.as_str());
                let mut i: usize = 0;
                while i < pc.len()
                    invariant
                        i <= pc@.len(),
                        pc@ == path@,
                        out@ == method_upper(m) + seq![' '] + path@.subrange(0, i as int),
                    decreases pc@.len() - i,
                {
                    out.push(pc[i]);
                    proof {
                        assert(path@.subrange(0, i + 1 as int) =~= path@.subrange(0, i as int).push(
                            path@[i as int],
                        ));
                    }
                    i = i + 1;
                }
                proof {
                    assert(path@.subrange(0, path@.len() as int) =~= path@);
                }
                string_from_chars(&out)
            }
        },
    }
}

/// Derive the tool for one operation and add it to the list.
pub fn process_operation(
    doc: &Document,
    path: &String,
    m: Method,
    op: &Operation,
    tools: &mut Vec<Tool>,
)
    ensures
        tools_view(final(tools)@) == tools_view(old(tools)@) + seq![
            tool_spec(*doc, path@, m, *op),
        ],
{
    let name = encode_tool_name(m, path.as_str());
    let description = build_description(m, path, op);
    let input_schema = build_input_schema(doc, op);
    let ghost orig = tools_view(tools@);
    tools.push(Tool { name, description, input_schema });
    proof {
        assert(tools_view(tools@) =~= orig + seq![tool_spec(*doc, path@, m, *op)]);
    }
}

/// Build the whole tool catalog from the document, one tool per
/// populated method slot of each concrete path entry, in document
/// order.
pub fn generate_tools_from_spec(doc: &Document) -> (r: Vec<Tool>)
    ensures
        tools_view(r@) == catalog_spec(*doc),
{
    let mut tools: Vec<Tool> = Vec::new();
    let mut i: usize = 0;
    while i < doc.paths.len()
        invariant
            i <= doc.paths@.len(),
            tools_view(tools@) == catalog_upto(*doc, i as int),
        decreases doc.paths@.len() - i,
    {
        let ghost before = tools_view(tools@);
        match &doc.paths[i].1 {
            RefOr::Reference(_) => {
                proof {
                    assert(entry_tools(*doc, doc.paths@[i as int]) =~= Seq::<ToolV>::empty());
                    assert(tools_view(tools@) =~= catalog_upto(*doc, i + 1 as int));
                }
            }
            RefOr::Item(pi) => {
                let path = &doc.paths[i].0;
                if let Some(op) = pi.slot(Method::Get) {
                    process_operation(doc, path, Method::Get, op, &mut tools);
                }
                if let Some(op) = pi.slot(Method::Post) {
                    process_operation(doc, path, Method::Post, op, &mut tools);
                }
                if let Some(op) = pi.slot(Method::Put) {
                    process_operation(doc, path, Method::Put, op, &mut tools);
                }
                if let Some(op) = pi.slot(Method::Delete) {
                    process_operation(doc, path, Method::Delete, op, &mut tools);
                }
                if let Some(op) = pi.slot(Method::Patch) {
                    process_operation(doc, path, Method::Patch, op, &mut tools);
                }
                proof {
                    assert(tools_view(tools@) =~= before + entry_tools(*doc, doc.paths@[i as int]));
                    assert(tools_view(tools@) =~= catalog_upto(*doc, i + 1 as int));
                }
            }
        }
        i = i + 1;
    }
    tools
}

} // verus!
