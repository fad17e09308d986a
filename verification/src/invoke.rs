use vstd::prelude::*;

verus! {

use crate::codec::{entry_matches, find_from, find_operation, match_method, method_of_upper,
    split_name, split_tool_name};
use crate::json::{duplicate, jv, obj_view, stringified, stringify_value, JsonV, JsonValue};
use crate::model::{method_slot, Document, Method, Operation, Param, ParamLocation, RefOr};
use crate::text::{chars_of, dec_digits, dec_string, string_from_chars, to_upper, trim_end_char,
    trim_trailing, upper_seq};

/// Why an invocation could not be carried out, or why its outbound
/// request came back as a failure.
#[derive(Debug)]
pub enum InvokeError {
    /// The tool name holds no underscore and so decodes to nothing.
    InvalidName { name: String },
    /// No path entry answers the decoded method and path key.
    OperationNotFound { method: String, key: String },
    /// The arguments payload is not a JSON object.
    MalformedArguments,
    /// The outbound request came back with a non-success status.
    RequestFailed { status: u16, body: String },
}

/// The outbound request computed for one invocation: the resolved
/// method, the URL with path placeholders substituted, the query
/// pairs in declaration order, and the flat body object.
#[derive(Debug)]
pub struct RequestPlan {
    pub method: Method,
    pub url: String,
    pub query: Vec<(String, String)>,
    pub body: Vec<(String, JsonValue)>,
}

/// The texts of the query pairs.
pub open spec fn query_view(q: Seq<(String, String)>) -> Seq<(Seq<char>, Seq<char>)> {
    q.map_values(|p: (String, String)| (p.0@, p.1@))
}

/// Whether `pat` occurs in `s` starting at position `i`.
pub open spec fn match_at(s: Seq<char>, pat: Seq<char>, i: int) -> bool {
    s.subrange(i, i + pat.len()) == pat
}

/// Whether `pat` occurs anywhere in `s`.
pub open spec fn contains_pat(s: Seq<char>, pat: Seq<char>) -> bool {
    exists|i: int| 0 <= i && i + pat.len() <= s.len() && match_at(s, pat, i)
}

/// `s` with every non-overlapping occurrence of `pat` replaced by
/// `rep`, scanning from the left.
pub open spec fn replace_all(s: Seq<char>, pat: Seq<char>, rep: Seq<char>) -> Seq<char>
    decreases s.len(),
    when pat.len() >= 1
{
    if s.len() < pat.len() {
        s
    } else if s.subrange(0, pat.len() as int) == pat {
        rep + replace_all(s.subrange(pat.len() as int, s.len() as int), pat, rep)
    } else {
        seq![s[0]] + replace_all(s.drop_first(), pat, rep)
    }
}

/// The placeholder text for an argument name.
pub open spec fn brace(k: Seq<char>) -> Seq<char> {
    seq!['{'] + k + seq!['}']
}

/// The URL after substituting, argument by argument in order, every
/// argument whose placeholder occurs in the path template.
pub open spec fn subst_fold(
    url: Seq<char>,
    path: Seq<char>,
    args: Seq<(Seq<char>, JsonV)>,
) -> Seq<char>
    decreases args.len(),
{
    if args.len() == 0 {
        url
    } else {
        let u = subst_fold(url, path, args.drop_last());
        let last = args.last();
        if contains_pat(path, brace(last.0)) {
            replace_all(u, brace(last.0), stringified(last.1))
        } else {
            u
        }
    }
}

/// Whether a resolvable declared parameter carries the name.
pub open spec fn param_declared(params: Seq<RefOr<Param>>, k: Seq<char>) -> bool {
    exists|i: int|
        0 <= i < params.len() && params[i] is Item && params[i]->Item_0.name@ == k
}

/// The first argument value carrying the name, if any.
pub open spec fn lookup_arg(args: Seq<(Seq<char>, JsonV)>, k: Seq<char>) -> Option<JsonV>
    decreases args.len(),
{
    if args.len() == 0 {
        None
    } else if args[0].0 == k {
        Some(args[0].1)
    } else {
        lookup_arg(args.drop_first(), k)
    }
}

/// The query pairs contributed by the declared parameters, in
/// declaration order: each resolvable query parameter whose name has
/// an argument and was not consumed by path substitution.
pub open spec fn query_fold(
    params: Seq<RefOr<Param>>,
    path: Seq<char>,
    args: Seq<(Seq<char>, JsonV)>,
) -> Seq<(Seq<char>, Seq<char>)>
    decreases params.len(),
{
    if params.len() == 0 {
        Seq::empty()
    } else {
        let q = query_fold(params.drop_last(), path, args);
        match params.last() {
            RefOr::Item(p) => if p.location is Query && !contains_pat(path, brace(p.name@)) {
                match lookup_arg(args, p.name@) {
                    Some(v) => q.push((p.name@, stringified(v))),
                    None => q,
                }
            } else {
                q
            },
            RefOr::Reference(_) => q,
        }
    }
}

/// Whether an argument name is consumed before the body: substituted
/// into the path, or claimed by any declared parameter.
pub open spec fn consumed(path: Seq<char>, params: Seq<RefOr<Param>>, k: Seq<char>) -> bool {
    contains_pat(path, brace(k)) || param_declared(params, k)
}

/// The flat body object: every argument not consumed by substitution
/// or by a declared parameter, in argument order.
pub open spec fn body_fold(
    args: Seq<(Seq<char>, JsonV)>,
    path: Seq<char>,
    params: Seq<RefOr<Param>>,
) -> Seq<(Seq<char>, JsonV)>
    decreases args.len(),
{
    if args.len() == 0 {
        Seq::empty()
    } else {
        let b = body_fold(args.drop_last(), path, params);
        if consumed(path, params, args.last().0) {
            b
        } else {
            b.push(args.last())
        }
    }
}

/// Whether `pat` occurs anywhere in `s`, computed.
fn contains_chars(s: &Vec<char>, pat: &Vec<char>) -> (r: bool)
    ensures
        r == contains_pat(s@, pat@),
{
    if pat.len() > s.len() {
        proof {
            assert(!contains_pat(s@, pat@));
        }
        return false;
    }
    let mut i: usize = 0;
    let n = s.len();
    while i <= s.len() - pat.len()
        invariant
            n == s@.len(),
            pat@.len() <= s@.len(),
            i <= s@.len() - pat@.len() + 1,
            forall|j: int| 0 <= j < i ==> !match_at(s@, pat@, j),
        decreases s@.len() - pat@.len() - i + 1,
    {
        let mut k: usize = 0;
        let mut hit = true;
        while k < pat.len() && hit
            invariant
                s@.len() <= usize::MAX,
                k <= pat@.len(),
                i + pat@.len() <= s@.len(),
                hit ==> forall|j: int| 0 <= j < k ==> s@[i + j] == pat@[j],
                !hit ==> exists|j: int| 0 <= j < pat@.len() && s@[i + j] != pat@[j],
            decreases pat@.len() - k,
        {
            if s[i + k] != pat[k] {
                hit = false;
                proof {
                    assert(s@[i + k as int] != pat@[k as int]);
                }
            }
            k = k + 1;
        }
        if hit {
            proof {
                assert(s@.subrange(i as int, i + pat@.len()) =~= pat@);
                assert(match_at(s@, pat@, i as int));
            }
            return true;
        }
        proof {
            if match_at(s@, pat@, i as int) {
                let j0 = choose|j: int| 0 <= j < pat@.len() && s@[i + j] != pat@[j];
                assert(s@.subrange(i as int, i + pat@.len())[j0] == s@[i + j0]);
                assert(false);
            }
        }
        i = i + 1;
    }
    proof {
        assert(forall|j: int| 0 <= j && j + pat@.len() <= s@.len() ==> !match_at(s@, pat@, j));
    }
    false
}

/// `s` with every non-overlapping occurrence of `pat` replaced by
/// `rep`, scanning from the left, computed.
fn replace_chars(s: &Vec<char>, pat: &Vec<char>, rep: &Vec<char>) -> (r: Vec<char>)
    requires
        pat@.len() >= 1,
    ensures
        r@ == replace_all(s@, pat@, rep@),
{
    let mut out: Vec<char> = Vec::new();
    let mut i: usize = 0;
    let n = s.len();
    proof {
        assert(s@.subrange(0, s@.len() as int) =~= s@);
        assert(Seq::<char>::empty() + replace_all(s@, pat@, rep@) =~= replace_all(s@, pat@, rep@));
    }
    while i < s.len()
        invariant
            n == s@.len(),
            i <= s@.len(),
            pat@.len() >= 1,
            replace_all(s@, pat@, rep@) == out@ + replace_all(
                s@.subrange(i as int, s@.len() as int),
                pat@,
                rep@,
            ),
        decreases s@.len() - i,
    {
        let ghost rest = s@.subrange(i as int, s@.len() as int);
        let mut hit = false;
        if s.len() - i >= pat.len() {
            let mut k: usize = 0;
            hit = true;
            while k < pat.len() && hit
                invariant
                    s@.len() <= usize::MAX,
                    k <= pat@.len(),
                    i + pat@.len() <= s@.len(),
                    hit ==> forall|j: int| 0 <= j < k ==> s@[i + j] == pat@[j],
                    !hit ==> exists|j: int| 0 <= j < pat@.len() && s@[i + j] != pat@[j],
                decreases pat@.len() - k,
            {
                if s[i + k] != pat[k] {
                    hit = false;
                    proof {
                        assert(s@[i + k as int] != pat@[k as int]);
                    }
                }
                k = k + 1;
            }
        }
        if hit {
            proof {
                assert(rest.len() >= pat@.len());
                assert(rest.subrange(0, pat@.len() as int) =~= pat@);
            }
            let ghost out0 = out@;
            let mut t: usize = 0;
            while t < rep.len()
                invariant
                    t <= rep@.len(),
                    out@ == out0 + rep@.subrange(0, t as int),
                decreases rep@.len() - t,
            {
                out.push(rep[t]);
                proof {
                    assert(rep@.subrange(0, t + 1 as int) =~= rep@.subrange(0, t as int).push(
                        rep@[t as int],
                    ));
                }
                t = t + 1;
            }
            proof {
                assert(rep@.subrange(0, rep@.len() as int) =~= rep@);
            }
            proof {
                assert(rest.subrange(pat@.len() as int, rest.len() as int) =~= s@.subrange(
                    i + pat@.len(),
                    s@.len() as int,
                ));
            }
            i = i + pat.len();
        } else {
            proof {
                if rest.len() >= pat@.len() {
                    if rest.subrange(0, pat@.len() as int) == pat@ {
                        let j0 = choose|j: int| 0 <= j < pat@.len() && s@[i + j] != pat@[j];
                        assert(rest.subrange(0, pat@.len() as int)[j0] == s@[i + j0]);
                        assert(false);
                    }
                }
            }
            out.push(s[i]);
            proof {
                assert(rest.drop_first() =~= s@.subrange(i + 1 as int, s@.len() as int));
                assert(seq![rest[0]] + rest.drop_first() =~= rest);
            }
            i = i + 1;
        }
    }
    proof {
        assert(s@.subrange(s@.len() as int, s@.len() as int).len() == 0);
    }
    out
}

/// First argument entry carrying the name, if any, by position.
fn lookup_value(pairs: &Vec<(String, JsonValue)>, name: &String) -> (r: Option<usize>)
    ensures
        match r {
            Some(j) => 0 <= j < pairs@.len() && pairs@[j as int].0@ == name@ && lookup_arg(
                obj_view(pairs@),
                name@,
            ) == Some(jv(pairs@[j as int].1)),
            None => lookup_arg(obj_view(pairs@), name@) is None,
        },
{
    let ghost full = obj_view(pairs@);
    let mut j: usize = 0;
    proof {
        assert(full.subrange(0, full.len() as int) =~= full);
    }
    while j < pairs.len()
        invariant
            j <= pairs@.len(),
            full == obj_view(pairs@),
            lookup_arg(full, name@) == lookup_arg(
                full.subrange(j as int, full.len() as int),
                name@,
            ),
        decreases pairs@.len() - j,
    {
        let ghost suffix = full.subrange(j as int, full.len() as int);
        if pairs[j].0 == *name {
            proof {
                assert(suffix[0] == full[j as int]);
                assert(lookup_arg(suffix, name@) == Some(full[j as int].1));
            }
            return Some(j);
        }
        proof {
            assert(suffix[0] == full[j as int]);
            assert(suffix.drop_first() =~= full.subrange(j + 1 as int, full.len() as int));
        }
        j = j + 1;
    }
    None
}

/// Whether any resolvable declared parameter carries the name.
fn is_declared(params: &Vec<RefOr<Param>>, name: &String) -> (r: bool)
    ensures
        r == param_declared(params@, name@),
{
    let mut i: usize = 0;
    while i < params.len()
        invariant
            i <= params@.len(),
            forall|j: int|
                0 <= j < i ==> !(params@[j] is Item && params@[j]->Item_0.name@ == name@),
        decreases params@.len() - i,
    {
        match &params[i] {
            RefOr::Item(p) => {
                if p.name == *name {
                    return true;
                }
            }
            RefOr::Reference(_) => {}
        }
        i = i + 1;
    }
    false
}

/// Whether a plan is the correct outbound request for the resolved
/// operation at path index `pidx` with the given argument object.
pub open spec fn plan_ok(
    doc: Document,
    base: Seq<char>,
    m: Method,
    pidx: int,
    args: Seq<(Seq<char>, JsonV)>,
    plan: RequestPlan,
) -> bool {
    let path = doc.paths@[pidx].0@;
    let op = method_slot(doc.paths@[pidx].1->Item_0, m)->Some_0;
    &&& plan.method == m
    &&& plan.url@ == subst_fold(trim_trailing(base, '/') + path, path, args)
    &&& query_view(plan.query@) == query_fold(op.parameters@, path, args)
    &&& obj_view(plan.body@) == body_fold(args, path, op.parameters@)
}

proof fn lemma_find_from_props(
    paths: Seq<(String, crate::model::RefOr<crate::model::PathItem>)>,
    m: Method,
    key: Seq<char>,
    lo: int,
    r: int,
)
    requires
        0 <= lo,
        find_from(paths, m, key, lo) == Some(r),
    ensures
        lo <= r < paths.len(),
        entry_matches(paths[r], m, key),
    decreases paths.len() - lo,
{
    if lo < paths.len() {
        if !entry_matches(paths[lo], m, key) {
            lemma_find_from_props(paths, m, key, lo + 1, r);
        }
    }
}

/// The placeholder characters for an argument name.
fn brace_chars(name: &str) -> (r: Vec<char>)
    ensures
        r@ == brace(name@),
{
    let mut r: Vec<char> = Vec::new();
    r.push('{');
    let kc = chars_of(name);
    let mut i: usize = 0;
    while i < kc.len()
        invariant
            i <= kc@.len(),
            kc@ == name@,
            r@ == seq!['{'] + name@.subrange(0, i as int),
        decreases kc@.len() - i,
    {
        r.push(kc[i]);
        proof {
            assert(name@.subrange(0, i + 1 as int) =~= name@.subrange(0, i as int).push(
                name@[i as int],
            ));
        }
        i = i + 1;
    }
    r.push('}');
    proof {
        assert(name@.subrange(0, name@.len() as int) =~= name@);
        assert(r@ =~= brace(name@));
    }
    r
}

/// Decode a tool name, resolve its operation, and partition the
/// arguments into path substitutions, query pairs, and the flat
/// request body, exactly one destination per argument name.
pub fn plan_invocation(
    doc: &Document,
    base_url: &str,
    tool_name: &str,
    args: &JsonValue,
) -> (r: Result<RequestPlan, InvokeError>)
    ensures
        ({
            let nm = tool_name@;
            match split_tool_name(nm) {
                None => r matches Err(e) && e matches InvokeError::InvalidName { name }
                    && name@ == nm,
                Some(parts) => {
                    let mu = upper_seq(parts.0);
                    match method_of_upper(mu) {
                        None => r matches Err(e) && e matches InvokeError::OperationNotFound {
                            method,
                            key,
                        } && method@ == mu && key@ == parts.1,
                        Some(m) => match find_from(doc.paths@, m, parts.1, 0) {
                            None => r matches Err(e) && e matches InvokeError::OperationNotFound {
                                method,
                                key,
                            } && method@ == mu && key@ == parts.1,
                            Some(i) => if jv(*args) is Obj {
                                r matches Ok(plan) && plan_ok(
                                    *doc,
                                    base_url@,
                                    m,
                                    i,
                                    jv(*args)->Obj_0,
                                    plan,
                                )
                            } else {
                                r == Err::<RequestPlan, InvokeError>(
                                    InvokeError::MalformedArguments,
                                )
                            },
                        },
                    }
                },
            }
        }),
{
    let name_chars = chars_of(tool_name);
    let parts = match split_name(&name_chars) {
        Some(p) => p,
        None => {
            return Err(InvokeError::InvalidName { name: String::from_str(tool_name) });
        },
    };
    let upper = to_upper(&parts.0);
    let m = match match_method(&upper) {
        Some(m) => m,
        None => {
            return Err(
                InvokeError::OperationNotFound {
                    method: string_from_chars(&upper),
                    key: string_from_chars(&parts.1),
                },
            );
        },
    };
    let pidx = match find_operation(doc, m, &parts.1) {
        Some(i) => i,
        None => {
            return Err(
                InvokeError::OperationNotFound {
                    method: string_from_chars(&upper),
                    key: string_from_chars(&parts.1),
                },
            );
        },
    };
    proof {
        lemma_find_from_props(doc.paths@, m, parts.1@, 0, pidx as int);
    }
    let pairs = match args {
        JsonValue::Obj(pairs) => pairs,
        _ => {
            return Err(InvokeError::MalformedArguments);
        },
    };
    let ghost argsv = jv(*args)->Obj_0;
    proof {
        assert(argsv =~= obj_view(pairs@));
    }
    let path_string = &doc.paths[pidx].0;
    let path = chars_of(path_string.as_str());
    let pi = match &doc.paths[pidx].1 {
        RefOr::Item(pi) => pi,
        RefOr::Reference(_) => {
            proof {
                assert(false);
            }
            return Err(InvokeError::MalformedArguments);
        },
    };
    let op = match pi.slot(m) {
        Some(op) => op,
        None => {
            proof {
                assert(false);
            }
            return Err(InvokeError::MalformedArguments);
        },
    };
    // Base URL with trailing slashes trimmed, then the literal path
    // template.
    let bc = chars_of(base_url);
    let bt = trim_end_char(&bc, '/');
    let ghost url0 = trim_trailing(base_url@, '/') + path_string@;
    let mut url = bt;
    let mut i: usize = 0;
    while i < path.len()
        invariant
            i <= path@.len(),
            path@ == path_string@,
            url@ == trim_trailing(base_url@, '/') + path@.subrange(0, i as int),
        decreases path@.len() - i,
    {
        url.push(path[i]);
        proof {
            assert(path@.subrange(0, i + 1 as int) =~= path@.subrange(0, i as int).push(
                path@[i as int],
            ));
        }
        i = i + 1;
    }
    proof {
        assert(path@.subrange(0, path@.len() as int) =~= path@);
        assert(url@ == url0);
        assert(argsv.subrange(0, 0) =~= Seq::<(Seq<char>, JsonV)>::empty());
    }
    // Substitute every argument whose placeholder occurs in the path
    // template.
    let mut t: usize = 0;
    while t < pairs.len()
        invariant
            t <= pairs@.len(),
            argsv == obj_view(pairs@),
            path@ == path_string@,
            url@ == subst_fold(url0, path@, argsv.subrange(0, t as int)),
        decreases pairs@.len() - t,
    {
        let ghost sub1 = argsv.subrange(0, t + 1 as int);
        proof {
            assert(sub1.drop_last() =~= argsv.subrange(0, t as int));
            assert(sub1.last() == argsv[t as int]);
            assert(argsv[t as int] == (pairs@[t as int].0@, jv(pairs@[t as int].1)));
        }
        let pat = brace_chars(pairs[t].0.as_str());
        if contains_chars(&path, &pat) {
            let sv = stringify_value(&pairs[t].1);
            url = replace_chars(&url, &pat, &sv);
        }
        t = t + 1;
    }
    proof {
        assert(argsv.subrange(0, argsv.len() as int) =~= argsv);
    }
    // Query pairs from declared parameters not consumed by
    // substitution.
    let mut query: Vec<(String, String)> = Vec::new();
    let ghost params = op.parameters@;
    proof {
        assert(params.subrange(0, 0) =~= Seq::<RefOr<Param>>::empty());
        assert(query_view(query@) =~= query_fold(params.subrange(0, 0), path@, argsv));
    }
    let mut qi: usize = 0;
    while qi < op.parameters.len()
        invariant
            qi <= params.len(),
            params == op.parameters@,
            argsv == obj_view(pairs@),
            path@ == path_string@,
            query_view(query@) == query_fold(params.subrange(0, qi as int), path@, argsv),
        decreases params.len() - qi,
    {
        let ghost sub1 = params.subrange(0, qi + 1 as int);
        proof {
            assert(sub1.drop_last() =~= params.subrange(0, qi as int));
            assert(sub1.last() == params[qi as int]);
        }
        match &op.parameters[qi] {
            RefOr::Item(p) => {
                if p.location == ParamLocation::Query {
                    let pat = brace_chars(p.name.as_str());
                    if !contains_chars(&path, &pat) {
                        match lookup_value(pairs, &p.name) {
                            Some(j) => {
                                let sv = stringify_value(&pairs[j].1);
                                let ghost before = query_view(query@);
                                query.push((p.name.clone(), string_from_chars(&sv)));
                                proof {
                                    assert(lookup_arg(argsv, p.name@) == Some(
                                        jv(pairs@[j as int].1),
                                    ));
                                    assert(query_view(query@) =~= before.push(
                                        (p.name@, stringified(jv(pairs@[j as int].1))),
                                    ));
                                }
                            }
                            None => {}
                        }
                    }
                }
            }
            RefOr::Reference(_) => {}
        }
        qi = qi + 1;
    }
    proof {
        assert(params.subrange(0, params.len() as int) =~= params);
    }
    // Whatever was not substituted and not declared flows into the
    // flat body object.
    let mut body: Vec<(String, JsonValue)> = Vec::new();
    proof {
        assert(argsv.subrange(0, 0) =~= Seq::<(Seq<char>, JsonV)>::empty());
        assert(obj_view(body@) =~= body_fold(argsv.subrange(0, 0), path@, params));
    }
    let mut bi: usize = 0;
    while bi < pairs.len()
        invariant
            bi <= pairs@.len(),
            params == op.parameters@,
            argsv == obj_view(pairs@),
            path@ == path_string@,
            obj_view(body@) == body_fold(argsv.subrange(0, bi as int), path@, params),
        decreases pairs@.len() - bi,
    {
        let ghost sub1 = argsv.subrange(0, bi + 1 as int);
        proof {
            assert(sub1.drop_last() =~= argsv.subrange(0, bi as int));
            assert(sub1.last() == argsv[bi as int]);
            assert(argsv[bi as int] == (pairs@[bi as int].0@, jv(pairs@[bi as int].1)));
        }
        let pat = brace_chars(pairs[bi].0.as_str());
        let in_path = contains_chars(&path, &pat);
        let declared = is_declared(&op.parameters, &pairs[bi].0);
        if !in_path && !declared {
            let ghost before = obj_view(body@);
            let dv = duplicate(&pairs[bi].1);
            body.push((pairs[bi].0.clone(), dv));
            proof {
                assert(obj_view(body@) =~= before.push(
                    (pairs@[bi as int].0@, jv(pairs@[bi as int].1)),
                ));
            }
        }
        bi = bi + 1;
    }
    proof {
        assert(argsv.subrange(0, argsv.len() as int) =~= argsv);
    }
    Ok(RequestPlan { method: m, url: string_from_chars(&url), query, body })
}

/// The message text of an invocation error.
pub open spec fn error_message(e: InvokeError) -> Seq<char> {
    match e {
        InvokeError::InvalidName { name } => "Invalid tool name format: "@ + name@,
        InvokeError::OperationNotFound { method, key } => "Operation not found for "@ + method@
            + " "@ + key@,
        InvokeError::MalformedArguments => "Arguments must be an object"@,
        InvokeError::RequestFailed { status, body } => "API request failed with status "@
            + dec_digits(status as nat) + ": "@ + body@,
    }
}

impl InvokeError {
    /// The message text of the error.
    pub fn message(&self) -> (r: String)
        ensures
            r@ == error_message(*self),
    {
        match self {
            InvokeError::InvalidName { name } => {
                let mut s = String::from_str("Invalid tool name format: ");
                s.append(name.as_str());
                s
            }
            InvokeError::OperationNotFound { method, key } => {
                let mut s = String::from_str("Operation not found for ");
                s.append(method.as_str());
                s.append(" ");
                s.append(key.as_str());
                s
            }
            InvokeError::MalformedArguments => String::from_str("Arguments must be an object"),
            InvokeError::RequestFailed { status, body } => {
                let mut s = String::from_str("API request failed with status ");
                let d = dec_string(*status as u64);
                s.append(d.as_str());
                s.append(": ");
                s.append(body.as_str());
                s
            }
        }
    }
}

/// Sort a response by its status: a success status returns the raw
/// body unmodified; any other status is a request failure carrying
/// the status and the raw body text.
pub fn interpret_response(status: u16, body: String) -> (r: Result<String, InvokeError>)
    ensures
        200 <= status < 300 ==> r == Ok::<String, InvokeError>(body),
        !(200 <= status < 300) ==> r == Err::<String, InvokeError>(
            InvokeError::RequestFailed { status, body },
        ),
{
    if 200 <= status && status < 300 {
        Ok(body)
    } else {
        Err(InvokeError::RequestFailed { status, body })
    }
}

/// What one call returns over the wire: its payload text and
/// whether it is error-flagged.
pub struct CallOutcome {
    pub text: String,
    pub is_error: bool,
}

/// The success outcome: the raw response text, not error-flagged.
pub fn success_outcome(text: String) -> (r: CallOutcome)
    ensures
        r.text == text,
        r.is_error == false,
{
    CallOutcome { text, is_error: false }
}

/// The error outcome: the error's message behind an error marker,
/// error-flagged.
pub fn error_outcome(e: &InvokeError) -> (r: CallOutcome)
    ensures
        r.text@ == "Error: "@ + error_message(*e),
        r.is_error == true,
{
    let mut s = String::from_str("Error: ");
    let msg = e.message();
    s.append(msg.as_str());
    CallOutcome { text: s, is_error: true }
}

} // verus!
