use vstd::prelude::*;

verus! {

use crate::model::{method_lower, method_slot, method_upper, Document, Method, PathItem, RefOr};
use crate::text::{chars_eq, chars_of, find_char, first_index_of, string_from_chars, trim_char,
    trim_ends};

/// One character of a path as it stands in a tool name: a slash
/// becomes an underscore, braces vanish, and everything else stays.
pub open spec fn flatten_step(c: char) -> Seq<char> {
    if c == '/' {
        seq!['_']
    } else if c == '{' || c == '}' {
        Seq::empty()
    } else {
        seq![c]
    }
}

/// A path with slashes turned to underscores and braces stripped.
pub open spec fn flatten_path(p: Seq<char>) -> Seq<char>
    decreases p.len(),
{
    if p.len() == 0 {
        Seq::empty()
    } else {
        flatten_path(p.drop_last()) + flatten_step(p.last())
    }
}

/// The normalized key of a path template: flattened, then trimmed of
/// leading and trailing underscores. Distinct paths can share a key;
/// that loss is part of the encoding.
pub open spec fn normalize_path(p: Seq<char>) -> Seq<char> {
    trim_ends(flatten_path(p), '_')
}

/// The tool name for a method and a path template.
pub open spec fn encode_name(m: Method, p: Seq<char>) -> Seq<char> {
    method_lower(m) + seq!['_'] + normalize_path(p)
}

/// A tool name split at its first underscore into a method prefix
/// and a normalized-path key.
pub open spec fn split_tool_name(s: Seq<char>) -> Option<(Seq<char>, Seq<char>)> {
    match first_index_of(s, '_') {
        None => None,
        Some(i) => Some((s.subrange(0, i), s.subrange(i + 1, s.len() as int))),
    }
}

/// The method whose uppercase text equals the given text, if any.
pub open spec fn method_of_upper(u: Seq<char>) -> Option<Method> {
    if u == method_upper(Method::Get) {
        Some(Method::Get)
    } else if u == method_upper(Method::Post) {
        Some(Method::Post)
    } else if u == method_upper(Method::Put) {
        Some(Method::Put)
    } else if u == method_upper(Method::Delete) {
        Some(Method::Delete)
    } else if u == method_upper(Method::Patch) {
        Some(Method::Patch)
    } else {
        None
    }
}

/// Whether a path entry answers a lookup for a method and a
/// normalized key: its own path normalizes to the key, it is a
/// concrete item, and its slot for the method is populated.
pub open spec fn entry_matches(e: (String, RefOr<PathItem>), m: Method, key: Seq<char>) -> bool {
    &&& normalize_path(e.0@) == key
    &&& e.1 is Item
    &&& method_slot(e.1->Item_0, m) is Some
}

/// Index of the first path entry at or after `i` that answers a
/// lookup for the method and key.
pub open spec fn find_from(
    paths: Seq<(String, RefOr<PathItem>)>,
    m: Method,
    key: Seq<char>,
    i: int,
) -> Option<int>
    decreases paths.len() - i,
{
    if i < 0 || i >= paths.len() {
        None
    } else if entry_matches(paths[i], m, key) {
        Some(i)
    } else {
        find_from(paths, m, key, i + 1)
    }
}

/// The normalized key of a path template, computed.
pub fn normalize_chars(p: &Vec<char>) -> (r: Vec<char>)
    ensures
        r@ == normalize_path(p@),
{
    let mut flat: Vec<char> = Vec::new();
    let mut i: usize = 0;
    while i < p.len()
        invariant
            i <= p.len(),
            flat@ == flatten_path(p@.subrange(0, i as int)),
        decreases p.len() - i,
    {
        let c = p[i];
        if c == '/' {
            flat.push('_');
        } else if c == '{' || c == '}' {
        } else {
            flat.push(c);
        }
        proof {
            let sub1 = p@.subrange(0, i + 1 as int);
            assert(sub1.drop_last() =~= p@.subrange(0, i as int));
            assert(sub1.last() == p@[i as int]);
            assert(flat@ =~= flatten_path(p@.subrange(0, i as int)) + flatten_step(p@[i as int]));
        }
        i = i + 1;
    }
    proof {
        assert(p@.subrange(0, p@.len() as int) =~= p@);
    }
    trim_char(&flat, '_')
}

/// The tool name for a method and a path template.
pub fn encode_tool_name(m: Method, path: &str) -> (r: String)
    ensures
        r@ == encode_name(m, path@),
{
    let mut out = m.lower_chars();
    out.push('_');
    let pc = chars_of(path);
    let mut norm = normalize_chars(&pc);
    let mut i: usize = 0;
    while i < norm.len()
        invariant
            i <= norm.len(),
            norm@ == normalize_path(path@),
            out@ == method_lower(m) + seq!['_'] + norm@.subrange(0, i as int),
        decreases norm.len() - i,
    {
        out.push(norm[i]);
        proof {
            assert(norm@.subrange(0, i + 1 as int) =~= norm@.subrange(0, i as int).push(
                norm@[i as int],
            ));
        }
        i = i + 1;
    }
    proof {
        assert(norm@.subrange(0, norm@.len() as int) =~= norm@);
    }
    string_from_chars(&out)
}

/// Split a tool name at its first underscore.
pub fn split_name(name: &Vec<char>) -> (r: Option<(Vec<char>, Vec<char>)>)
    ensures
        match r {
            Some(p) => split_tool_name(name@) == Some((p.0@, p.1@)),
            None => split_tool_name(name@) is None,
        },
{
    match find_char(name, '_') {
        None => None,
        Some(i) => {
            let n = name.len();
            proof {
                assert(i < n);
            }
            let mut pre: Vec<char> = Vec::new();
            let mut j: usize = 0;
            while j < i
                invariant
                    j <= i < name@.len(),
                    pre@ == name@.subrange(0, j as int),
                decreases i - j,
            {
                pre.push(name[j]);
                proof {
                    assert(name@.subrange(0, j + 1 as int) =~= name@.subrange(0, j as int).push(
                        name@[j as int],
                    ));
                }
                j = j + 1;
            }
            let mut rest: Vec<char> = Vec::new();
            let mut k: usize = i + 1;
            while k < name.len()
                invariant
                    i + 1 <= k <= name@.len(),
                    rest@ == name@.subrange(i + 1 as int, k as int),
                decreases name@.len() - k,
            {
                rest.push(name[k]);
                proof {
                    assert(name@.subrange(i + 1 as int, k + 1 as int) =~= name@.subrange(
                        i + 1 as int,
                        k as int,
                    ).push(name@[k as int]));
                }
                k = k + 1;
            }
            Some((pre, rest))
        }
    }
}

/// The method whose uppercase text equals the given text, if any.
pub fn match_method(u: &Vec<char>) -> (r: Option<Method>)
    ensures
        r == method_of_upper(u@),
{
    let get = Method::Get.upper_chars();
    if chars_eq(u, &get) {
        return Some(Method::Get);
    }
    let post = Method::Post.upper_chars();
    if chars_eq(u, &post) {
        return Some(Method::Post);
    }
    let put = Method::Put.upper_chars();
    if chars_eq(u, &put) {
        return Some(Method::Put);
    }
    let delete = Method::Delete.upper_chars();
    if chars_eq(u, &delete) {
        return Some(Method::Delete);
    }
    let patch = Method::Patch.upper_chars();
    if chars_eq(u, &patch) {
        return Some(Method::Patch);
    }
    None
}

/// Index of the first path entry whose normalized path equals the
/// key and whose slot for the method is populated, scanning the
/// document's paths in order.
pub fn find_operation(doc: &Document, m: Method, key: &Vec<char>) -> (r: Option<usize>)
    ensures
        match r {
            Some(i) => 0 <= i < doc.paths@.len() && find_from(doc.paths@, m, key@, 0) == Some(
                i as int,
            ),
            None => find_from(doc.paths@, m, key@, 0) is None,
        },
{
    let mut i: usize = 0;
    while i < doc.paths.len()
        invariant
            i <= doc.paths@.len(),
            find_from(doc.paths@, m, key@, 0) == find_from(doc.paths@, m, key@, i as int),
        decreases doc.paths@.len() - i,
    {
        let pc = chars_of(doc.paths[i].0.as_str());
        let norm = normalize_chars(&pc);
        if chars_eq(&norm, key) {
            match &doc.paths[i].1 {
                RefOr::Item(pi) => {
                    if pi.slot(m).is_some() {
                        proof {
                            assert(entry_matches(doc.paths@[i as int], m, key@));
                        }
                        return Some(i);
                    }
                }
                RefOr::Reference(_) => {}
            }
        }
        proof {
            assert(!entry_matches(doc.paths@[i as int], m, key@));
        }
        i = i + 1;
    }
    None
}

} // verus!
