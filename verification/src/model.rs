use vstd::prelude::*;

verus! {

/// One of the five HTTP methods that operations are read from.
#[derive(Debug, Clone, Copy, PartialEq, Eq, Structural)]
pub enum Method {
    Get,
    Post,
    Put,
    Delete,
    Patch,
}

/// A declared item that may instead be a remote reference; reference
/// entries are skipped wherever the logic resolves nothing for them.
pub enum RefOr<T> {
    Reference(String),
    Item(T),
}

/// Where a declared parameter is carried.
#[derive(Clone, Copy, PartialEq, Eq, Structural)]
pub enum ParamLocation {
    Query,
    Path,
    Header,
    Cookie,
}

/// How a parameter's schema is declared: an inline schema node, a
/// schema reference, or a content map.
#[derive(Clone, Copy, PartialEq, Eq, Structural)]
pub enum ParamFormat {
    SchemaItem,
    SchemaRef,
    Content,
}

/// A resolvable declared parameter.
pub struct Param {
    pub name: String,
    pub description: Option<String>,
    pub required: bool,
    pub location: ParamLocation,
    pub format: ParamFormat,
}

/// The one-level type of a schema node.
#[derive(Clone, Copy, PartialEq, Eq, Structural)]
pub enum SchemaKind {
    Str,
    Number,
    Integer,
    Boolean,
    Array,
    Object,
    Other,
}

/// One property's resolved schema node: its one-level type and its
/// description.
pub struct PropSchema {
    pub kind: SchemaKind,
    pub description: Option<String>,
}

/// A request-body schema: an object type with named properties and
/// required names, or anything else.
pub enum BodySchema {
    ObjectType { properties: Vec<(String, RefOr<PropSchema>)>, required: Vec<String> },
    OtherType,
}

/// One media-type entry of a request body's content map.
pub struct MediaEntry {
    pub media_type: String,
    pub schema: Option<RefOr<BodySchema>>,
}

/// A declared request body.
pub struct RequestBody {
    pub content: Vec<MediaEntry>,
}

/// One operation: a method slot of a path item.
pub struct Operation {
    pub summary: Option<String>,
    pub description: Option<String>,
    pub parameters: Vec<RefOr<Param>>,
    pub request_body: Option<RefOr<RequestBody>>,
}

/// The method slots of one path.
pub struct PathItem {
    pub get: Option<Operation>,
    pub post: Option<Operation>,
    pub put: Option<Operation>,
    pub delete: Option<Operation>,
    pub patch: Option<Operation>,
}

/// The loaded document: its title, its path entries in document
/// order, and its named component schemas.
pub struct Document {
    pub title: String,
    pub paths: Vec<(String, RefOr<PathItem>)>,
    pub schemas: Vec<(String, RefOr<BodySchema>)>,
}

/// The operation in a path item's slot for a method.
pub open spec fn method_slot(pi: PathItem, m: Method) -> Option<Operation> {
    match m {
        Method::Get => pi.get,
        Method::Post => pi.post,
        Method::Put => pi.put,
        Method::Delete => pi.delete,
        Method::Patch => pi.patch,
    }
}

/// The uppercase text of a method.
pub open spec fn method_upper(m: Method) -> Seq<char> {
    match m {
        Method::Get => seq!['G', 'E', 'T'],
        Method::Post => seq!['P', 'O', 'S', 'T'],
        Method::Put => seq!['P', 'U', 'T'],
        Method::Delete => seq!['D', 'E', 'L', 'E', 'T', 'E'],
        Method::Patch => seq!['P', 'A', 'T', 'C', 'H'],
    }
}

/// The lowercase text of a method.
pub open spec fn method_lower(m: Method) -> Seq<char> {
    match m {
        Method::Get => seq!['g', 'e', 't'],
        Method::Post => seq!['p', 'o', 's', 't'],
        Method::Put => seq!['p', 'u', 't'],
        Method::Delete => seq!['d', 'e', 'l', 'e', 't', 'e'],
        Method::Patch => seq!['p', 'a', 't', 'c', 'h'],
    }
}

impl Method {
    /// The uppercase text of the method, as owned characters.
    pub fn upper_chars(&self) -> (r: Vec<char>)
        ensures
            r@ == method_upper(*self),
    {
        let mut r: Vec<char> = Vec::new();
        match self {
            Method::Get => {
                r.push('G');
                r.push('E');
                r.push('T');
            }
            Method::Post => {
                r.push('P');
                r.push('O');
                r.push('S');
                r.push('T');
            }
            Method::Put => {
                r.push('P');
                r.push('U');
                r.push('T');
            }
            Method::Delete => {
                r.push('D');
                r.push('E');
                r.push('L');
                r.push('E');
                r.push('T');
                r.push('E');
            }
            Method::Patch => {
                r.push('P');
                r.push('A');
                r.push('T');
                r.push('C');
                r.push('H');
            }
        }
        proof {
            assert(r@ =~= method_upper(*self));
        }
        r
    }

    /// The lowercase text of the method, as owned characters.
    pub fn lower_chars(&self) -> (r: Vec<char>)
        ensures
            r@ == method_lower(*self),
    {
        let mut r: Vec<char> = Vec::new();
        match self {
            Method::Get => {
                r.push('g');
                r.push('e');
                r.push('t');
            }
            Method::Post => {
                r.push('p');
                r.push('o');
                r.push('s');
                r.push('t');
            }
            Method::Put => {
                r.push('p');
                r.push('u');
                r.push('t');
            }
            Method::Delete => {
                r.push('d');
                r.push('e');
                r.push('l');
                r.push('e');
                r.push('t');
                r.push('e');
            }
            Method::Patch => {
                r.push('p');
                r.push('a');
                r.push('t');
                r.push('c');
                r.push('h');
            }
        }
        proof {
            assert(r@ =~= method_lower(*self));
        }
        r
    }
}

impl PathItem {
    /// The operation in the slot for a method, if any.
    pub fn slot(&self, m: Method) -> (r: &Option<Operation>)
        ensures
            *r == method_slot(*self, m),
    {
        match m {
            Method::Get => &self.get,
            Method::Post => &self.post,
            Method::Put => &self.put,
            Method::Delete => &self.delete,
            Method::Patch => &self.patch,
        }
    }
}

} // verus!
