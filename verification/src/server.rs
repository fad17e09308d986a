use vstd::prelude::*;

verus! {

use crate::catalog::{catalog_spec, generate_tools_from_spec, tools_view, Tool};
use crate::model::Document;
use crate::text::{dec_digits, dec_string};

/// The instructions line served on initialization: the wrapped API's
/// title, the configured base URL, and the tool count.
pub open spec fn instructions_text(title: Seq<char>, base: Seq<char>, n: nat) -> Seq<char> {
    "This server exposes REST API endpoints from "@ + title + " as MCP tools. Base URL: "@ + base
        + ". "@ + dec_digits(n) + " tools available."@
}

/// The immutable startup state: the configured base URL, the loaded
/// document, and the tool catalog derived from it once.
pub struct OpenApiServer {
    pub base_url: String,
    pub document: Document,
    pub tools: Vec<Tool>,
}

impl OpenApiServer {
    /// Build the startup state: derive the whole catalog from the
    /// document once; nothing mutates afterwards.
    pub fn new(base_url: String, document: Document) -> (s: Self)
        ensures
            s.base_url == base_url,
            s.document == document,
            tools_view(s.tools@) == catalog_spec(document),
    {
        let tools = generate_tools_from_spec(&document);
        OpenApiServer { base_url, document, tools }
    }

    /// The full immutable tool catalog, served on listing.
    pub fn list_tools(&self) -> (r: &Vec<Tool>)
        ensures
            *r == self.tools,
    {
        &self.tools
    }

    /// The instructions line naming the wrapped API and tool count.
    pub fn instructions(&self) -> (r: String)
        ensures
            r@ == instructions_text(self.document.title@, self.base_url@, self.tools@.len()),
    {
        let mut s = String::from_str("This server exposes REST API endpoints from ");
        s.append(self.document.title.as_str());
        s.append(" as MCP tools. Base URL: ");
        s.append(self.base_url.as_str());
        s.append(". ");
        let n = dec_string(self.tools.len() as u64);
        s.append(n.as_str());
        s.append(" tools available.");
        s
    }
}

} // verus!
