//! Emitted artifacts and their kinds.

use vstd::prelude::*;
use vstd::string::StringExecFns;

use crate::ids::ModuleId;

verus! {

/// Kind of an emitted artifact.
#[derive(Debug)]
pub enum ResourceType {
    Runtime,
    Js,
    Css,
    Html,
    SourceMap(String),
    Asset(String),
    Custom(String),
}

/// What `heck::AsLowerCamelCase` yields for a string: a pure function of the
/// characters alone, named rather than spelled out.
pub uninterp spec fn lower_camel_of(s: Seq<char>) -> Seq<char>;

/// Relies on heck::AsLowerCamelCase: lower-camel-cases the string; the
/// result depends on the input characters alone.
#[verifier::external_body]
fn lower_camel(s: &str) -> (r: String)
    ensures
        r@ == lower_camel_of(s@),
{
    heck::AsLowerCamelCase(s).to_string()
}

/// The debug-style tag of a non-custom, non-asset kind, fed to the
/// lower-camel conversion. A source map's payload is embedded verbatim
/// between the quote marks, with no escaping of special characters: a
/// payload holding a control character folds to fewer characters than a
/// debug-escaped form of it would.
pub open spec fn type_tag(t: ResourceType) -> Seq<char> {
    match t {
        ResourceType::Runtime => "Runtime"@,
        ResourceType::Js => "Js"@,
        ResourceType::Css => "Css"@,
        ResourceType::Html => "Html"@,
        ResourceType::SourceMap(s) => "SourceMap(\""@ + s@ + "\")"@,
        ResourceType::Asset(s) => s@,
        ResourceType::Custom(s) => s@,
    }
}

/// The serialized name of a resource kind: custom and asset kinds name
/// themselves, the rest serialize as the lower-camel-case form of their tag.
pub open spec fn display_name(t: ResourceType) -> Seq<char> {
    match t {
        ResourceType::Custom(s) => s@,
        ResourceType::Asset(s) => s@,
        _ => lower_camel_of(type_tag(t)),
    }
}

/// The kind a serialized name deserializes back to; unknown names map to
/// the custom kind, keeping the format openly extensible.
pub open spec fn resource_type_from_name(s: String) -> ResourceType {
    if s@ == "js"@ {
        ResourceType::Js
    } else if s@ == "css"@ {
        ResourceType::Css
    } else if s@ == "html"@ {
        ResourceType::Html
    } else if s@ == "runtime"@ {
        ResourceType::Runtime
    } else {
        ResourceType::Custom(s)
    }
}

/// The file extension of each kind.
pub open spec fn ext_of(t: ResourceType) -> Seq<char> {
    match t {
        ResourceType::Asset(s) => s@,
        ResourceType::Custom(s) => s@,
        ResourceType::Runtime => "js"@,
        ResourceType::Js => "js"@,
        ResourceType::Css => "css"@,
        ResourceType::Html => "html"@,
        ResourceType::SourceMap(_) => "map"@,
    }
}

/// The HTML tag each kind is referenced with; a source map has none.
pub open spec fn html_tag_of(t: ResourceType) -> Seq<char> {
    match t {
        ResourceType::Asset(s) => s@,
        ResourceType::Custom(s) => s@,
        ResourceType::Runtime => "script"@,
        ResourceType::Js => "script"@,
        ResourceType::Css => "link"@,
        ResourceType::Html => "html"@,
        ResourceType::SourceMap(_) => Seq::<char>::empty(),
    }
}

impl ResourceType {
    /// The serialized name of this kind, as written into a JSON-facing
    /// manifest.
    pub fn to_string(&self) -> (r: String)
        ensures
            r@ == display_name(*self),
    {
        match self {
            ResourceType::Custom(s) => s.clone(),
            ResourceType::Asset(s) => s.clone(),
            ResourceType::Runtime => lower_camel("Runtime"),
            ResourceType::Js => lower_camel("Js"),
            ResourceType::Css => lower_camel("Css"),
            ResourceType::Html => lower_camel("Html"),
            ResourceType::SourceMap(s) => {
                let mut t = String::from_str("SourceMap(\"");
                t.append(s.as_str());
                t.append("\")");
                proof {
                    assert(t@ =~= type_tag(*self));
                }
                lower_camel(t.as_str())
            },
        }
    }

    pub fn to_ext(&self) -> (r: String)
        ensures
            r@ == ext_of(*self),
    {
        match self {
            ResourceType::Asset(s) => s.clone(),
            ResourceType::Custom(s) => s.clone(),
            ResourceType::Runtime => String::from_str("js"),
            ResourceType::Js => String::from_str("js"),
            ResourceType::Css => String::from_str("css"),
            ResourceType::Html => String::from_str("html"),
            ResourceType::SourceMap(_) => String::from_str("map"),
        }
    }

    pub fn to_html_tag(&self) -> (r: String)
        requires
            !(self is SourceMap),
        ensures
            r@ == html_tag_of(*self),
    {
        match self {
            ResourceType::Asset(s) => s.clone(),
            ResourceType::Custom(s) => s.clone(),
            ResourceType::Runtime => String::from_str("script"),
            ResourceType::Js => String::from_str("script"),
            ResourceType::Css => String::from_str("link"),
            ResourceType::Html => String::from_str("html"),
            ResourceType::SourceMap(_) => vstd::pervasive::unreached(),
        }
    }
}

impl From<String> for ResourceType {
    fn from(s: String) -> (r: Self) {
        if s == String::from_str("js") {
            ResourceType::Js
        } else if s == String::from_str("css") {
            ResourceType::Css
        } else if s == String::from_str("html") {
            ResourceType::Html
        } else if s == String::from_str("runtime") {
            ResourceType::Runtime
        } else {
            ResourceType::Custom(s)
        }
    }
}

impl vstd::std_specs::convert::FromSpecImpl<String> for ResourceType {
    open spec fn obeys_from_spec() -> bool {
        true
    }

    open spec fn from_spec(s: String) -> Self {
        resource_type_from_name(s)
    }
}

impl Clone for ResourceType {
    fn clone(&self) -> (r: Self)
        ensures
            r == *self,
    {
        match self {
            ResourceType::Runtime => ResourceType::Runtime,
            ResourceType::Js => ResourceType::Js,
            ResourceType::Css => ResourceType::Css,
            ResourceType::Html => ResourceType::Html,
            ResourceType::SourceMap(s) => ResourceType::SourceMap(s.clone()),
            ResourceType::Asset(s) => ResourceType::Asset(s.clone()),
            ResourceType::Custom(s) => ResourceType::Custom(s.clone()),
        }
    }
}

/// Where an artifact came from: rendered out of a resource pot, or emitted
/// directly by one module (a static asset).
pub enum ResourceOrigin {
    ResourcePot(String),
    Module(ModuleId),
}

impl ResourceOrigin {
    /// The pot this resource came from; only for pot-born resources.
    pub fn as_resource_pot(&self) -> (r: &String)
        requires
            self is ResourcePot,
        ensures
            *self == ResourceOrigin::ResourcePot(*r),
    {
        match self {
            ResourceOrigin::ResourcePot(id) => id,
            ResourceOrigin::Module(_) => vstd::pervasive::unreached(),
        }
    }

    /// The module this resource came from; only for module-born resources.
    pub fn as_module(&self) -> (r: &ModuleId)
        requires
            self is Module,
        ensures
            *self == ResourceOrigin::Module(*r),
    {
        match self {
            ResourceOrigin::ResourcePot(_) => vstd::pervasive::unreached(),
            ResourceOrigin::Module(id) => id,
        }
    }
}

impl Clone for ResourceOrigin {
    fn clone(&self) -> (r: Self)
        ensures
            r == *self,
    {
        match self {
            ResourceOrigin::ResourcePot(id) => ResourceOrigin::ResourcePot(id.clone()),
            ResourceOrigin::Module(id) => ResourceOrigin::Module(id.clone()),
        }
    }
}

/// A final emitted artifact.
pub struct Resource {
    pub name: String,
    pub bytes: Vec<u8>,
    /// True once the artifact is not expected to be written into the output
    /// directory again.
    pub emitted: bool,
    pub resource_type: ResourceType,
    /// What this resource was generated from.
    pub origin: ResourceOrigin,
}

impl Default for Resource {
    fn default() -> (r: Self)
        ensures
            r.name@ == "unknown"@,
            r.bytes@ == Seq::<u8>::empty(),
            !r.emitted,
            r.resource_type == ResourceType::Custom(r.resource_type->Custom_0),
            r.resource_type->Custom_0@ == "unknown"@,
            r.origin is Module,
            r.origin->Module_0@ == ("unknown"@, Seq::<char>::empty(), None::<Seq<char>>),
    {
        Resource {
            name: String::from_str("unknown"),
            bytes: Vec::new(),
            emitted: false,
            resource_type: ResourceType::Custom(String::from_str("unknown")),
            origin: ResourceOrigin::Module(ModuleId::from_path(String::from_str("unknown"))),
        }
    }
}

} // verus!
