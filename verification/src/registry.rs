//! Grammar registry: the pure mapping from a file extension to the grammar
//! to parse it with and the capture query to run over its tree.

use vstd::prelude::*;

use crate::strutil::str_eq;

verus! {

/// The grammars the registry knows, one per supported language.
#[derive(Clone, Copy, Debug, PartialEq, Eq, Structural)]
pub enum LangId {
    Rust,
    Python,
    Javascript,
    Typescript,
    Tsx,
    Go,
    C,
    Cpp,
    Java,
    Ruby,
    CSharp,
    Php,
    Json,
    Html,
    Css,
    Markdown,
}

pub const RUST_QUERY: &'static str = "
    (function_item name: (identifier) @function.name) @function
    (struct_item name: (type_identifier) @struct.name) @struct
    (impl_item type: (type_identifier) @impl.name) @impl
    (trait_item name: (type_identifier) @trait.name) @trait
    (mod_item name: (identifier) @module.name) @module
    (type_item name: (type_identifier) @type.name) @type
    (enum_item name: (type_identifier) @enum.name) @enum
    (call_expression function: (identifier) @call.name) @call
    (call_expression function: (field_expression field: (field_identifier) @call.name)) @call
";

pub const PYTHON_QUERY: &'static str = "
    (function_definition name: (identifier) @function.name) @function
    (class_definition name: (identifier) @class.name) @class
";

pub const JAVASCRIPT_QUERY: &'static str = "
    (function_declaration name: (identifier) @function.name) @function
    (method_definition name: (property_identifier) @method.name) @method
    (class_declaration name: (identifier) @class.name) @class
    (variable_declarator name: (identifier) @variable.name value: (arrow_function)) @function
";

pub const TYPESCRIPT_QUERY: &'static str = "
    (function_declaration name: (identifier) @function.name) @function
    (method_definition name: (property_identifier) @method.name) @method
    (class_declaration name: (identifier) @class.name) @class
    (interface_declaration name: (type_identifier) @interface.name) @interface
    (type_alias_declaration name: (type_identifier) @type.name) @type
    (enum_declaration name: (identifier) @enum.name) @enum
";

pub const GO_QUERY: &'static str = "
    (function_declaration name: (identifier) @function.name) @function
    (method_declaration name: (field_identifier) @method.name) @method
    (type_declaration (type_spec name: (type_identifier) @type.name)) @type
";

pub const C_QUERY: &'static str = "
    (function_definition declarator: (function_declarator declarator: (identifier) @function.name)) @function
    (struct_specifier name: (type_identifier) @struct.name) @struct
    (type_definition declarator: (type_identifier) @type.name) @type
";

pub const CPP_QUERY: &'static str = "
    (function_definition declarator: (function_declarator declarator: (identifier) @function.name)) @function
    (class_specifier name: (type_identifier) @class.name) @class
    (struct_specifier name: (type_identifier) @struct.name) @struct
    (namespace_definition name: (identifier) @namespace.name) @namespace
";

pub const JAVA_QUERY: &'static str = "
    (class_declaration name: (identifier) @class.name) @class
    (interface_declaration name: (identifier) @interface.name) @interface
    (method_declaration name: (identifier) @method.name) @method
    (constructor_declaration name: (identifier) @method.name) @method
";

pub const RUBY_QUERY: &'static str = "
    (method name: (identifier) @method.name) @method
    (class name: [
        (constant) @class.name
        (scope_resolution name: (constant) @class.name)
    ]) @class
    (module name: [
        (constant) @module.name
        (scope_resolution name: (constant) @module.name)
    ]) @module
";

pub const C_SHARP_QUERY: &'static str = "
    (class_declaration name: (identifier) @class.name) @class
    (interface_declaration name: (identifier) @interface.name) @interface
    (method_declaration name: (identifier) @method.name) @method
    (struct_declaration name: (identifier) @struct.name) @struct
    (enum_declaration name: (identifier) @enum.name) @enum
    (namespace_declaration name: [
        (identifier) @namespace.name
        (qualified_name) @namespace.name
    ]) @namespace
";

pub const PHP_QUERY: &'static str = "
    (function_definition name: (identifier) @function.name) @function
    (method_definition name: (identifier) @method.name) @method
    (class_declaration name: (identifier) @class.name) @class
    (interface_declaration name: (identifier) @interface.name) @interface
    (trait_declaration name: (identifier) @trait.name) @trait
";

pub const JSON_QUERY: &'static str = "
    (pair key: (string (string_content) @key.name)) @pair
";

pub const HTML_QUERY: &'static str = "
    (tag_name) @tag.name
    (attribute_name) @attr.name
";

pub const CSS_QUERY: &'static str = "
    (class_selector (class_name) @class.name) @class
    (id_selector (id_name) @id.name) @id
    (declaration property: (property_name) @prop.name) @decl
";

pub const MARKDOWN_QUERY: &'static str = "
    (atx_heading (atx_h1_marker) (heading_content) @h1.name) @h1
    (atx_heading (atx_h2_marker) (heading_content) @h2.name) @h2
    (atx_heading (atx_h3_marker) (heading_content) @h3.name) @h3
";

/// A grammar handle and the capture query to run with it.
pub struct LanguageInfo {
    pub language: LangId,
    pub query: &'static str,
}

/// The grammar for a file extension; the recognized extensions are
/// exhaustive and every other extension maps to `None`.
pub open spec fn spec_language_for(ext: Seq<char>) -> Option<LangId> {
    if ext == "rs"@ {
        Some(LangId::Rust)
    } else if ext == "py"@ {
        Some(LangId::Python)
    } else if ext == "js"@ || ext == "jsx"@ {
        Some(LangId::Javascript)
    } else if ext == "ts"@ {
        Some(LangId::Typescript)
    } else if ext == "tsx"@ {
        Some(LangId::Tsx)
    } else if ext == "go"@ {
        Some(LangId::Go)
    } else if ext == "c"@ || ext == "h"@ {
        Some(LangId::C)
    } else if ext == "cpp"@ || ext == "hpp"@ || ext == "cc"@ || ext == "cxx"@ {
        Some(LangId::Cpp)
    } else if ext == "java"@ {
        Some(LangId::Java)
    } else if ext == "rb"@ {
        Some(LangId::Ruby)
    } else if ext == "cs"@ {
        Some(LangId::CSharp)
    } else if ext == "php"@ {
        Some(LangId::Php)
    } else if ext == "json"@ {
        Some(LangId::Json)
    } else if ext == "html"@ {
        Some(LangId::Html)
    } else if ext == "css"@ {
        Some(LangId::Css)
    } else if ext == "md"@ {
        Some(LangId::Markdown)
    } else {
        None
    }
}

/// The capture query that belongs to each grammar.
pub open spec fn spec_query_for(lang: LangId) -> Seq<char> {
    match lang {
        LangId::Rust => RUST_QUERY@,
        LangId::Python => PYTHON_QUERY@,
        LangId::Javascript => JAVASCRIPT_QUERY@,
        LangId::Typescript => TYPESCRIPT_QUERY@,
        LangId::Tsx => TYPESCRIPT_QUERY@,
        LangId::Go => GO_QUERY@,
        LangId::C => C_QUERY@,
        LangId::Cpp => CPP_QUERY@,
        LangId::Java => JAVA_QUERY@,
        LangId::Ruby => RUBY_QUERY@,
        LangId::CSharp => C_SHARP_QUERY@,
        LangId::Php => PHP_QUERY@,
        LangId::Json => JSON_QUERY@,
        LangId::Html => HTML_QUERY@,
        LangId::Css => CSS_QUERY@,
        LangId::Markdown => MARKDOWN_QUERY@,
    }
}

/// The registry lookup: exactly the mapping of `spec_language_for`, with the
/// query source of `spec_query_for`.
pub fn get_language_info(extension: &str) -> (r: Option<LanguageInfo>)
    ensures
        match r {
            Some(info) => spec_language_for(extension@) == Some(info.language) && info.query@
                == spec_query_for(info.language),
            None => spec_language_for(extension@) is None,
        },
{
    if str_eq(extension, "rs") {
        Some(LanguageInfo { language: LangId::Rust, query: RUST_QUERY })
    } else if str_eq(extension, "py") {
        Some(LanguageInfo { language: LangId::Python, query: PYTHON_QUERY })
    } else if str_eq(extension, "js") || str_eq(extension, "jsx") {
        Some(LanguageInfo { language: LangId::Javascript, query: JAVASCRIPT_QUERY })
    } else if str_eq(extension, "ts") {
        Some(LanguageInfo { language: LangId::Typescript, query: TYPESCRIPT_QUERY })
    } else if str_eq(extension, "tsx") {
        Some(LanguageInfo { language: LangId::Tsx, query: TYPESCRIPT_QUERY })
    } else if str_eq(extension, "go") {
        Some(LanguageInfo { language: LangId::Go, query: GO_QUERY })
    } else if str_eq(extension, "c") || str_eq(extension, "h") {
        Some(LanguageInfo { language: LangId::C, query: C_QUERY })
    } else if str_eq(extension, "cpp") || str_eq(extension, "hpp") || str_eq(extension, "cc")
        || str_eq(extension, "cxx") {
        Some(LanguageInfo { language: LangId::Cpp, query: CPP_QUERY })
    } else if str_eq(extension, "java") {
        Some(LanguageInfo { language: LangId::Java, query: JAVA_QUERY })
    } else if str_eq(extension, "rb") {
        Some(LanguageInfo { language: LangId::Ruby, query: RUBY_QUERY })
    } else if str_eq(extension, "cs") {
        Some(LanguageInfo { language: LangId::CSharp, query: C_SHARP_QUERY })
    } else if str_eq(extension, "php") {
        Some(LanguageInfo { language: LangId::Php, query: PHP_QUERY })
    } else if str_eq(extension, "json") {
        Some(LanguageInfo { language: LangId::Json, query: JSON_QUERY })
    } else if str_eq(extension, "html") {
        Some(LanguageInfo { language: LangId::Html, query: HTML_QUERY })
    } else if str_eq(extension, "css") {
        Some(LanguageInfo { language: LangId::Css, query: CSS_QUERY })
    } else if str_eq(extension, "md") {
        Some(LanguageInfo { language: LangId::Markdown, query: MARKDOWN_QUERY })
    } else {
        None
    }
}

} // verus!
