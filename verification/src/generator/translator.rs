use vstd::prelude::*;

use crate::config::Role;
use crate::generator::client::{callback_client_text, foreign_client_text};
use crate::generator::typescript::{class_text, interface_text, string_views};
use crate::parser::custom_type::CustomType;
use crate::parser::endpoint::Endpoint;
use crate::parser::parse::{custom_type_views, endpoint_views};

verus! {

/// Translates the elements of `.erpc` sources into code of a target language.
pub trait Translator {
    /// Generates a class named `class_name` with the given endpoints. The
    /// relative path (with `/` separators) of the class builds the endpoint
    /// identifiers; a foreign class calls the endpoints, the others handle
    /// them; `class_imports` are the subclasses to import.
    fn generate_class(
        class_name: &str,
        relative_path: &str,
        endpoints: &Vec<Endpoint>,
        foreign: bool,
        class_imports: &Vec<String>,
        custom_types: &Vec<CustomType>,
    ) -> String;

    /// Translates a custom type into an interface of the target language.
    fn custom_type_to_interface(custom_type: &CustomType) -> String;

    /// The file suffix of the target language, such as `ts` for TypeScript.
    fn file_suffix() -> String;

    /// Generates the client of a role, which the user works with.
    fn generate_client(
        foreign: bool,
        class_imports: &Vec<String>,
        role: &Role,
        socket_enabled_browser_roles: &Vec<String>,
        library_source: &str,
    ) -> String;
}

/// The translator into TypeScript.
pub struct TypeScriptTranslator;

impl Translator for TypeScriptTranslator {
    fn generate_class(
        class_name: &str,
        relative_path: &str,
        endpoints: &Vec<Endpoint>,
        foreign: bool,
        class_imports: &Vec<String>,
        custom_types: &Vec<CustomType>,
    ) -> (res: String)
        ensures
            res@ == class_text(
                class_name@,
                relative_path@,
                endpoint_views(endpoints@),
                foreign,
                string_views(class_imports@),
                custom_type_views(custom_types@),
            ),
    {
        crate::generator::typescript::generate_class(
            class_name,
            relative_path,
            endpoints,
            foreign,
            class_imports,
            custom_types,
        )
    }

    fn custom_type_to_interface(custom_type: &CustomType) -> (res: String)
        ensures
            res@ == interface_text(custom_type@),
    {
        crate::generator::typescript::custom_type_to_interface(custom_type)
    }

    fn file_suffix() -> (res: String)
        ensures
            res@ == "ts"@,
    {
        String::from_str("ts")
    }

    fn generate_client(
        foreign: bool,
        class_imports: &Vec<String>,
        role: &Role,
        socket_enabled_browser_roles: &Vec<String>,
        library_source: &str,
    ) -> (res: String)
        ensures
            foreign ==> res@ == foreign_client_text(
                string_views(class_imports@),
                role@,
                string_views(socket_enabled_browser_roles@),
                library_source@,
            ),
            !foreign ==> res@ == callback_client_text(
                string_views(class_imports@),
                role@,
                string_views(socket_enabled_browser_roles@),
                library_source@,
            ),
    {
        crate::generator::client::generate_client(
            foreign,
            class_imports,
            role,
            socket_enabled_browser_roles,
            library_source,
        )
    }
}

} // verus!
