use vstd::prelude::*;

use crate::generator::text::{
    has_part, integer_string, integer_text, join_map, lemma_concat_map_step, lemma_has_part_concat_map,
    lemma_has_part_within, lemma_join_map_step, concat_map,
};
use crate::lexer::token::{LiteralType, LiteralView};
use crate::parser::custom_type::{field_views, CustomType, CustomTypeView, Field, FieldView};
use crate::parser::endpoint::{parameter_views, Endpoint, EndpointView, Parameter, ParameterView};
use crate::parser::field_type::{
    enum_views, text, ArrayAmount, Custom, CustomView, EnumType, EnumTypeView, Primitive,
    PrimitiveType, Type, TypeView,
};

verus! {

/// `[]` behind an array type; the length is not part of the TypeScript type.
pub open spec fn array_suffix(a: ArrayAmount) -> Seq<char> {
    match a {
        ArrayAmount::NoArray => ""@,
        _ => "[]"@,
    }
}

/// The TypeScript type of a primitive type: all numbers are `number`.
pub open spec fn primitive_text(p: Primitive) -> Seq<char> {
    (match p.primitive_type {
        PrimitiveType::Boolean => "boolean"@,
        PrimitiveType::String => "string"@,
        _ => "number"@,
    }) + array_suffix(p.array_amount)
}

pub open spec fn custom_text(c: CustomView) -> Seq<char> {
    c.identifier + array_suffix(c.array_amount)
}

/// A literal as a TypeScript literal type: strings in double quotes, floats as
/// the text they hold, integers in decimal.
pub open spec fn literal_text(l: LiteralView) -> Seq<char> {
    match l {
        LiteralView::Boolean(b) => if b {
            "true"@
        } else {
            "false"@
        },
        LiteralView::String(s) => "\""@ + s + "\""@,
        LiteralView::Float(t) => t,
        LiteralView::Integer(i) => integer_text(i as int),
    }
}

pub open spec fn enum_value_text(v: EnumTypeView) -> Seq<char> {
    match v {
        EnumTypeView::Literal(l) => literal_text(l),
        EnumTypeView::Primitive(p) => primitive_text(p),
        EnumTypeView::Custom(c) => custom_text(c),
    }
}

pub open spec fn enum_value_text_fn() -> spec_fn(EnumTypeView) -> Seq<char> {
    |v: EnumTypeView| enum_value_text(v)
}

/// The TypeScript type of a type: an enum is the union of its alternatives.
pub open spec fn type_text(t: TypeView) -> Seq<char> {
    match t {
        TypeView::Primitive(p) => primitive_text(p),
        TypeView::Enum(values) => join_map(values, enum_value_text_fn(), " | "@),
        TypeView::Custom(c) => custom_text(c),
    }
}

fn array_suffix_str(a: ArrayAmount) -> (res: &'static str)
    ensures
        res@ == array_suffix(a),
{
    match a {
        ArrayAmount::NoArray => "",
        _ => "[]",
    }
}

fn primitive_string(p: Primitive) -> (res: String)
    ensures
        res@ == primitive_text(p),
{
    let mut ret = text(
        match p.primitive_type {
            PrimitiveType::Boolean => "boolean",
            PrimitiveType::String => "string",
            _ => "number",
        },
    );
    ret.append(array_suffix_str(p.array_amount));
    ret
}

fn custom_string(c: &Custom) -> (res: String)
    ensures
        res@ == custom_text(c@),
{
    let mut ret = c.identifier.clone();
    ret.append(array_suffix_str(c.array_amount));
    ret
}

fn literal_string(l: &LiteralType) -> (res: String)
    ensures
        res@ == literal_text(l@),
{
    match l {
        LiteralType::Boolean(b) => text(
            if *b {
                "true"
            } else {
                "false"
            },
        ),
        LiteralType::String(s) => {
            let mut ret = text("\"");
            ret.append(s.as_str());
            ret.append("\"");
            ret
        },
        LiteralType::Float(t) => t.clone(),
        LiteralType::Integer(i) => integer_string(*i),
    }
}

fn enum_value_string(v: &EnumType) -> (res: String)
    ensures
        res@ == enum_value_text(v@),
{
    match v {
        EnumType::Literal(l) => literal_string(l),
        EnumType::Primitive(p) => primitive_string(*p),
        EnumType::Custom(c) => custom_string(c),
    }
}

/// The TypeScript type of a parameter, field or return type.
pub fn stringify_field_type(field_type: &Type) -> (res: String)
    ensures
        res@ == type_text(field_type@),
{
    match field_type {
        Type::Primitive(p) => primitive_string(*p),
        Type::Enum(e) => {
            let ghost views = enum_views(e.values@);
            let mut ret = String::new();
            let mut i: usize = 0;
            while i < e.values.len()
                invariant
                    i <= e.values.len(),
                    views == enum_views(e.values@),
                    views.len() == e.values.len(),
                    ret@ == join_map(views.take(i as int), enum_value_text_fn(), " | "@),
                decreases e.values.len() - i,
            {
                proof {
                    lemma_join_map_step(views, enum_value_text_fn(), " | "@, i as int);
                    assert(views[i as int] == e.values@[i as int]@);
                }
                if i > 0 {
                    ret.append(" | ");
                }
                let value = enum_value_string(&e.values[i]);
                ret.append(value.as_str());
                i = i + 1;
            }
            assert(views.take(i as int) =~= views);
            ret
        },
        Type::Custom(c) => custom_string(c),
    }
}

/// A documentational comment, if there is a text.
pub open spec fn doc_text(d: Option<Seq<char>>) -> Seq<char> {
    match d {
        Some(d) => "/**"@ + d + "*/\n"@,
        None => ""@,
    }
}

pub open spec fn optional_mark(optional: bool) -> Seq<char> {
    if optional {
        "?"@
    } else {
        ""@
    }
}

/// A field of an interface, on a line of its own.
pub open spec fn field_text(f: FieldView) -> Seq<char> {
    doc_text(f.documentation) + "    "@ + f.identifier + optional_mark(f.optional) + ": "@
        + type_text(f.field_type) + "\n"@
}

pub open spec fn field_text_fn() -> spec_fn(FieldView) -> Seq<char> {
    |f: FieldView| field_text(f)
}

/// A custom type as an exported TypeScript interface.
pub open spec fn interface_text(c: CustomTypeView) -> Seq<char> {
    doc_text(c.documentation) + "export interface "@ + c.identifier + " {\n"@ + concat_map(
        c.fields,
        field_text_fn(),
    ) + "}\n"@
}

fn doc_string(d: &Option<String>) -> (res: String)
    ensures
        res@ == doc_text(crate::parser::endpoint::option_text(*d)),
{
    match d {
        Some(d) => {
            let mut ret = text("/**");
            ret.append(d.as_str());
            ret.append("*/\n");
            ret
        },
        None => text(""),
    }
}

fn optional_str(optional: bool) -> (res: &'static str)
    ensures
        res@ == optional_mark(optional),
{
    if optional {
        "?"
    } else {
        ""
    }
}

fn field_string(f: &Field) -> (res: String)
    ensures
        res@ == field_text(f@),
{
    let mut ret = doc_string(&f.documentation);
    ret.append("    ");
    ret.append(f.identifier.as_str());
    ret.append(optional_str(f.optional));
    ret.append(": ");
    let t = stringify_field_type(&f.field_type);
    ret.append(t.as_str());
    ret.append("\n");
    ret
}

/// A custom type as an exported TypeScript interface.
pub fn custom_type_to_interface(custom_type: &CustomType) -> (res: String)
    ensures
        res@ == interface_text(custom_type@),
{
    let mut builder = doc_string(&custom_type.documentation);
    builder.append("export interface ");
    builder.append(custom_type.identifier.as_str());
    builder.append(" {\n");
    let ghost prefix = builder@;
    let ghost views = field_views(custom_type.fields@);
    let mut i: usize = 0;
    while i < custom_type.fields.len()
        invariant
            i <= custom_type.fields.len(),
            views == field_views(custom_type.fields@),
            views.len() == custom_type.fields.len(),
            builder@ == prefix + concat_map(views.take(i as int), field_text_fn()),
        decreases custom_type.fields.len() - i,
    {
        proof {
            lemma_concat_map_step(views, field_text_fn(), i as int);
            assert(views[i as int] == custom_type.fields@[i as int]@);
        }
        let f = field_string(&custom_type.fields[i]);
        builder.append(f.as_str());
        assert(builder@ =~= prefix + concat_map(views.take(i + 1), field_text_fn()));
        i = i + 1;
    }
    assert(views.take(i as int) =~= views);
    builder.append("}\n");
    builder
}

pub open spec fn parameter_text(p: ParameterView) -> Seq<char> {
    p.identifier + optional_mark(p.optional) + ": "@ + type_text(p.parameter_type)
}

pub open spec fn parameter_text_fn() -> spec_fn(ParameterView) -> Seq<char> {
    |p: ParameterView| parameter_text(p)
}

pub open spec fn parameter_name_fn() -> spec_fn(ParameterView) -> Seq<char> {
    |p: ParameterView| p.identifier
}

/// The parameter list of a TypeScript function, without brackets.
pub open spec fn parameters_text(ps: Seq<ParameterView>) -> Seq<char> {
    join_map(ps, parameter_text_fn(), ", "@)
}

pub open spec fn return_text(r: Option<crate::parser::field_type::TypeView>) -> Seq<char> {
    match r {
        Some(t) => type_text(t),
        None => "void"@,
    }
}

/// The TypeScript function type of an endpoint.
pub open spec fn signature_text(e: EndpointView) -> Seq<char> {
    "("@ + parameters_text(e.parameters) + ") => Promise<"@ + return_text(e.return_type) + ">"@
}

/// The arguments of a call to a foreign endpoint: none, or the parameters as an array.
pub open spec fn call_arguments_text(ps: Seq<ParameterView>) -> Seq<char> {
    if ps.len() > 0 {
        ", ["@ + join_map(ps, parameter_name_fn(), ", "@) + "]"@
    } else {
        ""@
    }
}

/// An endpoint as a member of a TypeScript class: a method that calls the
/// endpoint at `url` when `foreign`, else a settable handler that registers
/// itself for `url`.
pub open spec fn endpoint_function_text(e: EndpointView, foreign: bool, url: Seq<char>) -> Seq<char> {
    if foreign {
        doc_text(e.documentation) + "    "@ + e.identifier + "("@ + parameters_text(e.parameters)
            + "): Promise<"@ + return_text(e.return_type)
            + "> {\n        return this.server.call(\""@ + url + "\""@ + call_arguments_text(
            e.parameters,
        ) + ")\n    }\n\n"@
    } else {
        doc_text(e.documentation) + "    private _"@ + e.identifier + ": "@ + signature_text(e)
            + " = undefined as any\n    set "@ + e.identifier + "(value: "@ + signature_text(e)
            + ") {\n        this._"@ + e.identifier
            + " = value\n        this.server?.registerERPCHandler(value, \""@ + url
            + "\")\n    }\n    get "@ + e.identifier + "() {\n        return this._"@ + e.identifier
            + "\n    }\n\n"@
    }
}

fn parameters_string(ps: &Vec<Parameter>) -> (res: String)
    ensures
        res@ == parameters_text(parameter_views(ps@)),
{
    let ghost views = parameter_views(ps@);
    let mut ret = String::new();
    let mut i: usize = 0;
    while i < ps.len()
        invariant
            i <= ps.len(),
            views == parameter_views(ps@),
            views.len() == ps.len(),
            ret@ == join_map(views.take(i as int), parameter_text_fn(), ", "@),
        decreases ps.len() - i,
    {
        proof {
            lemma_join_map_step(views, parameter_text_fn(), ", "@, i as int);
            assert(views[i as int] == ps@[i as int]@);
        }
        if i > 0 {
            ret.append(", ");
        }
        let p = &ps[i];
        let mut item = p.identifier.clone();
        item.append(optional_str(p.optional));
        item.append(": ");
        let t = stringify_field_type(&p.parameter_type);
        item.append(t.as_str());
        ret.append(item.as_str());
        i = i + 1;
    }
    assert(views.take(i as int) =~= views);
    ret
}

fn call_arguments_string(ps: &Vec<Parameter>) -> (res: String)
    ensures
        res@ == call_arguments_text(parameter_views(ps@)),
{
    if ps.len() == 0 {
        return text("");
    }
    let ghost views = parameter_views(ps@);
    let mut names = String::new();
    let mut i: usize = 0;
    while i < ps.len()
        invariant
            i <= ps.len(),
            views == parameter_views(ps@),
            views.len() == ps.len(),
            names@ == join_map(views.take(i as int), parameter_name_fn(), ", "@),
        decreases ps.len() - i,
    {
        proof {
            lemma_join_map_step(views, parameter_name_fn(), ", "@, i as int);
            assert(views[i as int] == ps@[i as int]@);
        }
        if i > 0 {
            names.append(", ");
        }
        names.append(ps[i].identifier.as_str());
        i = i + 1;
    }
    assert(views.take(i as int) =~= views);
    let mut ret = text(", [");
    ret.append(names.as_str());
    ret.append("]");
    ret
}

fn return_string(r: &Option<Type>) -> (res: String)
    ensures
        res@ == return_text(crate::parser::endpoint::option_type(*r)),
{
    match r {
        Some(t) => stringify_field_type(t),
        None => text("void"),
    }
}

fn signature_string(e: &Endpoint) -> (res: String)
    ensures
        res@ == signature_text(e@),
{
    let mut ret = text("(");
    let ps = parameters_string(&e.parameters);
    ret.append(ps.as_str());
    ret.append(") => Promise<");
    let r = return_string(&e.return_type);
    ret.append(r.as_str());
    ret.append(">");
    ret
}

/// An endpoint as a member of a TypeScript class; see [`endpoint_function_text`].
pub fn endpoint_to_function(endpoint: &Endpoint, foreign: bool, url: &str) -> (res: String)
    ensures
        res@ == endpoint_function_text(endpoint@, foreign, url@),
{
    let mut ret = doc_string(&endpoint.documentation);
    if foreign {
        ret.append("    ");
        ret.append(endpoint.identifier.as_str());
        ret.append("(");
        let ps = parameters_string(&endpoint.parameters);
        ret.append(ps.as_str());
        ret.append("): Promise<");
        let r = return_string(&endpoint.return_type);
        ret.append(r.as_str());
        ret.append("> {\n        return this.server.call(\"");
        ret.append(url);
        ret.append("\"");
        let args = call_arguments_string(&endpoint.parameters);
        ret.append(args.as_str());
        ret.append(")\n    }\n\n");
    } else {
        let signature = signature_string(endpoint);
        ret.append("    private _");
        ret.append(endpoint.identifier.as_str());
        ret.append(": ");
        ret.append(signature.as_str());
        ret.append(" = undefined as any\n    set ");
        ret.append(endpoint.identifier.as_str());
        ret.append("(value: ");
        ret.append(signature.as_str());
        ret.append(") {\n        this._");
        ret.append(endpoint.identifier.as_str());
        ret.append(" = value\n        this.server?.registerERPCHandler(value, \"");
        ret.append(url);
        ret.append("\")\n    }\n    get ");
        ret.append(endpoint.identifier.as_str());
        ret.append("() {\n        return this._");
        ret.append(endpoint.identifier.as_str());
        ret.append("\n    }\n\n");
    }
    ret
}

/// The kinds of text that a class has for each imported class.
pub enum ImportPiece {
    /// The import statement.
    Import,
    /// A field of a foreign class.
    ForeignField,
    /// Its creation in the constructor of a foreign class.
    ForeignCreation,
    /// Its entry in the constructor's parameter type of a callback class.
    CallbackParameter,
    /// Taking it over from the constructor's parameter in a callback class.
    CallbackAssignment,
    /// Its property with getter and setter in a callback class.
    CallbackProperty,
}

pub open spec fn import_piece(kind: ImportPiece, class_name: Seq<char>, imp: Seq<char>) -> Seq<char> {
    match kind {
        ImportPiece::Import => "import "@ + imp + " from \"./"@ + class_name + "/"@ + imp + "\"\n"@,
        ImportPiece::ForeignField => "    "@ + imp + ": "@ + imp + "\n"@,
        ImportPiece::ForeignCreation => "        this."@ + imp + " = new "@ + imp + "(server)\n"@,
        ImportPiece::CallbackParameter => "        "@ + imp + ": "@ + imp + "\n"@,
        ImportPiece::CallbackAssignment => "        if (callbacks?."@ + imp + ") {\n            this."@ + imp
            + " = callbacks."@ + imp + "\n        } else {\n            this."@ + imp + " = this."@ + imp
            + "\n        }\n\n"@,
        ImportPiece::CallbackProperty => "    private _"@ + imp + " = new "@ + imp + "()\n    set "@ + imp
            + "(value: "@ + imp + ") {\n        this._"@ + imp
            + " = value;\n        (value as any).setERPCServer(this.server)\n    }\n    get "@ + imp
            + "() {\n        return this._"@ + imp + "\n    }\n"@,
    }
}

pub open spec fn import_piece_fn(kind: ImportPiece, class_name: Seq<char>) -> spec_fn(Seq<char>) -> Seq<char> {
    |imp: Seq<char>| import_piece(kind, class_name, imp)
}

/// The kinds of text that a class has for each endpoint.
pub enum EndpointPiece {
    /// Re-setting the handler when the server is set, in a callback class.
    ServerTrigger,
    /// Its entry in the constructor's parameter type of a callback class.
    CallbackParameter,
    /// Taking it over from the constructor's parameter in a callback class.
    CallbackAssignment,
    /// The member of the class, for a foreign class or not.
    Member(bool),
}

/// Where the endpoint of a class is found: the class's path, its name and the
/// endpoint's identifier.
pub open spec fn endpoint_url(relative_path: Seq<char>, class_name: Seq<char>, identifier: Seq<char>) -> Seq<
    char,
> {
    relative_path + class_name + "/"@ + identifier
}

pub open spec fn endpoint_piece(
    kind: EndpointPiece,
    relative_path: Seq<char>,
    class_name: Seq<char>,
    e: EndpointView,
) -> Seq<char> {
    match kind {
        EndpointPiece::ServerTrigger => "        if (this."@ + e.identifier + ") {\n            this."@
            + e.identifier + " = this."@ + e.identifier + "\n        }\n"@,
        EndpointPiece::CallbackParameter => "        "@ + e.identifier + ": "@ + signature_text(e) + "\n"@,
        EndpointPiece::CallbackAssignment => "        if (callbacks?."@ + e.identifier
            + ") {\n            this."@ + e.identifier + " = callbacks."@ + e.identifier
            + "\n        }\n\n"@,
        EndpointPiece::Member(foreign) => endpoint_function_text(
            e,
            foreign,
            endpoint_url(relative_path, class_name, e.identifier),
        ),
    }
}

pub open spec fn endpoint_piece_fn(
    kind: EndpointPiece,
    relative_path: Seq<char>,
    class_name: Seq<char>,
) -> spec_fn(EndpointView) -> Seq<char> {
    |e: EndpointView| endpoint_piece(kind, relative_path, class_name, e)
}

pub open spec fn interface_block_fn() -> spec_fn(CustomTypeView) -> Seq<char> {
    |c: CustomTypeView| interface_text(c) + "\n"@
}

pub open spec fn string_views(ss: Seq<String>) -> Seq<Seq<char>> {
    ss.map_values(|s: String| s@)
}

/// The start of every class: the imports of the subclasses, and the interfaces
/// of the custom types.
pub open spec fn class_head_text(
    class_name: Seq<char>,
    imports: Seq<Seq<char>>,
    custom_types: Seq<CustomTypeView>,
) -> Seq<char> {
    concat_map(imports, import_piece_fn(ImportPiece::Import, class_name)) + "\n"@ + concat_map(
        custom_types,
        interface_block_fn(),
    )
}

/// A class whose methods call the endpoints of another role.
pub open spec fn foreign_class_text(
    class_name: Seq<char>,
    relative_path: Seq<char>,
    endpoints: Seq<EndpointView>,
    imports: Seq<Seq<char>>,
    custom_types: Seq<CustomTypeView>,
) -> Seq<char> {
    class_head_text(class_name, imports, custom_types) + "export default class "@ + class_name
        + " {\n"@ + concat_map(imports, import_piece_fn(ImportPiece::ForeignField, class_name))
        + "\n    private server: any\n\n    constructor(server: any) {\n        this.server = server\n"@
        + concat_map(imports, import_piece_fn(ImportPiece::ForeignCreation, class_name))
        + "    }\n\n"@ + concat_map(
        endpoints,
        endpoint_piece_fn(EndpointPiece::Member(true), relative_path, class_name),
    ) + "}"@
}

/// A class with handlers for the endpoints of the own role.
pub open spec fn callback_class_text(
    class_name: Seq<char>,
    relative_path: Seq<char>,
    endpoints: Seq<EndpointView>,
    imports: Seq<Seq<char>>,
    custom_types: Seq<CustomTypeView>,
) -> Seq<char> {
    class_head_text(class_name, imports, custom_types) + "export default class "@ + class_name
        + " {\n    private server: any\n    /**\n        This method is used by easy-rpc internally and is not intended for manual use. It can be used to set the server of the object.\n    */\n    private setERPCServer(server: any) {\n        this.server = server\n\n        // trigger the setters to set the handlers on the server object\n"@
        + concat_map(
        endpoints,
        endpoint_piece_fn(EndpointPiece::ServerTrigger, relative_path, class_name),
    ) + "    }\n\n    constructor(callbacks?: {\n"@ + concat_map(
        endpoints,
        endpoint_piece_fn(EndpointPiece::CallbackParameter, relative_path, class_name),
    ) + concat_map(imports, import_piece_fn(ImportPiece::CallbackParameter, class_name))
        + "    }) {\n"@ + concat_map(
        endpoints,
        endpoint_piece_fn(EndpointPiece::CallbackAssignment, relative_path, class_name),
    ) + concat_map(imports, import_piece_fn(ImportPiece::CallbackAssignment, class_name))
        + "    }\n\n"@ + concat_map(
        endpoints,
        endpoint_piece_fn(EndpointPiece::Member(false), relative_path, class_name),
    ) + concat_map(imports, import_piece_fn(ImportPiece::CallbackProperty, class_name)) + "\n}"@
}

/// The class of a source file for one role: foreign (calling the endpoints) or
/// not (handling them).
pub open spec fn class_text(
    class_name: Seq<char>,
    relative_path: Seq<char>,
    endpoints: Seq<EndpointView>,
    foreign: bool,
    imports: Seq<Seq<char>>,
    custom_types: Seq<CustomTypeView>,
) -> Seq<char> {
    if foreign {
        foreign_class_text(class_name, relative_path, endpoints, imports, custom_types)
    } else {
        callback_class_text(class_name, relative_path, endpoints, imports, custom_types)
    }
}

fn import_piece_string(kind: &ImportPiece, class_name: &str, imp: &String) -> (res: String)
    ensures
        res@ == import_piece(*kind, class_name@, imp@),
{
    let i = imp.as_str();
    match kind {
        ImportPiece::Import => {
            let mut r = text("import ");
            r.append(i);
            r.append(" from \"./");
            r.append(class_name);
            r.append("/");
            r.append(i);
            r.append("\"\n");
            r
        },
        ImportPiece::ForeignField => {
            let mut r = text("    ");
            r.append(i);
            r.append(": ");
            r.append(i);
            r.append("\n");
            r
        },
        ImportPiece::ForeignCreation => {
            let mut r = text("        this.");
            r.append(i);
            r.append(" = new ");
            r.append(i);
            r.append("(server)\n");
            r
        },
        ImportPiece::CallbackParameter => {
            let mut r = text("        ");
            r.append(i);
            r.append(": ");
            r.append(i);
            r.append("\n");
            r
        },
        ImportPiece::CallbackAssignment => {
            let mut r = text("        if (callbacks?.");
            r.append(i);
            r.append(") {\n            this.");
            r.append(i);
            r.append(" = callbacks.");
            r.append(i);
            r.append("\n        } else {\n            this.");
            r.append(i);
            r.append(" = this.");
            r.append(i);
            r.append("\n        }\n\n");
            r
        },
        ImportPiece::CallbackProperty => {
            let mut r = text("    private _");
            r.append(i);
            r.append(" = new ");
            r.append(i);
            r.append("()\n    set ");
            r.append(i);
            r.append("(value: ");
            r.append(i);
            r.append(") {\n        this._");
            r.append(i);
            r.append(" = value;\n        (value as any).setERPCServer(this.server)\n    }\n    get ");
            r.append(i);
            r.append("() {\n        return this._");
            r.append(i);
            r.append("\n    }\n");
            r
        },
    }
}

fn append_import_pieces(out: &mut String, imports: &Vec<String>, kind: ImportPiece, class_name: &str)
    ensures
        final(out)@ == old(out)@ + concat_map(
            string_views(imports@),
            import_piece_fn(kind, class_name@),
        ),
{
    let ghost start = out@;
    let ghost views = string_views(imports@);
    let mut i: usize = 0;
    while i < imports.len()
        invariant
            i <= imports.len(),
            views == string_views(imports@),
            views.len() == imports.len(),
            out@ == start + concat_map(views.take(i as int), import_piece_fn(kind, class_name@)),
        decreases imports.len() - i,
    {
        proof {
            lemma_concat_map_step(views, import_piece_fn(kind, class_name@), i as int);
        }
        let piece = import_piece_string(&kind, class_name, &imports[i]);
        out.append(piece.as_str());
        assert(out@ =~= start + concat_map(views.take(i + 1), import_piece_fn(kind, class_name@)));
        i = i + 1;
    }
    assert(views.take(i as int) =~= views);
}

fn endpoint_piece_string(kind: &EndpointPiece, relative_path: &str, class_name: &str, e: &Endpoint) -> (res:
    String)
    ensures
        res@ == endpoint_piece(*kind, relative_path@, class_name@, e@),
{
    let id = e.identifier.as_str();
    match kind {
        EndpointPiece::ServerTrigger => {
            let mut r = text("        if (this.");
            r.append(id);
            r.append(") {\n            this.");
            r.append(id);
            r.append(" = this.");
            r.append(id);
            r.append("\n        }\n");
            r
        },
        EndpointPiece::CallbackParameter => {
            let mut r = text("        ");
            r.append(id);
            r.append(": ");
            let signature = signature_string(e);
            r.append(signature.as_str());
            r.append("\n");
            r
        },
        EndpointPiece::CallbackAssignment => {
            let mut r = text("        if (callbacks?.");
            r.append(id);
            r.append(") {\n            this.");
            r.append(id);
            r.append(" = callbacks.");
            r.append(id);
            r.append("\n        }\n\n");
            r
        },
        EndpointPiece::Member(foreign) => {
            let mut url = text(relative_path);
            url.append(class_name);
            url.append("/");
            url.append(id);
            endpoint_to_function(e, *foreign, url.as_str())
        },
    }
}

fn append_endpoint_pieces(
    out: &mut String,
    endpoints: &Vec<Endpoint>,
    kind: EndpointPiece,
    relative_path: &str,
    class_name: &str,
)
    ensures
        final(out)@ == old(out)@ + concat_map(
            crate::parser::parse::endpoint_views(endpoints@),
            endpoint_piece_fn(kind, relative_path@, class_name@),
        ),
{
    let ghost start = out@;
    let ghost views = crate::parser::parse::endpoint_views(endpoints@);
    let ghost f = endpoint_piece_fn(kind, relative_path@, class_name@);
    let mut i: usize = 0;
    while i < endpoints.len()
        invariant
            i <= endpoints.len(),
            views == crate::parser::parse::endpoint_views(endpoints@),
            views.len() == endpoints.len(),
            f == endpoint_piece_fn(kind, relative_path@, class_name@),
            out@ == start + concat_map(views.take(i as int), f),
        decreases endpoints.len() - i,
    {
        proof {
            lemma_concat_map_step(views, f, i as int);
            assert(views[i as int] == endpoints@[i as int]@);
        }
        let piece = endpoint_piece_string(&kind, relative_path, class_name, &endpoints[i]);
        out.append(piece.as_str());
        assert(out@ =~= start + concat_map(views.take(i + 1), f));
        i = i + 1;
    }
    assert(views.take(i as int) =~= views);
}

fn class_head(class_name: &str, class_imports: &Vec<String>, custom_types: &Vec<CustomType>) -> (res:
    String)
    ensures
        res@ == class_head_text(
            class_name@,
            string_views(class_imports@),
            crate::parser::parse::custom_type_views(custom_types@),
        ),
{
    let mut ret = String::new();
    append_import_pieces(&mut ret, class_imports, ImportPiece::Import, class_name);
    assert(ret@ =~= concat_map(string_views(class_imports@), import_piece_fn(ImportPiece::Import, class_name@)));
    ret.append("\n");
    let ghost prefix = ret@;
    let ghost views = crate::parser::parse::custom_type_views(custom_types@);
    let mut i: usize = 0;
    while i < custom_types.len()
        invariant
            i <= custom_types.len(),
            views == crate::parser::parse::custom_type_views(custom_types@),
            views.len() == custom_types.len(),
            ret@ == prefix + concat_map(views.take(i as int), interface_block_fn()),
        decreases custom_types.len() - i,
    {
        proof {
            lemma_concat_map_step(views, interface_block_fn(), i as int);
            assert(views[i as int] == custom_types@[i as int]@);
        }
        let mut block = custom_type_to_interface(&custom_types[i]);
        block.append("\n");
        ret.append(block.as_str());
        assert(ret@ =~= prefix + concat_map(views.take(i + 1), interface_block_fn()));
        i = i + 1;
    }
    assert(views.take(i as int) =~= views);
    ret
}

fn generate_foreign_class(
    class_name: &str,
    relative_path: &str,
    endpoints: &Vec<Endpoint>,
    class_imports: &Vec<String>,
    custom_types: &Vec<CustomType>,
) -> (res: String)
    ensures
        res@ == foreign_class_text(
            class_name@,
            relative_path@,
            crate::parser::parse::endpoint_views(endpoints@),
            string_views(class_imports@),
            crate::parser::parse::custom_type_views(custom_types@),
        ),
{
    let mut ret = class_head(class_name, class_imports, custom_types);
    ret.append("export default class ");
    ret.append(class_name);
    ret.append(" {\n");
    append_import_pieces(&mut ret, class_imports, ImportPiece::ForeignField, class_name);
    ret.append("\n    private server: any\n\n    constructor(server: any) {\n        this.server = server\n");
    append_import_pieces(&mut ret, class_imports, ImportPiece::ForeignCreation, class_name);
    ret.append("    }\n\n");
    append_endpoint_pieces(&mut ret, endpoints, EndpointPiece::Member(true), relative_path, class_name);
    ret.append("}");
    ret
}

fn generate_callback_class(
    class_name: &str,
    relative_path: &str,
    endpoints: &Vec<Endpoint>,
    class_imports: &Vec<String>,
    custom_types: &Vec<CustomType>,
) -> (res: String)
    ensures
        res@ == callback_class_text(
            class_name@,
            relative_path@,
            crate::parser::parse::endpoint_views(endpoints@),
            string_views(class_imports@),
            crate::parser::parse::custom_type_views(custom_types@),
        ),
{
    let mut ret = class_head(class_name, class_imports, custom_types);
    ret.append("export default class ");
    ret.append(class_name);
    ret.append(
        " {\n    private server: any\n    /**\n        This method is used by easy-rpc internally and is not intended for manual use. It can be used to set the server of the object.\n    */\n    private setERPCServer(server: any) {\n        this.server = server\n\n        // trigger the setters to set the handlers on the server object\n",
    );
    append_endpoint_pieces(&mut ret, endpoints, EndpointPiece::ServerTrigger, relative_path, class_name);
    ret.append("    }\n\n    constructor(callbacks?: {\n");
    append_endpoint_pieces(
        &mut ret,
        endpoints,
        EndpointPiece::CallbackParameter,
        relative_path,
        class_name,
    );
    append_import_pieces(&mut ret, class_imports, ImportPiece::CallbackParameter, class_name);
    ret.append("    }) {\n");
    append_endpoint_pieces(
        &mut ret,
        endpoints,
        EndpointPiece::CallbackAssignment,
        relative_path,
        class_name,
    );
    append_import_pieces(&mut ret, class_imports, ImportPiece::CallbackAssignment, class_name);
    ret.append("    }\n\n");
    append_endpoint_pieces(&mut ret, endpoints, EndpointPiece::Member(false), relative_path, class_name);
    append_import_pieces(&mut ret, class_imports, ImportPiece::CallbackProperty, class_name);
    ret.append("\n}");
    ret
}

/// Generates the TypeScript class of a source file for one role. `foreign`: the
/// class calls the endpoints of another role; else it handles the endpoints of
/// the own role. The class imports its subclasses and declares the custom types
/// as interfaces.
pub fn generate_class(
    class_name: &str,
    relative_path: &str,
    endpoints: &Vec<Endpoint>,
    foreign: bool,
    class_imports: &Vec<String>,
    custom_types: &Vec<CustomType>,
) -> (res: String)
    ensures
        res@ == class_text(
            class_name@,
            relative_path@,
            crate::parser::parse::endpoint_views(endpoints@),
            foreign,
            string_views(class_imports@),
            crate::parser::parse::custom_type_views(custom_types@),
        ),
{
    if foreign {
        generate_foreign_class(class_name, relative_path, endpoints, class_imports, custom_types)
    } else {
        generate_callback_class(class_name, relative_path, endpoints, class_imports, custom_types)
    }
}

/// A class that handles its endpoints takes over every handler it is given:
/// for each endpoint `e`, its constructor holds
/// `if (callbacks?.e) { this.e = callbacks.e }`.
pub proof fn law_callback_class_takes_handlers(
    class_name: Seq<char>,
    relative_path: Seq<char>,
    endpoints: Seq<EndpointView>,
    imports: Seq<Seq<char>>,
    custom_types: Seq<CustomTypeView>,
    k: int,
)
    requires
        0 <= k < endpoints.len(),
    ensures
        has_part(
            class_text(class_name, relative_path, endpoints, false, imports, custom_types),
            "        if (callbacks?."@ + endpoints[k].identifier + ") {\n            this."@
                + endpoints[k].identifier + " = callbacks."@ + endpoints[k].identifier
                + "\n        }\n\n"@,
        ),
{
    let f = endpoint_piece_fn(EndpointPiece::CallbackAssignment, relative_path, class_name);
    lemma_has_part_concat_map(endpoints, f, k);
    let a = class_head_text(class_name, imports, custom_types) + "export default class "@ + class_name
        + " {\n    private server: any\n    /**\n        This method is used by easy-rpc internally and is not intended for manual use. It can be used to set the server of the object.\n    */\n    private setERPCServer(server: any) {\n        this.server = server\n\n        // trigger the setters to set the handlers on the server object\n"@
        + concat_map(
        endpoints,
        endpoint_piece_fn(EndpointPiece::ServerTrigger, relative_path, class_name),
    ) + "    }\n\n    constructor(callbacks?: {\n"@ + concat_map(
        endpoints,
        endpoint_piece_fn(EndpointPiece::CallbackParameter, relative_path, class_name),
    ) + concat_map(imports, import_piece_fn(ImportPiece::CallbackParameter, class_name))
        + "    }) {\n"@;
    let b = concat_map(endpoints, f);
    let c = concat_map(imports, import_piece_fn(ImportPiece::CallbackAssignment, class_name))
        + "    }\n\n"@ + concat_map(
        endpoints,
        endpoint_piece_fn(EndpointPiece::Member(false), relative_path, class_name),
    ) + concat_map(imports, import_piece_fn(ImportPiece::CallbackProperty, class_name)) + "\n}"@;
    assert(class_text(class_name, relative_path, endpoints, false, imports, custom_types) =~= a + b + c);
    lemma_has_part_within(a, b, c, f(endpoints[k]));
}

} // verus!
