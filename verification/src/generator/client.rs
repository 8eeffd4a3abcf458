use vstd::prelude::*;

use crate::config::{Role, RoleView};
use crate::generator::text::{
    concat_map, has_part, join_map, lemma_concat_map_step, lemma_has_part_self, lemma_has_part_within,
    lemma_join_map_step,
};
use crate::generator::typescript::{doc_text, string_views};
use crate::parser::field_type::text;

verus! {

/// The kinds of text that a client has for each name in a list.
pub enum ClientPiece {
    /// The import of the client of a browser role (none for the own role).
    BrowserImport,
    /// The import of a class of the role.
    ClassImport,
    /// A property with getter and setter for a class, in a server client.
    ServerProperty,
    /// The entry of a class in the constructor's parameter type of a server client.
    ServerParameter,
    /// Taking a class over from the constructor's parameter in a server client.
    ServerAssignment,
    /// A field with the class, in a target client.
    TargetField,
    /// One of the role's types in the constructor call.
    RoleType,
    /// Handing a connecting browser role to the callback.
    Connection,
}

pub open spec fn client_piece(kind: ClientPiece, role_name: Seq<char>, item: Seq<char>) -> Seq<char> {
    match kind {
        ClientPiece::BrowserImport => if item == role_name {
            ""@
        } else {
            "import "@ + item + " from \"./"@ + item + "\"\n"@
        },
        ClientPiece::ClassImport => "import "@ + item + " from \"./"@ + role_name + "/"@ + item
            + "\"\n"@,
        ClientPiece::ServerProperty => "    private _"@ + item + " = undefined as any\n    set "@ + item
            + "(value: "@ + item + ") {\n        this._"@ + item
            + " = value;\n        (value as any).setERPCServer(this)\n    }\n    get "@ + item
            + "() {\n        return this._"@ + item + "\n    }\n"@,
        ClientPiece::ServerParameter => "        "@ + item + ": "@ + item + "\n"@,
        ClientPiece::ServerAssignment => "        if (callbacks?."@ + item + ") {\n            this."@
            + item + " = callbacks."@ + item + "\n        } else {\n            this."@ + item
            + " = new "@ + item + "()\n        }\n"@,
        ClientPiece::TargetField => "    "@ + item + " = new "@ + item + "(this)\n"@,
        ClientPiece::RoleType => "\""@ + item + "\", "@,
        ClientPiece::Connection => "            if (role == \""@ + item
            + "\") {\n                const ret = new "@ + item
            + "({address: \"\", port: 0})\n                // eslint-disable-next-line @typescript-eslint/ban-ts-comment\n                // @ts-ignore\n                ret.setERPCSocket(socket)\n                callback(ret)\n            }"@,
    }
}

pub open spec fn client_piece_fn(kind: ClientPiece, role_name: Seq<char>) -> spec_fn(Seq<char>) -> Seq<
    char,
> {
    |item: Seq<char>| client_piece(kind, role_name, item)
}

pub open spec fn name_fn() -> spec_fn(Seq<char>) -> Seq<char> {
    |item: Seq<char>| item
}

/// Websockets are enabled for a server role when some browser role has
/// endpoints, and for a browser role that has endpoints itself.
pub open spec fn websockets_enabled(role: RoleView, browser_roles: Seq<Seq<char>>) -> bool {
    (browser_roles.len() > 0 && role.types.contains("http-server"@)) || (browser_roles.contains(
        role.name,
    ) && role.types.contains("browser"@))
}

pub open spec fn bool_text(b: bool) -> Seq<char> {
    if b {
        "true"@
    } else {
        "false"@
    }
}

/// The imports that every client starts with.
pub open spec fn client_imports_text(
    role: RoleView,
    imports: Seq<Seq<char>>,
    browser_roles: Seq<Seq<char>>,
) -> Seq<char> {
    concat_map(browser_roles, client_piece_fn(ClientPiece::BrowserImport, role.name)) + concat_map(
        imports,
        client_piece_fn(ClientPiece::ClassImport, role.name),
    ) + "\n"@ + doc_text(role.documentation)
}

/// The method with which a server hands connecting browsers to a callback.
pub open spec fn connection_text(browser_roles: Seq<Seq<char>>) -> Seq<char> {
    "\n    onConnection(callback: (target: "@ + join_map(browser_roles, name_fn(), " | "@)
        + ") => void) {\n        // eslint-disable-next-line @typescript-eslint/ban-ts-comment\n        // @ts-ignore\n        super.onSocketConnection((role, socket) => {\n"@
        + concat_map(browser_roles, client_piece_fn(ClientPiece::Connection, ""@))
        + "\n        })\n    }"@
}

/// The client of the own role: it serves the role's classes.
pub open spec fn callback_client_text(
    imports: Seq<Seq<char>>,
    role: RoleView,
    browser_roles: Seq<Seq<char>>,
    library_source: Seq<char>,
) -> Seq<char> {
    let ws = websockets_enabled(role, browser_roles);
    "import { ERPCServer, ServerOptions } from \""@ + library_source + "\"\n"@ + client_imports_text(
        role,
        imports,
        browser_roles,
    ) + "export default class "@ + role.name + " extends ERPCServer {\n"@ + concat_map(
        imports,
        client_piece_fn(ClientPiece::ServerProperty, role.name),
    )
        + "    /**\n        @param options The options to set for the easy-rpc object\n        @param callbacks Callbacks to register for this server\n    */\n"@
        + "    constructor(options: ServerOptions, callbacks?: {\n"@ + concat_map(
        imports,
        client_piece_fn(ClientPiece::ServerParameter, role.name),
    ) + "    }) {\n        super(options, ["@ + concat_map(
        role.types,
        client_piece_fn(ClientPiece::RoleType, role.name),
    ) + "], "@ + bool_text(ws) + ", \""@ + role.name + "\")\n"@ + concat_map(
        imports,
        client_piece_fn(ClientPiece::ServerAssignment, role.name),
    ) + "    }\n"@ + (if ws && !role.types.contains("browser"@) {
        connection_text(browser_roles)
    } else {
        ""@
    }) + "\n}"@
}

/// The client of another role: it calls the role's classes.
pub open spec fn foreign_client_text(
    imports: Seq<Seq<char>>,
    role: RoleView,
    browser_roles: Seq<Seq<char>>,
    library_source: Seq<char>,
) -> Seq<char> {
    "import { ERPCTarget, TargetOptions } from \""@ + library_source + "\"\n"@ + client_imports_text(
        role,
        imports,
        browser_roles,
    ) + "export default class "@ + role.name + " extends ERPCTarget {\n"@ + concat_map(
        imports,
        client_piece_fn(ClientPiece::TargetField, role.name),
    ) + "    /**\n        @param options The options to set for the easy-rpc object\n    */\n"@
        + "    constructor(options: TargetOptions) {\n"@ + "        super(options, ["@ + concat_map(
        role.types,
        client_piece_fn(ClientPiece::RoleType, role.name),
    ) + "])\n    }\n}"@
}

fn client_piece_string(kind: &ClientPiece, role_name: &str, item: &String) -> (res: String)
    ensures
        res@ == client_piece(*kind, role_name@, item@),
{
    let i = item.as_str();
    match kind {
        ClientPiece::BrowserImport => {
            if same_text(i, role_name) {
                text("")
            } else {
                let mut r = text("import ");
                r.append(i);
                r.append(" from \"./");
                r.append(i);
                r.append("\"\n");
                r
            }
        },
        ClientPiece::ClassImport => {
            let mut r = text("import ");
            r.append(i);
            r.append(" from \"./");
            r.append(role_name);
            r.append("/");
            r.append(i);
            r.append("\"\n");
            r
        },
        ClientPiece::ServerProperty => {
            let mut r = text("    private _");
            r.append(i);
            r.append(" = undefined as any\n    set ");
            r.append(i);
            r.append("(value: ");
            r.append(i);
            r.append(") {\n        this._");
            r.append(i);
            r.append(" = value;\n        (value as any).setERPCServer(this)\n    }\n    get ");
            r.append(i);
            r.append("() {\n        return this._");
            r.append(i);
            r.append("\n    }\n");
            r
        },
        ClientPiece::ServerParameter => {
            let mut r = text("        ");
            r.append(i);
            r.append(": ");
            r.append(i);
            r.append("\n");
            r
        },
        ClientPiece::ServerAssignment => {
            let mut r = text("        if (callbacks?.");
            r.append(i);
            r.append(") {\n            this.");
            r.append(i);
            r.append(" = callbacks.");
            r.append(i);
            r.append("\n        } else {\n            this.");
            r.append(i);
            r.append(" = new ");
            r.append(i);
            r.append("()\n        }\n");
            r
        },
        ClientPiece::TargetField => {
            let mut r = text("    ");
            r.append(i);
            r.append(" = new ");
            r.append(i);
            r.append("(this)\n");
            r
        },
        ClientPiece::RoleType => {
            let mut r = text("\"");
            r.append(i);
            r.append("\", ");
            r
        },
        ClientPiece::Connection => {
            let mut r = text("            if (role == \"");
            r.append(i);
            r.append("\") {\n                const ret = new ");
            r.append(i);
            r.append(
                "({address: \"\", port: 0})\n                // eslint-disable-next-line @typescript-eslint/ban-ts-comment\n                // @ts-ignore\n                ret.setERPCSocket(socket)\n                callback(ret)\n            }",
            );
            r
        },
    }
}

/// Whether two texts are equal.
pub(crate) fn same_text(a: &str, b: &str) -> (res: bool)
    ensures
        res == (a@ == b@),
{
    let a = crate::input_reader::str_chars(a);
    let b = crate::input_reader::str_chars(b);
    crate::text::chars_equal(&a, &b)
}

fn append_client_pieces(out: &mut String, items: &Vec<String>, kind: ClientPiece, role_name: &str)
    ensures
        final(out)@ == old(out)@ + concat_map(string_views(items@), client_piece_fn(kind, role_name@)),
{
    let ghost start = out@;
    let ghost views = string_views(items@);
    let mut i: usize = 0;
    while i < items.len()
        invariant
            i <= items.len(),
            views == string_views(items@),
            views.len() == items.len(),
            out@ == start + concat_map(views.take(i as int), client_piece_fn(kind, role_name@)),
        decreases items.len() - i,
    {
        proof {
            lemma_concat_map_step(views, client_piece_fn(kind, role_name@), i as int);
        }
        let piece = client_piece_string(&kind, role_name, &items[i]);
        out.append(piece.as_str());
        assert(out@ =~= start + concat_map(views.take(i + 1), client_piece_fn(kind, role_name@)));
        i = i + 1;
    }
    assert(views.take(i as int) =~= views);
}

/// Whether one of the texts is `s`.
pub(crate) fn contains_text(items: &Vec<String>, s: &str) -> (res: bool)
    ensures
        res == string_views(items@).contains(s@),
{
    let ghost views = string_views(items@);
    let mut i: usize = 0;
    while i < items.len()
        invariant
            i <= items.len(),
            views == string_views(items@),
            views.len() == items.len(),
            forall|j: int| 0 <= j < i ==> views[j] != s@,
        decreases items.len() - i,
    {
        assert(views[i as int] == items@[i as int]@);
        if same_text(items[i].as_str(), s) {
            return true;
        }
        i = i + 1;
    }
    false
}

fn client_imports(role: &Role, class_imports: &Vec<String>, browser_roles: &Vec<String>, out: &mut String)
    ensures
        final(out)@ == old(out)@ + client_imports_text(role@, string_views(class_imports@), string_views(browser_roles@)),
{
    let ghost start = out@;
    append_client_pieces(out, browser_roles, ClientPiece::BrowserImport, role.name.as_str());
    append_client_pieces(out, class_imports, ClientPiece::ClassImport, role.name.as_str());
    out.append("\n");
    match &role.documentation {
        Some(doc) => {
            out.append("/**");
            out.append(doc.as_str());
            out.append("*/\n");
        },
        None => {
            out.append("");
        },
    }
    assert(out@ =~= start + client_imports_text(role@, string_views(class_imports@), string_views(browser_roles@)));
}

fn connection_string(browser_roles: &Vec<String>) -> (res: String)
    ensures
        res@ == connection_text(string_views(browser_roles@)),
{
    let mut ret = text("\n    onConnection(callback: (target: ");
    let ghost prefix = ret@;
    let ghost views = string_views(browser_roles@);
    let mut names = String::new();
    let mut i: usize = 0;
    while i < browser_roles.len()
        invariant
            i <= browser_roles.len(),
            views == string_views(browser_roles@),
            views.len() == browser_roles.len(),
            names@ == join_map(views.take(i as int), name_fn(), " | "@),
        decreases browser_roles.len() - i,
    {
        proof {
            lemma_join_map_step(views, name_fn(), " | "@, i as int);
        }
        if i > 0 {
            names.append(" | ");
        }
        names.append(browser_roles[i].as_str());
        i = i + 1;
    }
    assert(views.take(i as int) =~= views);
    ret.append(names.as_str());
    ret.append(
        ") => void) {\n        // eslint-disable-next-line @typescript-eslint/ban-ts-comment\n        // @ts-ignore\n        super.onSocketConnection((role, socket) => {\n",
    );
    append_client_pieces(&mut ret, browser_roles, ClientPiece::Connection, "");
    ret.append("\n        })\n    }");
    ret
}

fn generate_callback_client(
    class_imports: &Vec<String>,
    role: &Role,
    socket_enabled_browser_roles: &Vec<String>,
    library_source: &str,
) -> (res: String)
    ensures
        res@ == callback_client_text(
            string_views(class_imports@),
            role@,
            string_views(socket_enabled_browser_roles@),
            library_source@,
        ),
{
    let mut ret = text("import { ERPCServer, ServerOptions } from \"");
    ret.append(library_source);
    ret.append("\"\n");
    client_imports(role, class_imports, socket_enabled_browser_roles, &mut ret);
    let is_server = contains_text(&role.types, "http-server");
    let is_browser = contains_text(&role.types, "browser");
    let enable_websockets = (socket_enabled_browser_roles.len() > 0 && is_server) || (contains_text(
        socket_enabled_browser_roles,
        role.name.as_str(),
    ) && is_browser);
    assert(string_views(role.types@) == role@.types);
    ret.append("export default class ");
    ret.append(role.name.as_str());
    ret.append(" extends ERPCServer {\n");
    append_client_pieces(&mut ret, class_imports, ClientPiece::ServerProperty, role.name.as_str());
    ret.append(
        "    /**\n        @param options The options to set for the easy-rpc object\n        @param callbacks Callbacks to register for this server\n    */\n",
    );
    ret.append("    constructor(options: ServerOptions, callbacks?: {\n");
    append_client_pieces(&mut ret, class_imports, ClientPiece::ServerParameter, role.name.as_str());
    ret.append("    }) {\n        super(options, [");
    append_client_pieces(&mut ret, &role.types, ClientPiece::RoleType, role.name.as_str());
    ret.append("], ");
    ret.append(
        if enable_websockets {
            "true"
        } else {
            "false"
        },
    );
    ret.append(", \"");
    ret.append(role.name.as_str());
    ret.append("\")\n");
    append_client_pieces(&mut ret, class_imports, ClientPiece::ServerAssignment, role.name.as_str());
    ret.append("    }\n");
    if enable_websockets && !is_browser {
        let connection = connection_string(socket_enabled_browser_roles);
        ret.append(connection.as_str());
    } else {
        ret.append("");
    }
    ret.append("\n}");
    ret
}

fn generate_foreign_client(
    class_imports: &Vec<String>,
    role: &Role,
    socket_enabled_browser_roles: &Vec<String>,
    library_source: &str,
) -> (res: String)
    ensures
        res@ == foreign_client_text(
            string_views(class_imports@),
            role@,
            string_views(socket_enabled_browser_roles@),
            library_source@,
        ),
{
    let mut ret = text("import { ERPCTarget, TargetOptions } from \"");
    ret.append(library_source);
    ret.append("\"\n");
    client_imports(role, class_imports, socket_enabled_browser_roles, &mut ret);
    assert(string_views(role.types@) == role@.types);
    ret.append("export default class ");
    ret.append(role.name.as_str());
    ret.append(" extends ERPCTarget {\n");
    append_client_pieces(&mut ret, class_imports, ClientPiece::TargetField, role.name.as_str());
    ret.append("    /**\n        @param options The options to set for the easy-rpc object\n    */\n");
    ret.append("    constructor(options: TargetOptions) {\n");
    ret.append("        super(options, [");
    append_client_pieces(&mut ret, &role.types, ClientPiece::RoleType, role.name.as_str());
    ret.append("])\n    }\n}");
    ret
}

/// Generates the client class of a role, which the user works with: for a
/// `foreign` role one that calls its classes, else one that serves them.
/// `socket_enabled_browser_roles` are the browser roles that have endpoints;
/// `library_source` is the package the client imports easy-rpc from.
pub fn generate_client(
    foreign: bool,
    class_imports: &Vec<String>,
    role: &Role,
    socket_enabled_browser_roles: &Vec<String>,
    library_source: &str,
) -> (res: String)
    ensures
        foreign ==> res@ == foreign_client_text(
            string_views(class_imports@),
            role@,
            string_views(socket_enabled_browser_roles@),
            library_source@,
        ),
        !foreign ==> res@ == callback_client_text(
            string_views(class_imports@),
            role@,
            string_views(socket_enabled_browser_roles@),
            library_source@,
        ),
{
    if foreign {
        generate_foreign_client(class_imports, role, socket_enabled_browser_roles, library_source)
    } else {
        generate_callback_client(class_imports, role, socket_enabled_browser_roles, library_source)
    }
}

/// The flag in the `super` call of the client of the own role: websockets are
/// on for a browser role that is among the socket-enabled browser roles, and
/// for a server when there is any socket-enabled browser role; off otherwise.
pub proof fn law_callback_client_websockets(
    imports: Seq<Seq<char>>,
    role: RoleView,
    browser_roles: Seq<Seq<char>>,
    library_source: Seq<char>,
)
    ensures
        (role.types.contains("browser"@) && browser_roles.contains(role.name)) || (
        browser_roles.len() > 0 && role.types.contains("http-server"@)) ==> has_part(
            callback_client_text(imports, role, browser_roles, library_source),
            "], "@ + "true"@ + ", \""@ + role.name + "\")\n"@,
        ),
        !((role.types.contains("browser"@) && browser_roles.contains(role.name)) || (
        browser_roles.len() > 0 && role.types.contains("http-server"@))) ==> has_part(
            callback_client_text(imports, role, browser_roles, library_source),
            "], "@ + "false"@ + ", \""@ + role.name + "\")\n"@,
        ),
{
    let ws = websockets_enabled(role, browser_roles);
    let a = "import { ERPCServer, ServerOptions } from \""@ + library_source + "\"\n"@
        + client_imports_text(role, imports, browser_roles) + "export default class "@ + role.name
        + " extends ERPCServer {\n"@ + concat_map(
        imports,
        client_piece_fn(ClientPiece::ServerProperty, role.name),
    )
        + "    /**\n        @param options The options to set for the easy-rpc object\n        @param callbacks Callbacks to register for this server\n    */\n"@
        + "    constructor(options: ServerOptions, callbacks?: {\n"@ + concat_map(
        imports,
        client_piece_fn(ClientPiece::ServerParameter, role.name),
    ) + "    }) {\n        super(options, ["@ + concat_map(
        role.types,
        client_piece_fn(ClientPiece::RoleType, role.name),
    );
    let b = "], "@ + bool_text(ws) + ", \""@ + role.name + "\")\n"@;
    let c = concat_map(imports, client_piece_fn(ClientPiece::ServerAssignment, role.name))
        + "    }\n"@ + (if ws && !role.types.contains("browser"@) {
        connection_text(browser_roles)
    } else {
        ""@
    }) + "\n}"@;
    assert(callback_client_text(imports, role, browser_roles, library_source) =~= a + b + c);
    lemma_has_part_self(b);
    lemma_has_part_within(a, b, c, b);
}

} // verus!
