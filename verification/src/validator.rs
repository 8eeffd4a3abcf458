use vstd::prelude::*;

use crate::config::{role_views, Role, RoleView};
use crate::parser::custom_type::{field_views, CustomType, CustomTypeView, Field, FieldView};
use crate::parser::endpoint::{parameter_views, Endpoint, EndpointView, ParameterView};
use crate::parser::field_type::{enum_views, text, EnumType, EnumTypeView, Type, TypeView};
use crate::parser::parse::{custom_type_views, endpoint_views};
use crate::position::Range;

verus! {

/// A logical error in a source, with the stretch of code it concerns.
#[derive(Debug)]
pub struct ValidationError {
    pub range: Range,
    pub message: String,
}

pub struct ValidationErrorView {
    pub range: Range,
    pub message: Seq<char>,
}

impl View for ValidationError {
    type V = ValidationErrorView;

    open spec fn view(&self) -> ValidationErrorView {
        ValidationErrorView { range: self.range, message: self.message@ }
    }
}

pub open spec fn validation_error_views(es: Seq<ValidationError>) -> Seq<ValidationErrorView> {
    es.map_values(|e: ValidationError| e@)
}

/// A type that a definition refers to, and the range of that definition.
pub type Requirement = (Seq<char>, Range);

pub open spec fn requirement_views(rs: Seq<(String, Range)>) -> Seq<Requirement> {
    rs.map_values(|r: (String, Range)| (r.0@, r.1))
}

/// The custom types that the fields refer to directly.
pub open spec fn field_requirements(fields: Seq<FieldView>, range: Range) -> Seq<Requirement>
    decreases fields.len(),
{
    if fields.len() == 0 {
        Seq::empty()
    } else {
        let rest = field_requirements(fields.drop_last(), range);
        match fields.last().field_type {
            TypeView::Custom(c) => rest.push((c.identifier, range)),
            _ => rest,
        }
    }
}

/// The custom types that the fields of the custom types refer to directly.
pub open spec fn type_requirements(custom_types: Seq<CustomTypeView>) -> Seq<Requirement>
    decreases custom_types.len(),
{
    if custom_types.len() == 0 {
        Seq::empty()
    } else {
        type_requirements(custom_types.drop_last()) + field_requirements(
            custom_types.last().fields,
            custom_types.last().range,
        )
    }
}

/// The custom types among the alternatives of an enum.
pub open spec fn enum_requirements(values: Seq<EnumTypeView>, range: Range) -> Seq<Requirement>
    decreases values.len(),
{
    if values.len() == 0 {
        Seq::empty()
    } else {
        let rest = enum_requirements(values.drop_last(), range);
        match values.last() {
            EnumTypeView::Custom(c) => rest.push((c.identifier, range)),
            _ => rest,
        }
    }
}

/// The custom types that a parameter or return type refers to.
pub open spec fn type_view_requirements(t: TypeView, range: Range) -> Seq<Requirement> {
    match t {
        TypeView::Custom(c) => seq![(c.identifier, range)],
        TypeView::Enum(values) => enum_requirements(values, range),
        TypeView::Primitive(_) => Seq::empty(),
    }
}

pub open spec fn parameter_requirements(parameters: Seq<ParameterView>, range: Range) -> Seq<
    Requirement,
>
    decreases parameters.len(),
{
    if parameters.len() == 0 {
        Seq::empty()
    } else {
        parameter_requirements(parameters.drop_last(), range) + type_view_requirements(
            parameters.last().parameter_type,
            range,
        )
    }
}

/// The custom types that an endpoint's parameters and return type refer to.
pub open spec fn endpoint_requirements(endpoint: EndpointView) -> Seq<Requirement> {
    parameter_requirements(endpoint.parameters, endpoint.range) + match endpoint.return_type {
        Some(t) => type_view_requirements(t, endpoint.range),
        None => Seq::empty(),
    }
}

pub open spec fn endpoints_requirements(endpoints: Seq<EndpointView>) -> Seq<Requirement>
    decreases endpoints.len(),
{
    if endpoints.len() == 0 {
        Seq::empty()
    } else {
        endpoints_requirements(endpoints.drop_last()) + endpoint_requirements(endpoints.last())
    }
}

pub open spec fn role_names(roles: Seq<RoleView>) -> Seq<Seq<char>> {
    roles.map_values(|r: RoleView| r.name)
}

pub open spec fn type_names(custom_types: Seq<CustomTypeView>) -> Seq<Seq<char>> {
    custom_types.map_values(|c: CustomTypeView| c.identifier)
}

pub open spec fn role_message(role: Seq<char>, identifier: Seq<char>) -> Seq<char> {
    "Role "@ + role + " of endpoint "@ + identifier + " is not configured in the roles.json"@
}

pub open spec fn unknown_type_message(name: Seq<char>) -> Seq<char> {
    "Type "@ + name + " is unknown"@
}

pub open spec fn duplicate_type_message(name: Seq<char>) -> Seq<char> {
    "Type "@ + name + " is already defined"@
}

pub open spec fn duplicate_endpoint_message(role: Seq<char>, identifier: Seq<char>) -> Seq<char> {
    "Endpoint "@ + role + " "@ + identifier + " is already defined"@
}

pub open spec fn duplicate_field_message(name: Seq<char>) -> Seq<char> {
    "Field "@ + name + " is defined multiple times"@
}

/// An error for each endpoint whose role is not configured.
pub open spec fn role_errors(endpoints: Seq<EndpointView>, roles: Seq<RoleView>) -> Seq<
    ValidationErrorView,
>
    decreases endpoints.len(),
{
    if endpoints.len() == 0 {
        Seq::empty()
    } else {
        let rest = role_errors(endpoints.drop_last(), roles);
        let e = endpoints.last();
        if role_names(roles).contains(e.role) {
            rest
        } else {
            rest.push(ValidationErrorView { range: e.range, message: role_message(e.role, e.identifier) })
        }
    }
}

/// An error for each required type that no custom type defines.
pub open spec fn unknown_type_errors(required: Seq<Requirement>, custom_types: Seq<CustomTypeView>) -> Seq<
    ValidationErrorView,
>
    decreases required.len(),
{
    if required.len() == 0 {
        Seq::empty()
    } else {
        let rest = unknown_type_errors(required.drop_last(), custom_types);
        let r = required.last();
        if type_names(custom_types).contains(r.0) {
            rest
        } else {
            rest.push(ValidationErrorView { range: r.1, message: unknown_type_message(r.0) })
        }
    }
}

/// An error for each custom type whose name an earlier one has.
pub open spec fn duplicate_type_errors(custom_types: Seq<CustomTypeView>) -> Seq<ValidationErrorView>
    decreases custom_types.len(),
{
    if custom_types.len() == 0 {
        Seq::empty()
    } else {
        let rest = duplicate_type_errors(custom_types.drop_last());
        let c = custom_types.last();
        if type_names(custom_types.drop_last()).contains(c.identifier) {
            rest.push(ValidationErrorView { range: c.range, message: duplicate_type_message(c.identifier) })
        } else {
            rest
        }
    }
}

pub open spec fn endpoint_keys(endpoints: Seq<EndpointView>) -> Seq<(Seq<char>, Seq<char>)> {
    endpoints.map_values(|e: EndpointView| (e.role, e.identifier))
}

/// An error for each endpoint whose role and identifier an earlier one has.
pub open spec fn duplicate_endpoint_errors(endpoints: Seq<EndpointView>) -> Seq<ValidationErrorView>
    decreases endpoints.len(),
{
    if endpoints.len() == 0 {
        Seq::empty()
    } else {
        let rest = duplicate_endpoint_errors(endpoints.drop_last());
        let e = endpoints.last();
        if endpoint_keys(endpoints.drop_last()).contains((e.role, e.identifier)) {
            rest.push(
                ValidationErrorView {
                    range: e.range,
                    message: duplicate_endpoint_message(e.role, e.identifier),
                },
            )
        } else {
            rest
        }
    }
}

pub open spec fn field_names(fields: Seq<FieldView>) -> Seq<Seq<char>> {
    fields.map_values(|f: FieldView| f.identifier)
}

/// Field `k` is the first of several with its name.
pub open spec fn first_of_duplicates(fields: Seq<FieldView>, k: int) -> bool {
    &&& !field_names(fields.take(k)).contains(fields[k].identifier)
    &&& field_names(fields.skip(k + 1)).contains(fields[k].identifier)
}

/// For the first `k` fields: an error at each field that is the first of several
/// with its name.
pub open spec fn duplicate_field_errors_upto(fields: Seq<FieldView>, k: nat, range: Range) -> Seq<
    ValidationErrorView,
>
    decreases k,
{
    if k == 0 {
        Seq::empty()
    } else {
        let rest = duplicate_field_errors_upto(fields, (k - 1) as nat, range);
        if first_of_duplicates(fields, k - 1) {
            rest.push(
                ValidationErrorView {
                    range,
                    message: duplicate_field_message(fields[k - 1].identifier),
                },
            )
        } else {
            rest
        }
    }
}

/// An error for each field name that occurs more than once in a custom type.
pub open spec fn duplicate_field_errors(custom_types: Seq<CustomTypeView>) -> Seq<ValidationErrorView>
    decreases custom_types.len(),
{
    if custom_types.len() == 0 {
        Seq::empty()
    } else {
        let c = custom_types.last();
        duplicate_field_errors(custom_types.drop_last()) + duplicate_field_errors_upto(
            c.fields,
            c.fields.len(),
            c.range,
        )
    }
}

/// `validate`: roles that are not configured, types that are unknown, custom
/// types and endpoints that are defined twice, and fields that are defined
/// twice, in this order.
pub open spec fn spec_validate(
    endpoints: Seq<EndpointView>,
    custom_types: Seq<CustomTypeView>,
    roles: Seq<RoleView>,
) -> Seq<ValidationErrorView> {
    let required = type_requirements(custom_types) + endpoints_requirements(endpoints);
    role_errors(endpoints, roles) + unknown_type_errors(required, custom_types)
        + duplicate_type_errors(custom_types) + duplicate_endpoint_errors(endpoints)
        + duplicate_field_errors(custom_types)
}

fn role_message_exec(role: &String, identifier: &String) -> (res: String)
    ensures
        res@ == role_message(role@, identifier@),
{
    let mut m = text("Role ");
    m.append(role.as_str());
    m.append(" of endpoint ");
    m.append(identifier.as_str());
    m.append(" is not configured in the roles.json");
    m
}

fn unknown_type_message_exec(name: &String) -> (res: String)
    ensures
        res@ == unknown_type_message(name@),
{
    let mut m = text("Type ");
    m.append(name.as_str());
    m.append(" is unknown");
    m
}

fn duplicate_type_message_exec(name: &String) -> (res: String)
    ensures
        res@ == duplicate_type_message(name@),
{
    let mut m = text("Type ");
    m.append(name.as_str());
    m.append(" is already defined");
    m
}

fn duplicate_endpoint_message_exec(role: &String, identifier: &String) -> (res: String)
    ensures
        res@ == duplicate_endpoint_message(role@, identifier@),
{
    let mut m = text("Endpoint ");
    m.append(role.as_str());
    m.append(" ");
    m.append(identifier.as_str());
    m.append(" is already defined");
    m
}

fn duplicate_field_message_exec(name: &String) -> (res: String)
    ensures
        res@ == duplicate_field_message(name@),
{
    let mut m = text("Field ");
    m.append(name.as_str());
    m.append(" is defined multiple times");
    m
}

/// Whether a role named `name` is configured.
fn role_configured(roles: &Vec<Role>, name: &String) -> (res: bool)
    ensures
        res == role_names(role_views(roles@)).contains(name@),
{
    let ghost names = role_names(role_views(roles@));
    let mut i: usize = 0;
    while i < roles.len()
        invariant
            i <= roles.len(),
            names == role_names(role_views(roles@)),
            names.len() == roles.len(),
            forall|j: int| 0 <= j < i ==> names[j] != name@,
        decreases roles.len() - i,
    {
        assert(names[i as int] == roles@[i as int].name@);
        if roles[i].name == *name {
            return true;
        }
        i = i + 1;
    }
    false
}

/// Whether one of the first `upto` custom types is named `name`.
fn type_defined(custom_types: &Vec<CustomType>, upto: usize, name: &String) -> (res: bool)
    requires
        upto <= custom_types.len(),
    ensures
        res == type_names(custom_type_views(custom_types@).take(upto as int)).contains(name@),
{
    let ghost names = type_names(custom_type_views(custom_types@).take(upto as int));
    let mut i: usize = 0;
    while i < upto
        invariant
            i <= upto <= custom_types.len(),
            names == type_names(custom_type_views(custom_types@).take(upto as int)),
            names.len() == upto,
            forall|j: int| 0 <= j < i ==> names[j] != name@,
        decreases upto - i,
    {
        assert(names[i as int] == custom_types@[i as int].identifier@);
        if custom_types[i].identifier == *name {
            return true;
        }
        i = i + 1;
    }
    false
}

/// Whether one of the first `upto` endpoints has this role and identifier.
fn endpoint_defined(endpoints: &Vec<Endpoint>, upto: usize, role: &String, identifier: &String) -> (res:
    bool)
    requires
        upto <= endpoints.len(),
    ensures
        res == endpoint_keys(endpoint_views(endpoints@).take(upto as int)).contains(
            (role@, identifier@),
        ),
{
    let ghost keys = endpoint_keys(endpoint_views(endpoints@).take(upto as int));
    let mut i: usize = 0;
    while i < upto
        invariant
            i <= upto <= endpoints.len(),
            keys == endpoint_keys(endpoint_views(endpoints@).take(upto as int)),
            keys.len() == upto,
            forall|j: int| 0 <= j < i ==> keys[j] != (role@, identifier@),
        decreases upto - i,
    {
        assert(keys[i as int] == (endpoints@[i as int].role@, endpoints@[i as int].identifier@));
        if endpoints[i].role == *role && endpoints[i].identifier == *identifier {
            return true;
        }
        i = i + 1;
    }
    false
}

/// Whether one of the fields from `from` to `to` is named `name`.
fn field_named(fields: &Vec<Field>, from: usize, to: usize, name: &String) -> (res: bool)
    requires
        from <= to <= fields.len(),
    ensures
        res == field_names(field_views(fields@).subrange(from as int, to as int)).contains(name@),
{
    let ghost names = field_names(field_views(fields@).subrange(from as int, to as int));
    let mut i: usize = from;
    while i < to
        invariant
            from <= i <= to <= fields.len(),
            names == field_names(field_views(fields@).subrange(from as int, to as int)),
            names.len() == to - from,
            forall|j: int| 0 <= j < i - from ==> names[j] != name@,
        decreases to - i,
    {
        assert(names[i - from] == fields@[i as int].identifier@);
        if fields[i].identifier == *name {
            return true;
        }
        i = i + 1;
    }
    false
}

fn push_field_requirements(fields: &Vec<Field>, range: Range, required: &mut Vec<(String, Range)>)
    ensures
        requirement_views(final(required)@) == requirement_views(old(required)@)
            + field_requirements(field_views(fields@), range),
{
    let ghost start = requirement_views(required@);
    let ghost views = field_views(fields@);
    let mut i: usize = 0;
    while i < fields.len()
        invariant
            i <= fields.len(),
            views == field_views(fields@),
            views.len() == fields.len(),
            requirement_views(required@) == start + field_requirements(views.take(i as int), range),
        decreases fields.len() - i,
    {
        assert(views.take(i + 1).drop_last() =~= views.take(i as int));
        assert(views.take(i + 1).last() == fields@[i as int]@);
        match &fields[i].field_type {
            Type::Custom(c) => {
                let ghost before = required@;
                required.push((c.identifier.clone(), range));
                assert(requirement_views(required@) =~= requirement_views(before).push(
                    (c.identifier@, range),
                ));
            },
            _ => {},
        }
        i = i + 1;
    }
    assert(views.take(i as int) =~= views);
}

fn push_enum_requirements(values: &Vec<EnumType>, range: Range, required: &mut Vec<(String, Range)>)
    ensures
        requirement_views(final(required)@) == requirement_views(old(required)@)
            + enum_requirements(enum_views(values@), range),
{
    let ghost start = requirement_views(required@);
    let ghost views = enum_views(values@);
    let mut i: usize = 0;
    while i < values.len()
        invariant
            i <= values.len(),
            views == enum_views(values@),
            views.len() == values.len(),
            requirement_views(required@) == start + enum_requirements(views.take(i as int), range),
        decreases values.len() - i,
    {
        assert(views.take(i + 1).drop_last() =~= views.take(i as int));
        assert(views.take(i + 1).last() == values@[i as int]@);
        match &values[i] {
            EnumType::Custom(c) => {
                let ghost before = required@;
                required.push((c.identifier.clone(), range));
                assert(requirement_views(required@) =~= requirement_views(before).push(
                    (c.identifier@, range),
                ));
            },
            _ => {},
        }
        i = i + 1;
    }
    assert(views.take(i as int) =~= views);
}

fn push_type_requirements(t: &Type, range: Range, required: &mut Vec<(String, Range)>)
    ensures
        requirement_views(final(required)@) == requirement_views(old(required)@)
            + type_view_requirements(t@, range),
{
    let ghost before = required@;
    match t {
        Type::Custom(c) => {
            required.push((c.identifier.clone(), range));
            assert(requirement_views(required@) =~= requirement_views(before) + seq![
                (c.identifier@, range),
            ]);
        },
        Type::Enum(e) => {
            push_enum_requirements(&e.values, range, required);
        },
        Type::Primitive(_) => {
            assert(requirement_views(required@) =~= requirement_views(before) + Seq::<
                Requirement,
            >::empty());
        },
    }
}

fn push_endpoint_requirements(endpoint: &Endpoint, required: &mut Vec<(String, Range)>)
    ensures
        requirement_views(final(required)@) == requirement_views(old(required)@)
            + endpoint_requirements(endpoint@),
{
    let ghost start = requirement_views(required@);
    let ghost views = parameter_views(endpoint.parameters@);
    let mut i: usize = 0;
    while i < endpoint.parameters.len()
        invariant
            i <= endpoint.parameters.len(),
            views == parameter_views(endpoint.parameters@),
            views.len() == endpoint.parameters.len(),
            requirement_views(required@) == start + parameter_requirements(
                views.take(i as int),
                endpoint.range,
            ),
        decreases endpoint.parameters.len() - i,
    {
        assert(views.take(i + 1).drop_last() =~= views.take(i as int));
        assert(views.take(i + 1).last() == endpoint.parameters@[i as int]@);
        let ghost before = requirement_views(required@);
        push_type_requirements(&endpoint.parameters[i].parameter_type, endpoint.range, required);
        assert(requirement_views(required@) =~= start + parameter_requirements(
            views.take(i + 1),
            endpoint.range,
        ));
        i = i + 1;
    }
    assert(views.take(i as int) =~= views);
    let ghost middle = requirement_views(required@);
    match &endpoint.return_type {
        Some(t) => {
            push_type_requirements(t, endpoint.range, required);
        },
        None => {},
    }
    assert(requirement_views(required@) =~= start + endpoint_requirements(endpoint@));
}

fn push_error(errors: &mut Vec<ValidationError>, range: Range, message: String)
    ensures
        validation_error_views(final(errors)@) == validation_error_views(old(errors)@).push(
            ValidationErrorView { range, message: message@ },
        ),
{
    let ghost before = errors@;
    errors.push(ValidationError { range, message });
    assert(validation_error_views(errors@) =~= validation_error_views(before).push(
        ValidationErrorView { range, message: errors@.last().message@ },
    ));
}

fn add_role_errors(endpoints: &Vec<Endpoint>, roles: &Vec<Role>, errors: &mut Vec<ValidationError>)
    ensures
        validation_error_views(final(errors)@) == validation_error_views(old(errors)@) + role_errors(
            endpoint_views(endpoints@),
            role_views(roles@),
        ),
{
    let ghost start = validation_error_views(errors@);
    let ghost eps = endpoint_views(endpoints@);
    let mut i: usize = 0;
    while i < endpoints.len()
        invariant
            i <= endpoints.len(),
            eps == endpoint_views(endpoints@),
            eps.len() == endpoints.len(),
            validation_error_views(errors@) == start + role_errors(eps.take(i as int), role_views(roles@)),
        decreases endpoints.len() - i,
    {
        assert(eps.take(i + 1).drop_last() =~= eps.take(i as int));
        assert(eps.take(i + 1).last() == endpoints@[i as int]@);
        let endpoint = &endpoints[i];
        if !role_configured(roles, &endpoint.role) {
            let message = role_message_exec(&endpoint.role, &endpoint.identifier);
            push_error(errors, endpoint.range, message);
        }
        i = i + 1;
    }
    assert(eps.take(i as int) =~= eps);
}

/// The types that the custom types and the endpoints refer to, with the range of
/// the definition that refers to them.
fn collect_requirements(endpoints: &Vec<Endpoint>, custom_types: &Vec<CustomType>) -> (res: Vec<
    (String, Range),
>)
    ensures
        requirement_views(res@) == type_requirements(custom_type_views(custom_types@))
            + endpoints_requirements(endpoint_views(endpoints@)),
{
    let mut required: Vec<(String, Range)> = Vec::new();
    let ghost cts = custom_type_views(custom_types@);
    let ghost eps = endpoint_views(endpoints@);
    assert(requirement_views(required@) =~= type_requirements(cts.take(0)));
    let mut i: usize = 0;
    while i < custom_types.len()
        invariant
            i <= custom_types.len(),
            cts == custom_type_views(custom_types@),
            cts.len() == custom_types.len(),
            requirement_views(required@) == type_requirements(cts.take(i as int)),
        decreases custom_types.len() - i,
    {
        assert(cts.take(i + 1).drop_last() =~= cts.take(i as int));
        assert(cts.take(i + 1).last() == custom_types@[i as int]@);
        push_field_requirements(&custom_types[i].fields, custom_types[i].range, &mut required);
        i = i + 1;
    }
    assert(cts.take(i as int) =~= cts);
    assert(requirement_views(required@) =~= type_requirements(cts) + endpoints_requirements(
        eps.take(0),
    ));
    let mut i: usize = 0;
    while i < endpoints.len()
        invariant
            i <= endpoints.len(),
            cts == custom_type_views(custom_types@),
            eps == endpoint_views(endpoints@),
            eps.len() == endpoints.len(),
            requirement_views(required@) == type_requirements(cts) + endpoints_requirements(
                eps.take(i as int),
            ),
        decreases endpoints.len() - i,
    {
        assert(eps.take(i + 1).drop_last() =~= eps.take(i as int));
        assert(eps.take(i + 1).last() == endpoints@[i as int]@);
        push_endpoint_requirements(&endpoints[i], &mut required);
        assert(requirement_views(required@) =~= type_requirements(cts) + endpoints_requirements(
            eps.take(i + 1),
        ));
        i = i + 1;
    }
    assert(eps.take(i as int) =~= eps);
    required
}

fn add_unknown_type_errors(
    required: &Vec<(String, Range)>,
    custom_types: &Vec<CustomType>,
    errors: &mut Vec<ValidationError>,
)
    ensures
        validation_error_views(final(errors)@) == validation_error_views(old(errors)@)
            + unknown_type_errors(requirement_views(required@), custom_type_views(custom_types@)),
{
    let ghost start = validation_error_views(errors@);
    let ghost rs = requirement_views(required@);
    let ghost cts = custom_type_views(custom_types@);
    let mut i: usize = 0;
    while i < required.len()
        invariant
            i <= required.len(),
            rs == requirement_views(required@),
            rs.len() == required.len(),
            cts == custom_type_views(custom_types@),
            validation_error_views(errors@) == start + unknown_type_errors(rs.take(i as int), cts),
        decreases required.len() - i,
    {
        assert(rs.take(i + 1).drop_last() =~= rs.take(i as int));
        assert(rs.take(i + 1).last() == (required@[i as int].0@, required@[i as int].1));
        let (name, range) = &required[i];
        assert(cts.take(custom_types.len() as int) =~= cts);
        if !type_defined(custom_types, custom_types.len(), name) {
            let message = unknown_type_message_exec(name);
            push_error(errors, *range, message);
        }
        i = i + 1;
    }
    assert(rs.take(i as int) =~= rs);
}

fn add_duplicate_type_errors(custom_types: &Vec<CustomType>, errors: &mut Vec<ValidationError>)
    ensures
        validation_error_views(final(errors)@) == validation_error_views(old(errors)@)
            + duplicate_type_errors(custom_type_views(custom_types@)),
{
    let ghost start = validation_error_views(errors@);
    let ghost cts = custom_type_views(custom_types@);
    let mut i: usize = 0;
    while i < custom_types.len()
        invariant
            i <= custom_types.len(),
            cts == custom_type_views(custom_types@),
            cts.len() == custom_types.len(),
            validation_error_views(errors@) == start + duplicate_type_errors(cts.take(i as int)),
        decreases custom_types.len() - i,
    {
        assert(cts.take(i + 1).drop_last() =~= cts.take(i as int));
        assert(cts.take(i + 1).last() == custom_types@[i as int]@);
        let custom_type = &custom_types[i];
        if type_defined(custom_types, i, &custom_type.identifier) {
            let message = duplicate_type_message_exec(&custom_type.identifier);
            push_error(errors, custom_type.range, message);
        }
        i = i + 1;
    }
    assert(cts.take(i as int) =~= cts);
}

fn add_duplicate_endpoint_errors(endpoints: &Vec<Endpoint>, errors: &mut Vec<ValidationError>)
    ensures
        validation_error_views(final(errors)@) == validation_error_views(old(errors)@)
            + duplicate_endpoint_errors(endpoint_views(endpoints@)),
{
    let ghost start = validation_error_views(errors@);
    let ghost eps = endpoint_views(endpoints@);
    let mut i: usize = 0;
    while i < endpoints.len()
        invariant
            i <= endpoints.len(),
            eps == endpoint_views(endpoints@),
            eps.len() == endpoints.len(),
            validation_error_views(errors@) == start + duplicate_endpoint_errors(eps.take(i as int)),
        decreases endpoints.len() - i,
    {
        assert(eps.take(i + 1).drop_last() =~= eps.take(i as int));
        assert(eps.take(i + 1).last() == endpoints@[i as int]@);
        let endpoint = &endpoints[i];
        if endpoint_defined(endpoints, i, &endpoint.role, &endpoint.identifier) {
            let message = duplicate_endpoint_message_exec(&endpoint.role, &endpoint.identifier);
            push_error(errors, endpoint.range, message);
        }
        i = i + 1;
    }
    assert(eps.take(i as int) =~= eps);
}

fn add_duplicate_field_errors_of(fields: &Vec<Field>, range: Range, errors: &mut Vec<ValidationError>)
    ensures
        validation_error_views(final(errors)@) == validation_error_views(old(errors)@)
            + duplicate_field_errors_upto(field_views(fields@), fields.len() as nat, range),
{
    let ghost start = validation_error_views(errors@);
    let ghost fs = field_views(fields@);
    let mut k: usize = 0;
    while k < fields.len()
        invariant
            k <= fields.len(),
            fs == field_views(fields@),
            fs.len() == fields.len(),
            validation_error_views(errors@) == start + duplicate_field_errors_upto(fs, k as nat, range),
        decreases fields.len() - k,
    {
        let name = &fields[k].identifier;
        assert(fs[k as int].identifier == name@);
        assert(fs.subrange(0, k as int) =~= fs.take(k as int));
        assert(fs.subrange(k + 1, fields.len() as int) =~= fs.skip(k + 1));
        if !field_named(fields, 0, k, name) && field_named(fields, k + 1, fields.len(), name) {
            let message = duplicate_field_message_exec(name);
            push_error(errors, range, message);
        }
        k = k + 1;
    }
}

fn add_duplicate_field_errors(custom_types: &Vec<CustomType>, errors: &mut Vec<ValidationError>)
    ensures
        validation_error_views(final(errors)@) == validation_error_views(old(errors)@)
            + duplicate_field_errors(custom_type_views(custom_types@)),
{
    let ghost start = validation_error_views(errors@);
    let ghost cts = custom_type_views(custom_types@);
    let mut i: usize = 0;
    while i < custom_types.len()
        invariant
            i <= custom_types.len(),
            cts == custom_type_views(custom_types@),
            cts.len() == custom_types.len(),
            validation_error_views(errors@) == start + duplicate_field_errors(cts.take(i as int)),
        decreases custom_types.len() - i,
    {
        assert(cts.take(i + 1).drop_last() =~= cts.take(i as int));
        assert(cts.take(i + 1).last() == custom_types@[i as int]@);
        let ghost before = validation_error_views(errors@);
        add_duplicate_field_errors_of(&custom_types[i].fields, custom_types[i].range, errors);
        assert(validation_error_views(errors@) =~= start + duplicate_field_errors(
            cts.take(i + 1),
        ));
        i = i + 1;
    }
    assert(cts.take(i as int) =~= cts);
}

/// Checks the definitions of a source for logical errors: endpoints of roles that
/// are not configured, references to unknown types, types and endpoints that are
/// defined twice, and fields that are defined twice.
pub fn validate(endpoints: &Vec<Endpoint>, custom_types: &Vec<CustomType>, roles: &Vec<Role>) -> (res:
    Vec<ValidationError>)
    ensures
        validation_error_views(res@) == spec_validate(
            endpoint_views(endpoints@),
            custom_type_views(custom_types@),
            role_views(roles@),
        ),
{
    let mut errors: Vec<ValidationError> = Vec::new();
    assert(validation_error_views(errors@) =~= Seq::<ValidationErrorView>::empty());
    let required = collect_requirements(endpoints, custom_types);
    add_role_errors(endpoints, roles, &mut errors);
    add_unknown_type_errors(&required, custom_types, &mut errors);
    add_duplicate_type_errors(custom_types, &mut errors);
    add_duplicate_endpoint_errors(endpoints, &mut errors);
    add_duplicate_field_errors(custom_types, &mut errors);
    errors
}

/// A source whose definitions have none of the problems that validation reports.
pub open spec fn consistent(
    endpoints: Seq<EndpointView>,
    custom_types: Seq<CustomTypeView>,
    roles: Seq<RoleView>,
) -> bool {
    &&& forall|i: int| 0 <= i < endpoints.len() ==> role_names(roles).contains(#[trigger] endpoints[i].role)
    &&& forall|i: int| 0 <= i < (type_requirements(custom_types) + endpoints_requirements(endpoints)).len()
        ==> type_names(custom_types).contains(
        #[trigger] (type_requirements(custom_types) + endpoints_requirements(endpoints))[i].0,
    )
    &&& forall|i: int, j: int| 0 <= i < j < custom_types.len() ==> #[trigger] custom_types[i].identifier
        != #[trigger] custom_types[j].identifier
    &&& forall|i: int, j: int| 0 <= i < j < endpoints.len() ==> (#[trigger] endpoints[i].role, endpoints[i].identifier)
        != (#[trigger] endpoints[j].role, endpoints[j].identifier)
    &&& forall|t: int, k: int, l: int| 0 <= t < custom_types.len() && 0 <= k < l < custom_types[t].fields.len()
        ==> #[trigger] custom_types[t].fields[k].identifier != #[trigger] custom_types[t].fields[l].identifier
}

proof fn lemma_role_errors_empty(endpoints: Seq<EndpointView>, roles: Seq<RoleView>)
    ensures
        role_errors(endpoints, roles).len() == 0 <==> forall|i: int| 0 <= i < endpoints.len() ==> role_names(
            roles,
        ).contains(#[trigger] endpoints[i].role),
    decreases endpoints.len(),
{
    if endpoints.len() > 0 {
        let rest = endpoints.drop_last();
        lemma_role_errors_empty(rest, roles);
        if role_errors(endpoints, roles).len() == 0 {
            assert forall|i: int| 0 <= i < endpoints.len() implies role_names(roles).contains(
                #[trigger] endpoints[i].role,
            ) by {
                if i < endpoints.len() - 1 {
                    assert(endpoints[i] == rest[i]);
                }
            }
        }
        if forall|i: int| 0 <= i < endpoints.len() ==> role_names(roles).contains(#[trigger] endpoints[i].role) {
            assert forall|i: int| 0 <= i < rest.len() implies role_names(roles).contains(
                #[trigger] rest[i].role,
            ) by {
                assert(endpoints[i] == rest[i]);
            }
            assert(role_names(roles).contains(endpoints[endpoints.len() - 1].role));
        }
    }
}

proof fn lemma_unknown_type_errors_empty(required: Seq<Requirement>, custom_types: Seq<CustomTypeView>)
    ensures
        unknown_type_errors(required, custom_types).len() == 0 <==> forall|i: int| 0 <= i < required.len()
            ==> type_names(custom_types).contains(#[trigger] required[i].0),
    decreases required.len(),
{
    if required.len() > 0 {
        let rest = required.drop_last();
        lemma_unknown_type_errors_empty(rest, custom_types);
        if unknown_type_errors(required, custom_types).len() == 0 {
            assert forall|i: int| 0 <= i < required.len() implies type_names(custom_types).contains(
                #[trigger] required[i].0,
            ) by {
                if i < required.len() - 1 {
                    assert(rest[i] == required[i]);
                }
            }
        }
        if forall|i: int| 0 <= i < required.len() ==> type_names(custom_types).contains(#[trigger] required[i].0) {
            assert forall|i: int| 0 <= i < rest.len() implies type_names(custom_types).contains(
                #[trigger] rest[i].0,
            ) by {
                assert(rest[i] == required[i]);
            }
            assert(type_names(custom_types).contains(required[required.len() - 1].0));
        }
    }
}

proof fn lemma_duplicate_type_errors_empty(custom_types: Seq<CustomTypeView>)
    ensures
        duplicate_type_errors(custom_types).len() == 0 <==> forall|i: int, j: int| 0 <= i < j < custom_types.len()
            ==> #[trigger] custom_types[i].identifier != #[trigger] custom_types[j].identifier,
    decreases custom_types.len(),
{
    if custom_types.len() > 0 {
        let rest = custom_types.drop_last();
        let n = custom_types.len() - 1;
        lemma_duplicate_type_errors_empty(rest);
        if duplicate_type_errors(custom_types).len() == 0 {
            assert forall|i: int, j: int| 0 <= i < j < custom_types.len() implies #[trigger] custom_types[i].identifier
                != #[trigger] custom_types[j].identifier by {
                if j < n {
                    assert(custom_types[i] == rest[i] && custom_types[j] == rest[j]);
                } else {
                    assert(type_names(rest)[i] == custom_types[i].identifier);
                }
            }
        }
        if forall|i: int, j: int| 0 <= i < j < custom_types.len() ==> #[trigger] custom_types[i].identifier
            != #[trigger] custom_types[j].identifier {
            assert forall|i: int, j: int| 0 <= i < j < rest.len() implies #[trigger] rest[i].identifier
                != #[trigger] rest[j].identifier by {
                assert(custom_types[i] == rest[i] && custom_types[j] == rest[j]);
            }
            if type_names(rest).contains(custom_types[n].identifier) {
                let names = type_names(rest);
                let i = choose|i: int| 0 <= i < names.len() && #[trigger] names[i] == custom_types[n].identifier;
                assert(custom_types[i].identifier != custom_types[n].identifier);
            }
        }
    }
}

proof fn lemma_duplicate_endpoint_errors_empty(endpoints: Seq<EndpointView>)
    ensures
        duplicate_endpoint_errors(endpoints).len() == 0 <==> forall|i: int, j: int| 0 <= i < j < endpoints.len()
            ==> (#[trigger] endpoints[i].role, endpoints[i].identifier) != (
            #[trigger] endpoints[j].role,
            endpoints[j].identifier,
        ),
    decreases endpoints.len(),
{
    if endpoints.len() > 0 {
        let rest = endpoints.drop_last();
        let n = endpoints.len() - 1;
        lemma_duplicate_endpoint_errors_empty(rest);
        if duplicate_endpoint_errors(endpoints).len() == 0 {
            assert forall|i: int, j: int| 0 <= i < j < endpoints.len() implies (
            #[trigger] endpoints[i].role,
            endpoints[i].identifier,
            ) != (#[trigger] endpoints[j].role, endpoints[j].identifier) by {
                if j < n {
                    assert(endpoints[i] == rest[i] && endpoints[j] == rest[j]);
                } else {
                    assert(endpoint_keys(rest)[i] == (endpoints[i].role, endpoints[i].identifier));
                }
            }
        }
        if forall|i: int, j: int| 0 <= i < j < endpoints.len() ==> (
        #[trigger] endpoints[i].role,
        endpoints[i].identifier,
        ) != (#[trigger] endpoints[j].role, endpoints[j].identifier) {
            assert forall|i: int, j: int| 0 <= i < j < rest.len() implies (
            #[trigger] rest[i].role,
            rest[i].identifier,
            ) != (#[trigger] rest[j].role, rest[j].identifier) by {
                assert(endpoints[i] == rest[i] && endpoints[j] == rest[j]);
            }
            let key = (endpoints[n].role, endpoints[n].identifier);
            if endpoint_keys(rest).contains(key) {
                let keys = endpoint_keys(rest);
                let i = choose|i: int| 0 <= i < keys.len() && #[trigger] keys[i] == key;
                assert((endpoints[i].role, endpoints[i].identifier) != key);
            }
        }
    }
}

proof fn lemma_duplicate_field_errors_upto_empty(fields: Seq<FieldView>, k: nat, range: Range)
    requires
        k <= fields.len(),
    ensures
        duplicate_field_errors_upto(fields, k, range).len() == 0 <==> forall|m: int| 0 <= m < k
            ==> !first_of_duplicates(fields, m),
    decreases k,
{
    if k > 0 {
        lemma_duplicate_field_errors_upto_empty(fields, (k - 1) as nat, range);
    }
}

/// Some field before `l` has the name of field `l`, and the first such field is
/// the first of several with that name.
proof fn lemma_first_of_duplicates_exists(fields: Seq<FieldView>, k: int, l: int)
    requires
        0 <= k < l < fields.len(),
        fields[k].identifier == fields[l].identifier,
    ensures
        exists|m: int| 0 <= m <= k && first_of_duplicates(fields, m),
    decreases k,
{
    let name = fields[k].identifier;
    if field_names(fields.take(k)).contains(name) {
        let earlier = field_names(fields.take(k));
        let m = choose|m: int| 0 <= m < earlier.len() && #[trigger] earlier[m] == name;
        assert(fields[m].identifier == name);
        lemma_first_of_duplicates_exists(fields, m, l);
    } else {
        assert(field_names(fields.skip(k + 1))[l - k - 1] == name);
        assert(first_of_duplicates(fields, k));
    }
}

proof fn lemma_field_errors_empty(fields: Seq<FieldView>, range: Range)
    ensures
        duplicate_field_errors_upto(fields, fields.len(), range).len() == 0 <==> forall|k: int, l: int|
            0 <= k < l < fields.len() ==> #[trigger] fields[k].identifier != #[trigger] fields[l].identifier,
{
    lemma_duplicate_field_errors_upto_empty(fields, fields.len(), range);
    if duplicate_field_errors_upto(fields, fields.len(), range).len() == 0 {
        assert forall|k: int, l: int| 0 <= k < l < fields.len() implies #[trigger] fields[k].identifier
            != #[trigger] fields[l].identifier by {
            if fields[k].identifier == fields[l].identifier {
                lemma_first_of_duplicates_exists(fields, k, l);
            }
        }
    } else {
        let m = choose|m: int| 0 <= m < fields.len() && first_of_duplicates(fields, m);
        let name = fields[m].identifier;
        let later = field_names(fields.skip(m + 1));
        let j = choose|j: int| 0 <= j < later.len() && #[trigger] later[j] == name;
        assert(fields[m + 1 + j].identifier == name);
    }
}

proof fn lemma_duplicate_field_errors_empty(custom_types: Seq<CustomTypeView>)
    ensures
        duplicate_field_errors(custom_types).len() == 0 <==> forall|t: int, k: int, l: int| 0 <= t
            < custom_types.len() && 0 <= k < l < custom_types[t].fields.len()
            ==> #[trigger] custom_types[t].fields[k].identifier
            != #[trigger] custom_types[t].fields[l].identifier,
    decreases custom_types.len(),
{
    if custom_types.len() > 0 {
        let rest = custom_types.drop_last();
        let n = custom_types.len() - 1;
        lemma_duplicate_field_errors_empty(rest);
        lemma_field_errors_empty(custom_types[n].fields, custom_types[n].range);
        if duplicate_field_errors(custom_types).len() == 0 {
            assert forall|t: int, k: int, l: int| 0 <= t < custom_types.len() && 0 <= k < l
                < custom_types[t].fields.len() implies #[trigger] custom_types[t].fields[k].identifier
                != #[trigger] custom_types[t].fields[l].identifier by {
                if t < n {
                    assert(custom_types[t] == rest[t]);
                }
            }
        }
        if forall|t: int, k: int, l: int| 0 <= t < custom_types.len() && 0 <= k < l
            < custom_types[t].fields.len() ==> #[trigger] custom_types[t].fields[k].identifier
            != #[trigger] custom_types[t].fields[l].identifier {
            assert forall|t: int, k: int, l: int| 0 <= t < rest.len() && 0 <= k < l < rest[t].fields.len()
                implies #[trigger] rest[t].fields[k].identifier != #[trigger] rest[t].fields[l].identifier by {
                assert(custom_types[t] == rest[t]);
            }
            assert forall|k: int, l: int| 0 <= k < l < custom_types[n].fields.len() implies #[trigger] custom_types[n].fields[k].identifier
                != #[trigger] custom_types[n].fields[l].identifier by {
                assert(custom_types[n].fields[k] == custom_types[n].fields[k]);
            }
        }
    }
}

/// Validation reports no error exactly for the consistent sources: every
/// endpoint's role is configured, every type that is referred to is defined, and
/// no custom type, endpoint (of one role) or field (of one type) is defined twice.
pub proof fn law_validate_accepts_exactly_consistent(
    endpoints: Seq<EndpointView>,
    custom_types: Seq<CustomTypeView>,
    roles: Seq<RoleView>,
)
    ensures
        spec_validate(endpoints, custom_types, roles).len() == 0 <==> consistent(
            endpoints,
            custom_types,
            roles,
        ),
{
    let required = type_requirements(custom_types) + endpoints_requirements(endpoints);
    lemma_role_errors_empty(endpoints, roles);
    lemma_unknown_type_errors_empty(required, custom_types);
    lemma_duplicate_type_errors_empty(custom_types);
    lemma_duplicate_endpoint_errors_empty(endpoints);
    lemma_duplicate_field_errors_empty(custom_types);
}

/// The type names the custom type `name` directly, whatever its array part.
pub open spec fn names_custom(t: TypeView, name: Seq<char>) -> bool {
    match t {
        TypeView::Custom(c) => c.identifier == name,
        _ => false,
    }
}

proof fn lemma_contains_left<A>(a: Seq<A>, b: Seq<A>, x: A)
    requires
        a.contains(x),
    ensures
        (a + b).contains(x),
{
    let i = choose|i: int| 0 <= i < a.len() && a[i] == x;
    assert((a + b)[i] == x);
}

proof fn lemma_contains_right<A>(a: Seq<A>, b: Seq<A>, x: A)
    requires
        b.contains(x),
    ensures
        (a + b).contains(x),
{
    let i = choose|i: int| 0 <= i < b.len() && b[i] == x;
    assert((a + b)[a.len() + i] == x);
}

proof fn lemma_field_requirement(fields: Seq<FieldView>, range: Range, f: int, name: Seq<char>)
    requires
        0 <= f < fields.len(),
        names_custom(fields[f].field_type, name),
    ensures
        field_requirements(fields, range).contains((name, range)),
    decreases fields.len(),
{
    let rest = field_requirements(fields.drop_last(), range);
    if f == fields.len() - 1 {
        assert(field_requirements(fields, range) == rest.push((name, range)));
        assert(rest.push((name, range))[rest.len() as int] == (name, range));
    } else {
        assert(fields.drop_last()[f] == fields[f]);
        lemma_field_requirement(fields.drop_last(), range, f, name);
        let i = choose|i: int| 0 <= i < rest.len() && rest[i] == (name, range);
        match fields.last().field_type {
            TypeView::Custom(c) => assert(rest.push((c.identifier, range))[i] == (name, range)),
            _ => {},
        }
    }
}

proof fn lemma_type_requirement(custom_types: Seq<CustomTypeView>, t: int, f: int, name: Seq<char>)
    requires
        0 <= t < custom_types.len(),
        0 <= f < custom_types[t].fields.len(),
        names_custom(custom_types[t].fields[f].field_type, name),
    ensures
        type_requirements(custom_types).contains((name, custom_types[t].range)),
    decreases custom_types.len(),
{
    let rest = custom_types.drop_last();
    let last = custom_types.last();
    if t == custom_types.len() - 1 {
        lemma_field_requirement(last.fields, last.range, f, name);
        lemma_contains_right(type_requirements(rest), field_requirements(last.fields, last.range), (name, last.range));
    } else {
        assert(rest[t] == custom_types[t]);
        lemma_type_requirement(rest, t, f, name);
        lemma_contains_left(type_requirements(rest), field_requirements(last.fields, last.range), (name, custom_types[t].range));
    }
}

proof fn lemma_parameter_requirement(parameters: Seq<ParameterView>, range: Range, p: int, name: Seq<char>)
    requires
        0 <= p < parameters.len(),
        names_custom(parameters[p].parameter_type, name),
    ensures
        parameter_requirements(parameters, range).contains((name, range)),
    decreases parameters.len(),
{
    let rest = parameters.drop_last();
    let own = type_view_requirements(parameters.last().parameter_type, range);
    if p == parameters.len() - 1 {
        assert(own[0] == (name, range));
        lemma_contains_right(parameter_requirements(rest, range), own, (name, range));
    } else {
        assert(rest[p] == parameters[p]);
        lemma_parameter_requirement(rest, range, p, name);
        lemma_contains_left(parameter_requirements(rest, range), own, (name, range));
    }
}

proof fn lemma_endpoint_requirement(endpoints: Seq<EndpointView>, e: int, x: Requirement)
    requires
        0 <= e < endpoints.len(),
        endpoint_requirements(endpoints[e]).contains(x),
    ensures
        endpoints_requirements(endpoints).contains(x),
    decreases endpoints.len(),
{
    let rest = endpoints.drop_last();
    if e == endpoints.len() - 1 {
        lemma_contains_right(endpoints_requirements(rest), endpoint_requirements(endpoints.last()), x);
    } else {
        assert(rest[e] == endpoints[e]);
        lemma_endpoint_requirement(rest, e, x);
        lemma_contains_left(endpoints_requirements(rest), endpoint_requirements(endpoints.last()), x);
    }
}

proof fn lemma_unknown_type_error(required: Seq<Requirement>, custom_types: Seq<CustomTypeView>, x: Requirement)
    requires
        required.contains(x),
        forall|k: int| 0 <= k < custom_types.len() ==> custom_types[k].identifier != x.0,
    ensures
        unknown_type_errors(required, custom_types).contains(
            ValidationErrorView { range: x.1, message: unknown_type_message(x.0) },
        ),
    decreases required.len(),
{
    let rest = required.drop_last();
    let err = ValidationErrorView { range: x.1, message: unknown_type_message(x.0) };
    let errors = unknown_type_errors(rest, custom_types);
    if required.last() == x {
        assert(!type_names(custom_types).contains(x.0)) by {
            if type_names(custom_types).contains(x.0) {
                let k = choose|k: int| 0 <= k < type_names(custom_types).len() && type_names(custom_types)[k] == x.0;
                assert(custom_types[k].identifier == x.0);
            }
        }
        assert(errors.push(err)[errors.len() as int] == err);
    } else {
        let i = choose|i: int| 0 <= i < required.len() && required[i] == x;
        assert(i < required.len() - 1);
        assert(rest[i] == x);
        lemma_unknown_type_error(rest, custom_types, x);
        let j = choose|j: int| 0 <= j < errors.len() && errors[j] == err;
        let r = required.last();
        if !type_names(custom_types).contains(r.0) {
            assert(errors.push(ValidationErrorView { range: r.1, message: unknown_type_message(r.0) })[j] == err);
        }
    }
}

proof fn lemma_validate_reports_unknown(
    endpoints: Seq<EndpointView>,
    custom_types: Seq<CustomTypeView>,
    roles: Seq<RoleView>,
    x: Requirement,
)
    requires
        (type_requirements(custom_types) + endpoints_requirements(endpoints)).contains(x),
        forall|k: int| 0 <= k < custom_types.len() ==> custom_types[k].identifier != x.0,
    ensures
        spec_validate(endpoints, custom_types, roles).contains(
            ValidationErrorView { range: x.1, message: "Type "@ + x.0 + " is unknown"@ },
        ),
{
    let required = type_requirements(custom_types) + endpoints_requirements(endpoints);
    let err = ValidationErrorView { range: x.1, message: unknown_type_message(x.0) };
    lemma_unknown_type_error(required, custom_types, x);
    let u = unknown_type_errors(required, custom_types);
    let r = role_errors(endpoints, roles);
    lemma_contains_right(r, u, err);
    lemma_contains_left(r + u, duplicate_type_errors(custom_types), err);
    lemma_contains_left(r + u + duplicate_type_errors(custom_types), duplicate_endpoint_errors(endpoints), err);
    lemma_contains_left(
        r + u + duplicate_type_errors(custom_types) + duplicate_endpoint_errors(endpoints),
        duplicate_field_errors(custom_types),
        err,
    );
}

/// A field of a custom type that names a custom type no definition has, with or
/// without an array part, makes validation report "Type <name> is unknown" at
/// the custom type.
pub proof fn law_unknown_field_type(
    endpoints: Seq<EndpointView>,
    custom_types: Seq<CustomTypeView>,
    roles: Seq<RoleView>,
    t: int,
    f: int,
    name: Seq<char>,
)
    requires
        0 <= t < custom_types.len(),
        0 <= f < custom_types[t].fields.len(),
        names_custom(custom_types[t].fields[f].field_type, name),
        forall|k: int| 0 <= k < custom_types.len() ==> custom_types[k].identifier != name,
    ensures
        spec_validate(endpoints, custom_types, roles).contains(
            ValidationErrorView { range: custom_types[t].range, message: "Type "@ + name + " is unknown"@ },
        ),
{
    lemma_type_requirement(custom_types, t, f, name);
    lemma_contains_left(type_requirements(custom_types), endpoints_requirements(endpoints), (name, custom_types[t].range));
    lemma_validate_reports_unknown(endpoints, custom_types, roles, (name, custom_types[t].range));
}

/// A parameter or the return type of an endpoint that names a custom type no
/// definition has, with or without an array part, makes validation report
/// "Type <name> is unknown" at the endpoint.
pub proof fn law_unknown_endpoint_type(
    endpoints: Seq<EndpointView>,
    custom_types: Seq<CustomTypeView>,
    roles: Seq<RoleView>,
    e: int,
    name: Seq<char>,
)
    requires
        0 <= e < endpoints.len(),
        (exists|p: int| 0 <= p < endpoints[e].parameters.len() && names_custom(endpoints[e].parameters[p].parameter_type, name))
            || (endpoints[e].return_type matches Some(r) && names_custom(r, name)),
        forall|k: int| 0 <= k < custom_types.len() ==> custom_types[k].identifier != name,
    ensures
        spec_validate(endpoints, custom_types, roles).contains(
            ValidationErrorView { range: endpoints[e].range, message: "Type "@ + name + " is unknown"@ },
        ),
{
    let ep = endpoints[e];
    let x = (name, ep.range);
    let params = parameter_requirements(ep.parameters, ep.range);
    let ret = match ep.return_type {
        Some(t) => type_view_requirements(t, ep.range),
        None => Seq::empty(),
    };
    if exists|p: int| 0 <= p < ep.parameters.len() && names_custom(ep.parameters[p].parameter_type, name) {
        let p = choose|p: int| 0 <= p < ep.parameters.len() && names_custom(ep.parameters[p].parameter_type, name);
        lemma_parameter_requirement(ep.parameters, ep.range, p, name);
        lemma_contains_left(params, ret, x);
    } else {
        assert(ret[0] == x);
        lemma_contains_right(params, ret, x);
    }
    lemma_endpoint_requirement(endpoints, e, x);
    lemma_contains_right(type_requirements(custom_types), endpoints_requirements(endpoints), x);
    lemma_validate_reports_unknown(endpoints, custom_types, roles, x);
}

} // verus!
