use vstd::prelude::*;

use crate::generator::classes::{find_group, group_index, group_keys, lemma_group_index_keys, pair_views};
use crate::lexer::token::{LiteralType, LiteralView};
use crate::parser::custom_type::{field_views, CustomType, CustomTypeView, Field, FieldView};
use crate::parser::endpoint::{parameter_views, Endpoint, EndpointView, Parameter, ParameterView};
use crate::parser::field_type::{enum_views, Enum, EnumType, EnumTypeView, Type, TypeView};
use crate::parser::parse::{custom_type_views, endpoint_views};

verus! {

/// How the float literals of a source are printed: pairs of a literal as
/// written and the text to print for it.
pub type FloatTexts = Seq<(Seq<char>, Seq<char>)>;

/// The text printed for the float literal written as `written`: its entry in
/// `floats`, or the literal as written when it has none.
pub open spec fn printed_float(floats: FloatTexts, written: Seq<char>) -> Seq<char> {
    match group_index(floats, written) {
        Some(k) => floats[k].1,
        None => written,
    }
}

pub open spec fn printed_enum_value(floats: FloatTexts, v: EnumTypeView) -> EnumTypeView {
    match v {
        EnumTypeView::Literal(LiteralView::Float(t)) => EnumTypeView::Literal(
            LiteralView::Float(printed_float(floats, t)),
        ),
        _ => v,
    }
}

/// A type with its float literals in their printed form.
pub open spec fn printed_type(floats: FloatTexts, t: TypeView) -> TypeView {
    match t {
        TypeView::Enum(values) => TypeView::Enum(
            values.map_values(|v: EnumTypeView| printed_enum_value(floats, v)),
        ),
        _ => t,
    }
}

pub open spec fn printed_parameter(floats: FloatTexts, p: ParameterView) -> ParameterView {
    ParameterView { parameter_type: printed_type(floats, p.parameter_type), ..p }
}

/// An endpoint with the float literals of its types in their printed form.
pub open spec fn printed_endpoint(floats: FloatTexts, e: EndpointView) -> EndpointView {
    EndpointView {
        parameters: e.parameters.map_values(|p: ParameterView| printed_parameter(floats, p)),
        return_type: match e.return_type {
            Some(t) => Some(printed_type(floats, t)),
            None => None,
        },
        ..e
    }
}

pub open spec fn printed_field(floats: FloatTexts, f: FieldView) -> FieldView {
    FieldView { field_type: printed_type(floats, f.field_type), ..f }
}

/// A custom type with the float literals of its fields in their printed form.
pub open spec fn printed_custom_type(floats: FloatTexts, c: CustomTypeView) -> CustomTypeView {
    CustomTypeView { fields: c.fields.map_values(|f: FieldView| printed_field(floats, f)), ..c }
}

fn printed_float_exec(floats: &Vec<(String, String)>, written: String) -> (res: String)
    ensures
        res@ == printed_float(pair_views(floats@), written@),
{
    proof {
        lemma_group_index_keys(group_keys(floats@), pair_views(floats@), written@);
    }
    match find_group(floats, &written) {
        Some(k) => {
            assert(pair_views(floats@)[k as int] == (floats@[k as int].0@, floats@[k as int].1@));
            floats[k].1.clone()
        },
        None => written,
    }
}

fn printed_type_exec(floats: &Vec<(String, String)>, t: Type) -> (res: Type)
    ensures
        res@ == printed_type(pair_views(floats@), t@),
{
    let ghost fv = pair_views(floats@);
    match t {
        Type::Enum(e) => {
            let ghost all = enum_views(e.values@);
            let mut rest = e.values;
            let mut values: Vec<EnumType> = Vec::new();
            let ghost mut done: int = 0;
            assert(all.take(0).map_values(|v: EnumTypeView| printed_enum_value(fv, v))
                =~= enum_views(values@));
            assert(all.skip(0) =~= all);
            while rest.len() > 0
                invariant
                    0 <= done <= all.len(),
                    fv == pair_views(floats@),
                    enum_views(rest@) == all.skip(done),
                    enum_views(values@) == all.take(done).map_values(
                        |v: EnumTypeView| printed_enum_value(fv, v),
                    ),
                decreases rest.len(),
            {
                let ghost old_rest = rest@;
                assert(enum_views(old_rest).len() == old_rest.len());
                assert(enum_views(old_rest)[0] == old_rest[0]@);
                assert(all.skip(done)[0] == all[done]);
                let v = rest.remove(0);
                assert(enum_views(rest@) =~= all.skip(done + 1)) by {
                    assert forall|j: int| 0 <= j < rest@.len() implies #[trigger] enum_views(rest@)[j]
                        == all.skip(done + 1)[j] by {
                        assert(rest@[j] == old_rest[j + 1]);
                        assert(enum_views(old_rest)[j + 1] == old_rest[j + 1]@);
                        assert(all.skip(done)[j + 1] == all[done + 1 + j]);
                    }
                }
                let nv = match v {
                    EnumType::Literal(LiteralType::Float(text)) => EnumType::Literal(
                        LiteralType::Float(printed_float_exec(floats, text)),
                    ),
                    other => other,
                };
                assert(nv@ == printed_enum_value(fv, all[done]));
                let ghost before = values@;
                values.push(nv);
                assert(enum_views(values@) =~= enum_views(before).push(nv@));
                assert(all.take(done + 1).map_values(|v: EnumTypeView| printed_enum_value(fv, v))
                    =~= all.take(done).map_values(|v: EnumTypeView| printed_enum_value(fv, v)).push(
                    printed_enum_value(fv, all[done]),
                ));
                proof {
                    done = done + 1;
                }
            }
            assert(all.take(done) =~= all);
            Type::Enum(Enum { values })
        },
        other => other,
    }
}

fn printed_parameters_exec(floats: &Vec<(String, String)>, parameters: Vec<Parameter>) -> (res: Vec<
    Parameter,
>)
    ensures
        parameter_views(res@) == parameter_views(parameters@).map_values(
            |p: ParameterView| printed_parameter(pair_views(floats@), p),
        ),
{
    let ghost fv = pair_views(floats@);
    let ghost all = parameter_views(parameters@);
    let mut rest = parameters;
    let mut out: Vec<Parameter> = Vec::new();
    let ghost mut done: int = 0;
    assert(all.take(0).map_values(|p: ParameterView| printed_parameter(fv, p)) =~= parameter_views(out@));
    assert(all.skip(0) =~= all);
    while rest.len() > 0
        invariant
            0 <= done <= all.len(),
            fv == pair_views(floats@),
            parameter_views(rest@) == all.skip(done),
            parameter_views(out@) == all.take(done).map_values(|p: ParameterView| printed_parameter(fv, p)),
        decreases rest.len(),
    {
        let ghost old_rest = rest@;
        assert(parameter_views(old_rest).len() == old_rest.len());
        assert(parameter_views(old_rest)[0] == old_rest[0]@);
        assert(all.skip(done)[0] == all[done]);
        let p = rest.remove(0);
        assert(parameter_views(rest@) =~= all.skip(done + 1)) by {
            assert forall|j: int| 0 <= j < rest@.len() implies #[trigger] parameter_views(rest@)[j]
                == all.skip(done + 1)[j] by {
                assert(rest@[j] == old_rest[j + 1]);
                assert(parameter_views(old_rest)[j + 1] == old_rest[j + 1]@);
                assert(all.skip(done)[j + 1] == all[done + 1 + j]);
            }
        }
        let Parameter { optional, identifier, parameter_type } = p;
        let np = Parameter { optional, identifier, parameter_type: printed_type_exec(floats, parameter_type) };
        assert(np@ == printed_parameter(fv, all[done]));
        let ghost before = out@;
        out.push(np);
        assert(parameter_views(out@) =~= parameter_views(before).push(np@));
        assert(all.take(done + 1).map_values(|p: ParameterView| printed_parameter(fv, p))
            =~= all.take(done).map_values(|p: ParameterView| printed_parameter(fv, p)).push(
            printed_parameter(fv, all[done]),
        ));
        proof {
            done = done + 1;
        }
    }
    assert(all.take(done) =~= all);
    out
}

/// The endpoints with the float literals of their types in their printed form.
pub(crate) fn printed_endpoints(floats: &Vec<(String, String)>, endpoints: Vec<Endpoint>) -> (res: Vec<
    Endpoint,
>)
    ensures
        endpoint_views(res@) == endpoint_views(endpoints@).map_values(
            |e: EndpointView| printed_endpoint(pair_views(floats@), e),
        ),
{
    let ghost fv = pair_views(floats@);
    let ghost all = endpoint_views(endpoints@);
    let mut rest = endpoints;
    let mut out: Vec<Endpoint> = Vec::new();
    let ghost mut done: int = 0;
    assert(all.take(0).map_values(|e: EndpointView| printed_endpoint(fv, e)) =~= endpoint_views(out@));
    assert(all.skip(0) =~= all);
    while rest.len() > 0
        invariant
            0 <= done <= all.len(),
            fv == pair_views(floats@),
            endpoint_views(rest@) == all.skip(done),
            endpoint_views(out@) == all.take(done).map_values(|e: EndpointView| printed_endpoint(fv, e)),
        decreases rest.len(),
    {
        let ghost old_rest = rest@;
        assert(endpoint_views(old_rest).len() == old_rest.len());
        assert(endpoint_views(old_rest)[0] == old_rest[0]@);
        assert(all.skip(done)[0] == all[done]);
        let e = rest.remove(0);
        assert(endpoint_views(rest@) =~= all.skip(done + 1)) by {
            assert forall|j: int| 0 <= j < rest@.len() implies #[trigger] endpoint_views(rest@)[j]
                == all.skip(done + 1)[j] by {
                assert(rest@[j] == old_rest[j + 1]);
                assert(endpoint_views(old_rest)[j + 1] == old_rest[j + 1]@);
                assert(all.skip(done)[j + 1] == all[done + 1 + j]);
            }
        }
        let Endpoint {
            range,
            documentation,
            identifier,
            role,
            parameters,
            return_type,
            middleware_identifiers,
        } = e;
        let parameters = printed_parameters_exec(floats, parameters);
        let return_type = match return_type {
            Some(t) => Some(printed_type_exec(floats, t)),
            None => None,
        };
        let ne = Endpoint {
            range,
            documentation,
            identifier,
            role,
            parameters,
            return_type,
            middleware_identifiers,
        };
        assert(ne@ == printed_endpoint(fv, all[done]));
        let ghost before = out@;
        out.push(ne);
        assert(endpoint_views(out@) =~= endpoint_views(before).push(ne@));
        assert(all.take(done + 1).map_values(|e: EndpointView| printed_endpoint(fv, e))
            =~= all.take(done).map_values(|e: EndpointView| printed_endpoint(fv, e)).push(
            printed_endpoint(fv, all[done]),
        ));
        proof {
            done = done + 1;
        }
    }
    assert(all.take(done) =~= all);
    out
}

fn printed_fields_exec(floats: &Vec<(String, String)>, fields: Vec<Field>) -> (res: Vec<Field>)
    ensures
        field_views(res@) == field_views(fields@).map_values(
            |f: FieldView| printed_field(pair_views(floats@), f),
        ),
{
    let ghost fv = pair_views(floats@);
    let ghost all = field_views(fields@);
    let mut rest = fields;
    let mut out: Vec<Field> = Vec::new();
    let ghost mut done: int = 0;
    assert(all.take(0).map_values(|f: FieldView| printed_field(fv, f)) =~= field_views(out@));
    assert(all.skip(0) =~= all);
    while rest.len() > 0
        invariant
            0 <= done <= all.len(),
            fv == pair_views(floats@),
            field_views(rest@) == all.skip(done),
            field_views(out@) == all.take(done).map_values(|f: FieldView| printed_field(fv, f)),
        decreases rest.len(),
    {
        let ghost old_rest = rest@;
        assert(field_views(old_rest).len() == old_rest.len());
        assert(field_views(old_rest)[0] == old_rest[0]@);
        assert(all.skip(done)[0] == all[done]);
        let f = rest.remove(0);
        assert(field_views(rest@) =~= all.skip(done + 1)) by {
            assert forall|j: int| 0 <= j < rest@.len() implies #[trigger] field_views(rest@)[j]
                == all.skip(done + 1)[j] by {
                assert(rest@[j] == old_rest[j + 1]);
                assert(field_views(old_rest)[j + 1] == old_rest[j + 1]@);
                assert(all.skip(done)[j + 1] == all[done + 1 + j]);
            }
        }
        let Field { documentation, optional, identifier, field_type } = f;
        let nf = Field { documentation, optional, identifier, field_type: printed_type_exec(floats, field_type) };
        assert(nf@ == printed_field(fv, all[done]));
        let ghost before = out@;
        out.push(nf);
        assert(field_views(out@) =~= field_views(before).push(nf@));
        assert(all.take(done + 1).map_values(|f: FieldView| printed_field(fv, f))
            =~= all.take(done).map_values(|f: FieldView| printed_field(fv, f)).push(
            printed_field(fv, all[done]),
        ));
        proof {
            done = done + 1;
        }
    }
    assert(all.take(done) =~= all);
    out
}

/// The custom types with the float literals of their fields in their printed form.
pub(crate) fn printed_custom_types(floats: &Vec<(String, String)>, custom_types: Vec<CustomType>) -> (res: Vec<
    CustomType,
>)
    ensures
        custom_type_views(res@) == custom_type_views(custom_types@).map_values(
            |c: CustomTypeView| printed_custom_type(pair_views(floats@), c),
        ),
{
    let ghost fv = pair_views(floats@);
    let ghost all = custom_type_views(custom_types@);
    let mut rest = custom_types;
    let mut out: Vec<CustomType> = Vec::new();
    let ghost mut done: int = 0;
    assert(all.take(0).map_values(|c: CustomTypeView| printed_custom_type(fv, c)) =~= custom_type_views(out@));
    assert(all.skip(0) =~= all);
    while rest.len() > 0
        invariant
            0 <= done <= all.len(),
            fv == pair_views(floats@),
            custom_type_views(rest@) == all.skip(done),
            custom_type_views(out@) == all.take(done).map_values(
                |c: CustomTypeView| printed_custom_type(fv, c),
            ),
        decreases rest.len(),
    {
        let ghost old_rest = rest@;
        assert(custom_type_views(old_rest).len() == old_rest.len());
        assert(custom_type_views(old_rest)[0] == old_rest[0]@);
        assert(all.skip(done)[0] == all[done]);
        let c = rest.remove(0);
        assert(custom_type_views(rest@) =~= all.skip(done + 1)) by {
            assert forall|j: int| 0 <= j < rest@.len() implies #[trigger] custom_type_views(rest@)[j]
                == all.skip(done + 1)[j] by {
                assert(rest@[j] == old_rest[j + 1]);
                assert(custom_type_views(old_rest)[j + 1] == old_rest[j + 1]@);
                assert(all.skip(done)[j + 1] == all[done + 1 + j]);
            }
        }
        let CustomType { range, documentation, identifier, fields } = c;
        let nc = CustomType { range, documentation, identifier, fields: printed_fields_exec(floats, fields) };
        assert(nc@ == printed_custom_type(fv, all[done]));
        let ghost before = out@;
        out.push(nc);
        assert(custom_type_views(out@) =~= custom_type_views(before).push(nc@));
        assert(all.take(done + 1).map_values(|c: CustomTypeView| printed_custom_type(fv, c))
            =~= all.take(done).map_values(|c: CustomTypeView| printed_custom_type(fv, c)).push(
            printed_custom_type(fv, all[done]),
        ));
        proof {
            done = done + 1;
        }
    }
    assert(all.take(done) =~= all);
    out
}

} // verus!
