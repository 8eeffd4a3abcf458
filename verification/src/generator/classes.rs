use vstd::prelude::*;

use crate::generator::typescript::{class_text, generate_class, string_views};
use crate::parser::custom_type::{CustomType, CustomTypeView};
use crate::parser::endpoint::{Endpoint, EndpointView};
use crate::input_reader::str_chars;
use crate::parser::parse::{custom_type_views, endpoint_views};
use crate::text::chars_equal;

verus! {

/// The index of the group of `role`, if there is one.
pub open spec fn group_index<T>(groups: Seq<(Seq<char>, T)>, role: Seq<char>) -> Option<int>
    decreases groups.len(),
{
    if groups.len() == 0 {
        None
    } else if groups.last().0 == role {
        Some(groups.len() - 1)
    } else {
        group_index(groups.drop_last(), role)
    }
}

/// The endpoints grouped by their role: a group for each role, in the order in
/// which the roles first appear, with the role's endpoints in their order.
pub open spec fn group_by_role(endpoints: Seq<EndpointView>) -> Seq<(Seq<char>, Seq<EndpointView>)>
    decreases endpoints.len(),
{
    if endpoints.len() == 0 {
        Seq::empty()
    } else {
        let groups = group_by_role(endpoints.drop_last());
        let e = endpoints.last();
        match group_index(groups, e.role) {
            Some(k) => groups.update(k, (groups[k].0, groups[k].1.push(e))),
            None => groups.push((e.role, seq![e])),
        }
    }
}

/// The classes to import for `role`: those listed for it, or none.
pub open spec fn imports_for(per_role: Seq<(Seq<char>, Seq<Seq<char>>)>, role: Seq<char>) -> Seq<
    Seq<char>,
> {
    match group_index(per_role, role) {
        Some(k) => per_role[k].1,
        None => Seq::empty(),
    }
}

/// `generate_classes_per_role`: for each role that has endpoints in the source,
/// the class named `class_name` with these endpoints; foreign unless the role
/// is the selected one.
pub open spec fn classes_per_role(
    class_name: Seq<char>,
    relative_path: Seq<char>,
    endpoints: Seq<EndpointView>,
    selected_role: Seq<char>,
    custom_types: Seq<CustomTypeView>,
    imports_per_role: Seq<(Seq<char>, Seq<Seq<char>>)>,
) -> Seq<(Seq<char>, Seq<char>)> {
    group_by_role(endpoints).map_values(
        |g: (Seq<char>, Seq<EndpointView>)|
            (
                g.0,
                class_text(
                    class_name,
                    relative_path,
                    g.1,
                    selected_role != g.0,
                    imports_for(imports_per_role, g.0),
                    custom_types,
                ),
            ),
    )
}

pub open spec fn group_views(groups: Seq<(String, Vec<Endpoint>)>) -> Seq<(Seq<char>, Seq<EndpointView>)> {
    groups.map_values(|g: (String, Vec<Endpoint>)| (g.0@, endpoint_views(g.1@)))
}

pub open spec fn imports_views(per_role: Seq<(String, Vec<String>)>) -> Seq<(Seq<char>, Seq<Seq<char>>)> {
    per_role.map_values(|g: (String, Vec<String>)| (g.0@, string_views(g.1@)))
}

pub open spec fn pair_views(pairs: Seq<(String, String)>) -> Seq<(Seq<char>, Seq<char>)> {
    pairs.map_values(|p: (String, String)| (p.0@, p.1@))
}

/// The groups with their names as texts.
pub open spec fn group_keys<T>(groups: Seq<(String, T)>) -> Seq<(Seq<char>, T)> {
    groups.map_values(|g: (String, T)| (g.0@, g.1))
}

/// Finds the group of `role`.
pub(crate) fn find_group<T>(groups: &Vec<(String, T)>, role: &String) -> (res: Option<usize>)
    ensures
        res is None <==> group_index(group_keys(groups@), role@) is None,
        res matches Some(k) ==> group_index(group_keys(groups@), role@) == Some(k as int) && k
            < groups.len() && groups@[k as int].0@ == role@,
{
    let ghost keys = group_keys(groups@);
    assert(keys.take(groups.len() as int) =~= keys);
    let mut i = groups.len();
    while i > 0
        invariant
            i <= groups.len(),
            keys == group_keys(groups@),
            group_index(keys, role@) == group_index(keys.take(i as int), role@),
        decreases i,
    {
        assert(keys.take(i as int).drop_last() =~= keys.take(i - 1));
        assert(keys.take(i as int).last() == (groups@[i - 1].0@, groups@[i - 1].1));
        if groups[i - 1].0 == *role {
            return Some(i - 1);
        }
        i = i - 1;
    }
    None
}

/// Groups the endpoints by their role; see [`group_by_role`].
fn group_endpoints(endpoints: Vec<Endpoint>) -> (res: Vec<(String, Vec<Endpoint>)>)
    ensures
        group_views(res@) == group_by_role(endpoint_views(endpoints@)),
{
    let ghost all = endpoint_views(endpoints@);
    let mut rest = endpoints;
    let mut groups: Vec<(String, Vec<Endpoint>)> = Vec::new();
    let ghost mut done: int = 0;
    assert(group_views(groups@) =~= group_by_role(all.take(0)));
    while rest.len() > 0
        invariant
            0 <= done <= all.len(),
            endpoint_views(rest@) == all.skip(done),
            group_views(groups@) == group_by_role(all.take(done)),
        decreases rest.len(),
    {
        let ghost before = groups@;
        let ghost old_rest = rest@;
        assert(endpoint_views(old_rest).len() == old_rest.len());
        assert(endpoint_views(old_rest)[0] == old_rest[0]@);
        assert(all.skip(done)[0] == all[done]);
        let e = rest.remove(0);
        assert(rest@ =~= old_rest.skip(1));
        assert forall|j: int| 0 <= j < rest@.len() implies #[trigger] endpoint_views(rest@)[j]
            == all.skip(done + 1)[j] by {
            assert(endpoint_views(old_rest)[j + 1] == old_rest[j + 1]@);
            assert(all.skip(done)[j + 1] == all[done + 1 + j]);
        }
        assert(endpoint_views(rest@) =~= all.skip(done + 1));
        assert(all.take(done + 1).drop_last() =~= all.take(done));
        assert(all.take(done + 1).last() == e@);
        let ghost keys = group_keys(groups@);
        assert(forall|k: int| 0 <= k < groups.len() ==> #[trigger] keys[k].0 == group_views(groups@)[k].0);
        proof {
            lemma_group_index_keys(keys, group_views(groups@), e@.role);
        }
        match find_group(&groups, &e.role) {
            Some(k) => {
                let mut group = groups.remove(k);
                let ghost old_members = group.1@;
                group.1.push(e);
                assert(endpoint_views(group.1@) =~= endpoint_views(old_members).push(e@));
                groups.insert(k, group);
                assert(groups@ =~= before.update(k as int, groups@[k as int]));
                assert(group_views(groups@) =~= group_views(before).update(
                    k as int,
                    (group_views(before)[k as int].0, group_views(before)[k as int].1.push(e@)),
                ));
            },
            None => {
                let role = e.role.clone();
                let mut members = Vec::new();
                members.push(e);
                assert(endpoint_views(members@) =~= seq![e@]);
                groups.push((role, members));
                assert(group_views(groups@) =~= group_views(before).push((e@.role, seq![e@])));
            },
        }
        proof {
            done = done + 1;
        }
    }
    assert(all.take(done) =~= all);
    groups
}

/// `group_index` only looks at the first parts of the pairs.
pub(crate) proof fn lemma_group_index_keys<A, B>(a: Seq<(Seq<char>, A)>, b: Seq<(Seq<char>, B)>, role: Seq<char>)
    requires
        a.len() == b.len(),
        forall|k: int| 0 <= k < a.len() ==> #[trigger] a[k].0 == b[k].0,
    ensures
        group_index(a, role) == group_index(b, role),
    decreases a.len(),
{
    if a.len() > 0 {
        lemma_group_index_keys(a.drop_last(), b.drop_last(), role);
    }
}

/// Generates the classes of one source: for each role that has endpoints in it,
/// a class named `class_name` with the role's endpoints, in the order in which
/// the roles first appear. The class of the selected role handles its endpoints;
/// the others call them. `classes_to_import_per_role` lists, per role, the
/// subclasses that the class imports.
pub fn generate_classes_per_role(
    class_name: &str,
    relative_path: &str,
    endpoints: Vec<Endpoint>,
    selected_role: &str,
    custom_types: &Vec<CustomType>,
    classes_to_import_per_role: &Vec<(String, Vec<String>)>,
) -> (res: Vec<(String, String)>)
    ensures
        pair_views(res@) == classes_per_role(
            class_name@,
            relative_path@,
            endpoint_views(endpoints@),
            selected_role@,
            custom_type_views(custom_types@),
            imports_views(classes_to_import_per_role@),
        ),
{
    let groups = group_endpoints(endpoints);
    let ghost gs = group_views(groups@);
    let ghost target = classes_per_role(
        class_name@,
        relative_path@,
        endpoints@.map_values(|e: Endpoint| e@),
        selected_role@,
        custom_type_views(custom_types@),
        imports_views(classes_to_import_per_role@),
    );
    let no_imports: Vec<String> = Vec::new();
    let mut classes_by_role: Vec<(String, String)> = Vec::new();
    let mut i: usize = 0;
    while i < groups.len()
        invariant
            i <= groups.len(),
            gs == group_views(groups@),
            gs.len() == groups.len(),
            target.len() == gs.len(),
            no_imports@.len() == 0,
            forall|k: int| 0 <= k < gs.len() ==> #[trigger] target[k] == (
                gs[k].0,
                class_text(
                    class_name@,
                    relative_path@,
                    gs[k].1,
                    selected_role@ != gs[k].0,
                    imports_for(imports_views(classes_to_import_per_role@), gs[k].0),
                    custom_type_views(custom_types@),
                ),
            ),
            pair_views(classes_by_role@) == target.take(i as int),
        decreases groups.len() - i,
    {
        let (role, members) = &groups[i];
        assert(gs[i as int] == (role@, endpoint_views(members@)));
        let ghost imports_view = imports_views(classes_to_import_per_role@);
        let ghost keys = group_keys(classes_to_import_per_role@);
        assert(forall|k: int| 0 <= k < classes_to_import_per_role.len() ==> #[trigger] keys[k].0
            == imports_view[k].0);
        proof {
            lemma_group_index_keys(keys, imports_view, role@);
        }
        let found = find_group(classes_to_import_per_role, role);
        let imports = match found {
            Some(k) => &classes_to_import_per_role[k].1,
            None => &no_imports,
        };
        assert(string_views(imports@) == imports_for(imports_view, role@)) by {
            match found {
                Some(k) => {
                    assert(group_index(keys, role@) == Some(k as int));
                    assert(group_index(imports_view, role@) == Some(k as int));
                    assert(imports_view[k as int] == (
                        classes_to_import_per_role@[k as int].0@,
                        string_views(classes_to_import_per_role@[k as int].1@),
                    ));
                },
                None => {
                    assert(group_index(keys, role@) is None);
                    assert(group_index(imports_view, role@) is None);
                    assert(string_views(no_imports@) =~= Seq::<Seq<char>>::empty());
                },
            }
        }
        let foreign = !same_string(role, selected_role);
        let class = generate_class(class_name, relative_path, members, foreign, imports, custom_types);
        let ghost before = classes_by_role@;
        classes_by_role.push((role.clone(), class));
        assert(pair_views(classes_by_role@) =~= pair_views(before).push(target[i as int]));
        assert(target.take(i + 1) =~= target.take(i as int).push(target[i as int]));
        i = i + 1;
    }
    assert(target.take(i as int) =~= target);
    classes_by_role
}

/// Whether the string has the text `s`.
fn same_string(a: &String, s: &str) -> (res: bool)
    ensures
        res == (a@ == s@),
{
    let a = str_chars(a.as_str());
    let b = str_chars(s);
    chars_equal(&a, &b)
}

/// Whether an endpoint belongs to `role`.
pub open spec fn has_role(role: Seq<char>) -> spec_fn(EndpointView) -> bool {
    |e: EndpointView| e.role == role
}

/// `group_index` finds a group of `role` exactly when there is one.
pub(crate) proof fn lemma_group_index<T>(groups: Seq<(Seq<char>, T)>, role: Seq<char>)
    ensures
        match group_index(groups, role) {
            Some(k) => 0 <= k < groups.len() && groups[k].0 == role,
            None => forall|i: int| 0 <= i < groups.len() ==> groups[i].0 != role,
        },
    decreases groups.len(),
{
    if groups.len() > 0 && groups.last().0 != role {
        lemma_group_index(groups.drop_last(), role);
        assert forall|i: int| 0 <= i < groups.len() - 1 implies groups[i] == groups.drop_last()[i] by {}
    }
}

/// The grouping of endpoints by role: no role has two groups, every endpoint's
/// role has a group, and each group holds exactly the endpoints of its role in
/// their order.
proof fn lemma_group_by_role(endpoints: Seq<EndpointView>)
    ensures
        forall|i: int, j: int|
            0 <= i < j < group_by_role(endpoints).len() ==> group_by_role(endpoints)[i].0
                != group_by_role(endpoints)[j].0,
        forall|k: int| 0 <= k < endpoints.len() ==> group_index(group_by_role(endpoints), #[trigger] endpoints[k].role) is Some,
        forall|i: int|
            0 <= i < group_by_role(endpoints).len() ==> #[trigger] group_by_role(endpoints)[i].1
                == endpoints.filter(has_role(group_by_role(endpoints)[i].0)),
    decreases endpoints.len(),
{
    reveal(Seq::filter);
    if endpoints.len() > 0 {
        let rest = endpoints.drop_last();
        let e = endpoints.last();
        lemma_group_by_role(rest);
        let previous = group_by_role(rest);
        let groups = group_by_role(endpoints);
        lemma_group_index(previous, e.role);
        assert forall|k: int| 0 <= k < rest.len() implies #[trigger] rest[k] == endpoints[k] by {}
        match group_index(previous, e.role) {
            Some(k) => {
                assert forall|i: int| 0 <= i < groups.len() implies #[trigger] groups[i].1
                    == endpoints.filter(has_role(groups[i].0)) by {
                    assert(groups[i].0 == previous[i].0);
                    if i == k {
                        assert(has_role(groups[i].0)(e));
                    } else {
                        assert(!has_role(groups[i].0)(e));
                    }
                }
                assert forall|j: int| 0 <= j < endpoints.len() implies group_index(groups, #[trigger] endpoints[j].role) is Some by {
                    if j < rest.len() {
                        assert(rest[j] == endpoints[j]);
                        lemma_group_index(previous, rest[j].role);
                        let m = group_index(previous, rest[j].role).unwrap();
                        assert(groups[m].0 == rest[j].role);
                        lemma_group_index(groups, rest[j].role);
                    } else {
                        lemma_group_index(groups, e.role);
                    }
                }
            },
            None => {
                assert(groups == previous.push((e.role, seq![e])));
                assert forall|i: int| 0 <= i < groups.len() implies #[trigger] groups[i].1
                    == endpoints.filter(has_role(groups[i].0)) by {
                    if i < previous.len() {
                        assert(groups[i] == previous[i]);
                        assert(previous[i].0 != e.role);
                        assert(!has_role(groups[i].0)(e));
                    } else {
                        assert(groups[i] == (e.role, seq![e]));
                        lemma_no_endpoint_of_role(rest, e.role, previous);
                        assert(rest.filter(has_role(e.role)) =~= Seq::<EndpointView>::empty());
                        assert(has_role(groups[i].0)(e));
                        assert(seq![e] =~= Seq::<EndpointView>::empty().push(e));
                    }
                }
                assert forall|j: int| 0 <= j < endpoints.len() implies group_index(groups, #[trigger] endpoints[j].role) is Some by {
                    lemma_group_index(groups, endpoints[j].role);
                    if j < rest.len() {
                        assert(rest[j] == endpoints[j]);
                        lemma_group_index(previous, rest[j].role);
                        let m = group_index(previous, rest[j].role).unwrap();
                        assert(groups[m] == previous[m]);
                    } else {
                        assert(groups[previous.len() as int].0 == e.role);
                    }
                }
            },
        }
    }
}

/// No endpoint of `s` has a role without a group.
proof fn lemma_no_endpoint_of_role(s: Seq<EndpointView>, role: Seq<char>, groups: Seq<(Seq<char>, Seq<EndpointView>)>)
    requires
        group_index(groups, role) is None,
        forall|k: int| 0 <= k < s.len() ==> group_index(groups, #[trigger] s[k].role) is Some,
    ensures
        s.filter(has_role(role)).len() == 0,
    decreases s.len(),
{
    reveal(Seq::filter);
    if s.len() > 0 {
        assert(group_index(groups, s[s.len() - 1].role) is Some);
        assert forall|k: int| 0 <= k < s.len() - 1 implies group_index(groups, #[trigger] s.drop_last()[k].role) is Some by {
            assert(s.drop_last()[k] == s[k]);
        }
        lemma_no_endpoint_of_role(s.drop_last(), role, groups);
    }
}

/// The classes of a source: no role gets two classes, every role that has an
/// endpoint gets one, and the class of a role has exactly the endpoints of that
/// role, in their order in the source; it handles them for the selected role
/// and calls them for the others, and imports the subclasses listed for it.
pub proof fn law_one_class_per_role(
    class_name: Seq<char>,
    relative_path: Seq<char>,
    endpoints: Seq<EndpointView>,
    selected_role: Seq<char>,
    custom_types: Seq<CustomTypeView>,
    imports_per_role: Seq<(Seq<char>, Seq<Seq<char>>)>,
)
    ensures
        ({
            let classes = classes_per_role(
                class_name,
                relative_path,
                endpoints,
                selected_role,
                custom_types,
                imports_per_role,
            );
            &&& forall|i: int, j: int| 0 <= i < j < classes.len() ==> classes[i].0 != classes[j].0
            &&& forall|k: int|
                0 <= k < endpoints.len() ==> exists|i: int|
                    0 <= i < classes.len() && classes[i].0 == #[trigger] endpoints[k].role
            &&& forall|i: int|
                0 <= i < classes.len() ==> #[trigger] classes[i].1 == class_text(
                    class_name,
                    relative_path,
                    endpoints.filter(has_role(classes[i].0)),
                    selected_role != classes[i].0,
                    imports_for(imports_per_role, classes[i].0),
                    custom_types,
                )
        }),
{
    lemma_group_by_role(endpoints);
    let groups = group_by_role(endpoints);
    let classes = classes_per_role(
        class_name,
        relative_path,
        endpoints,
        selected_role,
        custom_types,
        imports_per_role,
    );
    assert forall|i: int| 0 <= i < classes.len() implies classes[i].0 == groups[i].0 && #[trigger] classes[i].1
        == class_text(
        class_name,
        relative_path,
        endpoints.filter(has_role(classes[i].0)),
        selected_role != classes[i].0,
        imports_for(imports_per_role, classes[i].0),
        custom_types,
    ) by {
        assert(groups[i].1 == endpoints.filter(has_role(groups[i].0)));
    }
    assert forall|k: int| 0 <= k < endpoints.len() implies exists|i: int|
        0 <= i < classes.len() && classes[i].0 == #[trigger] endpoints[k].role by {
        lemma_group_index(groups, endpoints[k].role);
        let i = group_index(groups, endpoints[k].role).unwrap();
        assert(classes[i].0 == groups[i].0);
    }
}

} // verus!
