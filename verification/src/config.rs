use vstd::prelude::*;

verus! {

/// A role of a project: a participant (a server, a browser, ...) that has
/// endpoints, as configured in `roles.json`.
#[derive(Debug)]
pub struct Role {
    pub name: String,
    pub types: Vec<String>,
    pub documentation: Option<String>,
}

/// The configuration of a project, as in `erpc.json`.
#[derive(Debug)]
pub struct Config {
    pub sources: Vec<String>,
    pub role: String,
}

pub struct RoleView {
    pub name: Seq<char>,
    pub types: Seq<Seq<char>>,
    pub documentation: Option<Seq<char>>,
}

impl View for Role {
    type V = RoleView;

    open spec fn view(&self) -> RoleView {
        RoleView {
            name: self.name@,
            types: self.types@.map_values(|t: String| t@),
            documentation: match self.documentation {
                Some(d) => Some(d@),
                None => None,
            },
        }
    }
}

pub open spec fn role_views(roles: Seq<Role>) -> Seq<RoleView> {
    roles.map_values(|r: Role| r@)
}

} // verus!
