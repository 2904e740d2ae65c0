//! Component identity: keys that name components and identifiers that
//! address one named output stream of a component.

use vstd::prelude::*;

verus! {

/// Identifier of a component within a topology.
///
/// A key holds its canonical form: the plain name for an unscoped key, or
/// `scope.name` for a key produced by expansion. Two keys are equal exactly
/// when their canonical forms are equal.
pub struct ComponentKey {
    id: String,
}

impl View for ComponentKey {
    type V = Seq<char>;

    closed spec fn view(&self) -> Seq<char> {
        self.id@
    }
}

impl ComponentKey {
    /// An unscoped key whose canonical form is `name` itself.
    pub fn new(name: String) -> (r: Self)
        ensures
            r@ == name@,
    {
        ComponentKey { id: name }
    }

    /// A scoped key with canonical form `scope.name`.
    pub fn join(scope: &str, name: &str) -> (r: Self)
        ensures
            r@ == scope@ + "."@ + name@,
    {
        let mut id = scope.to_owned();
        id.append(".");
        id.append(name);
        ComponentKey { id }
    }

    /// The canonical form of the key.
    pub fn id(&self) -> (r: &str)
        ensures
            r@ == self@,
    {
        self.id.as_str()
    }
}

impl Clone for ComponentKey {
    fn clone(&self) -> (r: Self)
        ensures
            r@ == self@,
    {
        ComponentKey { id: self.id.clone() }
    }
}

impl PartialEq for ComponentKey {
    fn eq(&self, other: &Self) -> (r: bool) {
        self.id == other.id
    }
}

impl vstd::std_specs::cmp::PartialEqSpecImpl for ComponentKey {
    open spec fn obeys_eq_spec() -> bool {
        true
    }

    open spec fn eq_spec(&self, other: &Self) -> bool {
        self@ == other@
    }
}

/// Addresses one output stream of a component: the component's key plus
/// either the default stream (`port` is `None`) or a named port. The wire
/// form is `name` for the default stream and `name.port` otherwise.
pub struct OutputId {
    pub component: ComponentKey,
    pub port: Option<String>,
}

/// The wire form of an output identifier.
pub open spec fn spec_output_text(component: Seq<char>, port: Option<Seq<char>>) -> Seq<char> {
    match port {
        None => component,
        Some(p) => component + "."@ + p,
    }
}

impl OutputId {
    /// The identifier of a component's default stream.
    pub fn from_key(component: ComponentKey) -> (r: Self)
        ensures
            r.component@ == component@,
            r.port is None,
    {
        OutputId { component, port: None }
    }

    /// The identifier of a named output stream.
    pub fn with_port(component: ComponentKey, port: String) -> (r: Self)
        ensures
            r.component@ == component@,
            r.port matches Some(p) && p@ == port@,
    {
        OutputId { component, port: Some(port) }
    }

    /// The view of the port, if any.
    pub open spec fn port_view(&self) -> Option<Seq<char>> {
        match self.port {
            None => None,
            Some(p) => Some(p@),
        }
    }

    /// The wire form: `name`, or `name.port` for a named stream.
    pub fn to_text(&self) -> (r: String)
        ensures
            r@ == spec_output_text(self.component@, self.port_view()),
    {
        match &self.port {
            None => {
                let mut s = String::new();
                s.append(self.component.id());
                proof {
                    assert(s@ =~= self.component@);
                }
                s
            },
            Some(p) => {
                let mut s = String::new();
                s.append(self.component.id());
                s.append(".");
                s.append(p.as_str());
                s
            },
        }
    }
}

impl Clone for OutputId {
    fn clone(&self) -> (r: Self)
        ensures
            r.component@ == self.component@,
            r.port_view() == self.port_view(),
    {
        OutputId {
            component: self.component.clone(),
            port: match &self.port {
                None => None,
                Some(p) => Some(p.clone()),
            },
        }
    }
}

} // verus!
