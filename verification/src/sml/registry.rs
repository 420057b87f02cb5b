//! The registry of the first skill markup: interfaces and implementations by name, with
//! the check that every implementation names a known interface.
use vstd::prelude::*;

use crate::ast::{dup_opt, opt_view, Str};
use crate::sml::ast::{NodeKind, SpecNodeKind};
use crate::text::{join3, str_eq};

verus! {

/// Metadata for a registered interface.
#[derive(Debug, Clone)]
pub struct InterfaceEntry {
    pub name: String,
    pub description: Option<String>,
}

/// Metadata for a registered implementation.
#[derive(Debug, Clone)]
pub struct ImplementationEntry {
    pub name: String,
    pub implements: String,
    pub language: Option<String>,
    pub framework: Option<String>,
    pub description: Option<String>,
    /// Higher priority wins during resolution (default: 0).
    pub priority: i32,
}

/// Registry error types.
#[derive(Debug, Clone, PartialEq, Eq)]
pub enum RegistryError {
    DuplicateInterface(String),
    DuplicateImplementation(String),
    ImplementsUnknownInterface { implementation: String, interface: String },
}

/// The skill registry holds all known interfaces and implementations.
#[derive(Debug)]
pub struct SkillRegistry {
    interfaces: Vec<InterfaceEntry>,
    implementations: Vec<ImplementationEntry>,
}

pub struct SpecInterfaceEntry {
    pub name: Str,
    pub description: Option<Str>,
}

pub struct SpecImplementationEntry {
    pub name: Str,
    pub implements: Str,
    pub language: Option<Str>,
    pub framework: Option<Str>,
    pub description: Option<Str>,
    pub priority: i32,
}

pub enum SpecRegistryError {
    DuplicateInterface(Str),
    DuplicateImplementation(Str),
    ImplementsUnknownInterface { implementation: Str, interface: Str },
}

/// Interfaces and implementations in registration order.
#[verifier::ext_equal]
pub struct SpecRegistry {
    pub interfaces: Seq<SpecInterfaceEntry>,
    pub implementations: Seq<SpecImplementationEntry>,
}

impl View for InterfaceEntry {
    type V = SpecInterfaceEntry;

    open spec fn view(&self) -> SpecInterfaceEntry {
        SpecInterfaceEntry { name: self.name@, description: opt_view(self.description) }
    }
}

impl DeepView for InterfaceEntry {
    type V = SpecInterfaceEntry;

    open spec fn deep_view(&self) -> SpecInterfaceEntry {
        self@
    }
}

impl View for ImplementationEntry {
    type V = SpecImplementationEntry;

    open spec fn view(&self) -> SpecImplementationEntry {
        SpecImplementationEntry {
            name: self.name@,
            implements: self.implements@,
            language: opt_view(self.language),
            framework: opt_view(self.framework),
            description: opt_view(self.description),
            priority: self.priority,
        }
    }
}

impl DeepView for ImplementationEntry {
    type V = SpecImplementationEntry;

    open spec fn deep_view(&self) -> SpecImplementationEntry {
        self@
    }
}

impl View for RegistryError {
    type V = SpecRegistryError;

    open spec fn view(&self) -> SpecRegistryError {
        match self {
            RegistryError::DuplicateInterface(n) => SpecRegistryError::DuplicateInterface(n@),
            RegistryError::DuplicateImplementation(n) => SpecRegistryError::DuplicateImplementation(n@),
            RegistryError::ImplementsUnknownInterface { implementation, interface } =>
                SpecRegistryError::ImplementsUnknownInterface {
                implementation: implementation@,
                interface: interface@,
            },
        }
    }
}

impl DeepView for RegistryError {
    type V = SpecRegistryError;

    open spec fn deep_view(&self) -> SpecRegistryError {
        self@
    }
}

impl View for SkillRegistry {
    type V = SpecRegistry;

    closed spec fn view(&self) -> SpecRegistry {
        SpecRegistry {
            interfaces: self.interfaces.deep_view(),
            implementations: self.implementations.deep_view(),
        }
    }
}

pub open spec fn has_interface(r: SpecRegistry, name: Str) -> bool {
    exists|i: int| 0 <= i < r.interfaces.len() && r.interfaces[i].name == name
}

pub open spec fn has_implementation(r: SpecRegistry, name: Str) -> bool {
    exists|i: int| 0 <= i < r.implementations.len() && r.implementations[i].name == name
}

/// The interface registered under `name`, if any.
pub open spec fn find_interface(r: SpecRegistry, name: Str) -> Option<SpecInterfaceEntry> {
    if has_interface(r, name) {
        Some(r.interfaces[choose|i: int| 0 <= i < r.interfaces.len() && r.interfaces[i].name == name])
    } else {
        None
    }
}

/// The implementation registered under `name`, if any.
pub open spec fn find_implementation(r: SpecRegistry, name: Str) -> Option<SpecImplementationEntry> {
    if has_implementation(r, name) {
        Some(
            r.implementations[choose|i: int|
                0 <= i < r.implementations.len() && r.implementations[i].name == name],
        )
    } else {
        None
    }
}

/// Interface names are distinct, and so are implementation names.
pub open spec fn registry_wf(r: SpecRegistry) -> bool {
    &&& forall|i: int, j: int|
        0 <= i < j < r.interfaces.len() ==> r.interfaces[i].name != r.interfaces[j].name
    &&& forall|i: int, j: int|
        0 <= i < j < r.implementations.len() ==> r.implementations[i].name
            != r.implementations[j].name
}

/// The implementations of `interface`, in registration order.
pub open spec fn impls_of(impls: Seq<SpecImplementationEntry>, interface: Str) -> Seq<SpecImplementationEntry>
    decreases impls.len(),
{
    if impls.len() == 0 {
        impls
    } else if impls.last().implements == interface {
        impls_of(impls.drop_last(), interface).push(impls.last())
    } else {
        impls_of(impls.drop_last(), interface)
    }
}

/// One error for each implementation (in registration order) of an unknown interface.
pub open spec fn unknown_impl_errors(r: SpecRegistry, impls: Seq<SpecImplementationEntry>) -> Seq<SpecRegistryError>
    decreases impls.len(),
{
    if impls.len() == 0 {
        Seq::empty()
    } else {
        let prev = unknown_impl_errors(r, impls.drop_last());
        let e = impls.last();
        if has_interface(r, e.implements) {
            prev
        } else {
            prev.push(SpecRegistryError::ImplementsUnknownInterface { implementation: e.name, interface: e.implements })
        }
    }
}

/// The registry after registering the definition that `k` describes, if that succeeds.
pub open spec fn after_registering(r: SpecRegistry, k: SpecNodeKind) -> Result<SpecRegistry, SpecRegistryError> {
    match k {
        SpecNodeKind::InterfaceDefinition { name, description } => if has_interface(r, name) {
            Err(SpecRegistryError::DuplicateInterface(name))
        } else {
            Ok(SpecRegistry {
                interfaces: r.interfaces.push(SpecInterfaceEntry { name, description }),
                implementations: r.implementations,
            })
        },
        SpecNodeKind::ImplementationDefinition { name, implements, language, framework, description } =>
            if has_implementation(r, name) {
            Err(SpecRegistryError::DuplicateImplementation(name))
        } else {
            Ok(SpecRegistry {
                interfaces: r.interfaces,
                implementations: r.implementations.push(
                    SpecImplementationEntry { name, implements, language, framework, description, priority: 0 },
                ),
            })
        },
        SpecNodeKind::Invocation { .. } => Ok(r),
    }
}

impl SkillRegistry {
    #[verifier::type_invariant]
    spec fn inv(self) -> bool {
        registry_wf(self@)
    }

    pub fn new() -> (r: Self)
        ensures
            r@.interfaces.len() == 0,
            r@.implementations.len() == 0,
    {
        SkillRegistry { interfaces: Vec::new(), implementations: Vec::new() }
    }

    fn interface_index(&self, name: &str) -> (r: Option<usize>)
        ensures
            match r {
                Some(i) => i < self@.interfaces.len() && self@.interfaces[i as int].name == name@,
                None => !has_interface(self@, name@),
            },
    {
        let mut i: usize = 0;
        while i < self.interfaces.len()
            invariant
                0 <= i <= self.interfaces@.len(),
                forall|j: int| 0 <= j < i ==> self@.interfaces[j].name != name@,
            decreases self.interfaces@.len() - i,
        {
            if str_eq(self.interfaces[i].name.as_str(), name) {
                return Some(i);
            }
            i = i + 1;
        }
        None
    }

    fn implementation_index(&self, name: &str) -> (r: Option<usize>)
        ensures
            match r {
                Some(i) => i < self@.implementations.len() && self@.implementations[i as int].name == name@,
                None => !has_implementation(self@, name@),
            },
    {
        let mut i: usize = 0;
        while i < self.implementations.len()
            invariant
                0 <= i <= self.implementations@.len(),
                forall|j: int| 0 <= j < i ==> self@.implementations[j].name != name@,
            decreases self.implementations@.len() - i,
        {
            if str_eq(self.implementations[i].name.as_str(), name) {
                return Some(i);
            }
            i = i + 1;
        }
        None
    }

    /// Register an interface definition.
    pub fn register_interface(&mut self, name: String, description: Option<String>) -> (r: Result<(), RegistryError>)
        ensures
            has_interface(old(self)@, name@) ==> (r matches Err(e) && e@ == SpecRegistryError::DuplicateInterface(name@))
                && final(self)@ == old(self)@,
            !has_interface(old(self)@, name@) ==> r is Ok && final(self)@ == (SpecRegistry {
                interfaces: old(self)@.interfaces.push(
                    SpecInterfaceEntry { name: name@, description: opt_view(description) },
                ),
                implementations: old(self)@.implementations,
            }),
    {
        proof {
            use_type_invariant(&*self);
        }
        if self.interface_index(name.as_str()).is_some() {
            return Err(RegistryError::DuplicateInterface(name));
        }
        let entry = InterfaceEntry { name, description };
        let ghost e = entry@;
        let mut all: Vec<InterfaceEntry> = Vec::new();
        std::mem::swap(&mut all, &mut self.interfaces);
        all.push(entry);
        proof {
            let ns = all.deep_view();
            assert(ns =~= old(self)@.interfaces.push(e));
            assert forall|i: int, j: int| 0 <= i < j < ns.len() implies ns[i].name != ns[j].name by {
                assert(ns[i] == old(self)@.interfaces[i]);
                if j < ns.len() - 1 {
                    assert(ns[j] == old(self)@.interfaces[j]);
                }
            }
        }
        self.interfaces = all;
        assert(self.interfaces.deep_view() =~= old(self)@.interfaces.push(e));
        Ok(())
    }

    /// Register an implementation definition.
    pub fn register_implementation(
        &mut self,
        name: String,
        implements: String,
        language: Option<String>,
        framework: Option<String>,
        description: Option<String>,
        priority: i32,
    ) -> (r: Result<(), RegistryError>)
        ensures
            has_implementation(old(self)@, name@) ==> (r matches Err(e) && e@
                == SpecRegistryError::DuplicateImplementation(name@)) && final(self)@ == old(self)@,
            !has_implementation(old(self)@, name@) ==> r is Ok && final(self)@ == (SpecRegistry {
                interfaces: old(self)@.interfaces,
                implementations: old(self)@.implementations.push(
                    SpecImplementationEntry {
                        name: name@,
                        implements: implements@,
                        language: opt_view(language),
                        framework: opt_view(framework),
                        description: opt_view(description),
                        priority,
                    },
                ),
            }),
    {
        proof {
            use_type_invariant(&*self);
        }
        if self.implementation_index(name.as_str()).is_some() {
            return Err(RegistryError::DuplicateImplementation(name));
        }
        let entry = ImplementationEntry { name, implements, language, framework, description, priority };
        let ghost e = entry@;
        let mut all: Vec<ImplementationEntry> = Vec::new();
        std::mem::swap(&mut all, &mut self.implementations);
        all.push(entry);
        proof {
            let ns = all.deep_view();
            assert(ns =~= old(self)@.implementations.push(e));
            assert forall|i: int, j: int| 0 <= i < j < ns.len() implies ns[i].name != ns[j].name by {
                assert(ns[i] == old(self)@.implementations[i]);
                if j < ns.len() - 1 {
                    assert(ns[j] == old(self)@.implementations[j]);
                }
            }
        }
        self.implementations = all;
        assert(self.implementations.deep_view() =~= old(self)@.implementations.push(e));
        Ok(())
    }

    /// Register the definition that `kind` describes; invocations are not registered.
    pub fn register_from_node_kind(&mut self, kind: &NodeKind) -> (r: Result<(), RegistryError>)
        ensures
            match after_registering(old(self)@, kind@) {
                Ok(next) => r is Ok && final(self)@ == next,
                Err(e) => (r matches Err(x) && x@ == e) && final(self)@ == old(self)@,
            },
    {
        match kind {
            NodeKind::InterfaceDefinition { name, description } => {
                self.register_interface(name.clone(), dup_opt(description))
            },
            NodeKind::ImplementationDefinition { name, implements, language, framework, description } => {
                self.register_implementation(
                    name.clone(),
                    implements.clone(),
                    dup_opt(language),
                    dup_opt(framework),
                    dup_opt(description),
                    0,
                )
            },
            NodeKind::Invocation { .. } => Ok(()),
        }
    }

    /// Look up an implementation by exact name.
    pub fn get_implementation(&self, name: &str) -> (r: Option<&ImplementationEntry>)
        ensures
            match r {
                Some(e) => find_implementation(self@, name@) == Some(e@),
                None => find_implementation(self@, name@) is None,
            },
    {
        proof {
            use_type_invariant(self);
        }
        match self.implementation_index(name) {
            Some(i) => {
                proof {
                    lemma_find_implementation_at(self@, i as int);
                }
                Some(&self.implementations[i])
            },
            None => None,
        }
    }

    /// Look up an interface by name.
    pub fn get_interface(&self, name: &str) -> (r: Option<&InterfaceEntry>)
        ensures
            match r {
                Some(e) => find_interface(self@, name@) == Some(e@),
                None => find_interface(self@, name@) is None,
            },
    {
        proof {
            use_type_invariant(self);
        }
        match self.interface_index(name) {
            Some(i) => {
                proof {
                    lemma_find_interface_at(self@, i as int);
                }
                Some(&self.interfaces[i])
            },
            None => None,
        }
    }

    /// All implementations of `interface`, in registration order.
    pub fn implementations_for(&self, interface: &str) -> (r: Vec<&ImplementationEntry>)
        ensures
            r@.map_values(|e: &ImplementationEntry| e@) == impls_of(self@.implementations, interface@),
    {
        let ghost all = self@.implementations;
        let mut r: Vec<&ImplementationEntry> = Vec::new();
        let mut i: usize = 0;
        while i < self.implementations.len()
            invariant
                0 <= i <= self.implementations@.len(),
                all == self@.implementations,
                r@.map_values(|e: &ImplementationEntry| e@) == impls_of(all.take(i as int), interface@),
            decreases self.implementations@.len() - i,
        {
            assert(all.take(i + 1).drop_last() =~= all.take(i as int));
            assert(all.take(i + 1).last() == self.implementations@[i as int]@);
            if str_eq(self.implementations[i].implements.as_str(), interface) {
                let ghost before = r@.map_values(|e: &ImplementationEntry| e@);
                r.push(&self.implementations[i]);
                assert(r@.map_values(|e: &ImplementationEntry| e@) =~= before.push(self.implementations@[i as int]@));
            }
            i = i + 1;
        }
        assert(all.take(self.implementations@.len() as int) =~= all);
        r
    }

    /// Every implementation, in registration order, that names an unknown interface.
    pub fn validate(&self) -> (errs: Vec<RegistryError>)
        ensures
            errs.deep_view() == unknown_impl_errors(self@, self@.implementations),
    {
        let ghost r = self@;
        let mut errs: Vec<RegistryError> = Vec::new();
        let mut i: usize = 0;
        while i < self.implementations.len()
            invariant
                0 <= i <= self.implementations@.len(),
                r == self@,
                errs.deep_view() == unknown_impl_errors(r, r.implementations.take(i as int)),
            decreases r.implementations.len() - i,
        {
            assert(r.implementations.take(i + 1).drop_last() =~= r.implementations.take(i as int));
            assert(r.implementations.take(i + 1).last() == self.implementations@[i as int]@);
            let e = &self.implementations[i];
            if self.interface_index(e.implements.as_str()).is_none() {
                let ghost before = errs.deep_view();
                errs.push(
                    RegistryError::ImplementsUnknownInterface {
                        implementation: e.name.clone(),
                        interface: e.implements.clone(),
                    },
                );
                assert(errs.deep_view() =~= before.push(errs@.last().deep_view()));
            }
            i = i + 1;
        }
        assert(r.implementations.take(r.implementations.len() as int) =~= r.implementations);
        errs
    }
}

/// With distinct names, the interface found under a registered name is the one at its index.
proof fn lemma_find_interface_at(r: SpecRegistry, i: int)
    requires
        registry_wf(r),
        0 <= i < r.interfaces.len(),
    ensures
        find_interface(r, r.interfaces[i].name) == Some(r.interfaces[i]),
{
    let name = r.interfaces[i].name;
    assert(has_interface(r, name));
    let j = choose|j: int| 0 <= j < r.interfaces.len() && r.interfaces[j].name == name;
    if j < i {
        assert(r.interfaces[j].name != r.interfaces[i].name);
    } else if j > i {
        assert(r.interfaces[i].name != r.interfaces[j].name);
    }
}

/// With distinct names, the implementation found under a registered name is the one at its
/// index.
proof fn lemma_find_implementation_at(r: SpecRegistry, i: int)
    requires
        registry_wf(r),
        0 <= i < r.implementations.len(),
    ensures
        find_implementation(r, r.implementations[i].name) == Some(r.implementations[i]),
{
    let name = r.implementations[i].name;
    assert(has_implementation(r, name));
    let j = choose|j: int| 0 <= j < r.implementations.len() && r.implementations[j].name == name;
    if j < i {
        assert(r.implementations[j].name != r.implementations[i].name);
    } else if j > i {
        assert(r.implementations[i].name != r.implementations[j].name);
    }
}

impl RegistryError {
    /// The error message.
    pub fn to_string(&self) -> (s: String)
        ensures
            s@ == match self@ {
                SpecRegistryError::DuplicateInterface(n) => "duplicate interface definition: '"@ + n + "'"@,
                SpecRegistryError::DuplicateImplementation(n) => "duplicate implementation definition: '"@ + n
                    + "'"@,
                SpecRegistryError::ImplementsUnknownInterface { implementation, interface } =>
                    "implementation '"@ + implementation + "' references unknown interface '"@ + interface
                    + "'"@,
            },
    {
        match self {
            RegistryError::DuplicateInterface(name) => join3("duplicate interface definition: '", name.as_str(), "'"),
            RegistryError::DuplicateImplementation(name) => join3(
                "duplicate implementation definition: '",
                name.as_str(),
                "'",
            ),
            RegistryError::ImplementsUnknownInterface { implementation, interface } => {
                let mut s = join3("implementation '", implementation.as_str(), "' references unknown interface '");
                s.append(interface.as_str());
                s.append("'");
                s
            },
        }
    }
}


// ---------------------------------------------------------------------------
// Laws
// ---------------------------------------------------------------------------

/// The registry with `e` registered as a new interface.
pub open spec fn with_interface(r: SpecRegistry, e: SpecInterfaceEntry) -> SpecRegistry {
    SpecRegistry { interfaces: r.interfaces.push(e), implementations: r.implementations }
}

/// The registry with `e` registered as a new implementation.
pub open spec fn with_implementation(r: SpecRegistry, e: SpecImplementationEntry) -> SpecRegistry {
    SpecRegistry { interfaces: r.interfaces, implementations: r.implementations.push(e) }
}

/// Registering a new interface keeps names distinct; afterwards its name finds it, and
/// every other lookup finds what it found before.
pub proof fn law_register_interface_then_find(r: SpecRegistry, e: SpecInterfaceEntry)
    requires
        registry_wf(r),
        !has_interface(r, e.name),
    ensures
        registry_wf(with_interface(r, e)),
        find_interface(with_interface(r, e), e.name) == Some(e),
        forall|m: Str| m != e.name ==> #[trigger] find_interface(with_interface(r, e), m) == find_interface(r, m),
        forall|m: Str| #[trigger] find_implementation(with_interface(r, e), m) == find_implementation(r, m),
{
    let r2 = with_interface(r, e);
    let n = r.interfaces.len() as int;
    assert forall|i: int, j: int| 0 <= i < j < r2.interfaces.len() implies r2.interfaces[i].name != r2.interfaces[j].name by {
        assert(r2.interfaces[i] == r.interfaces[i]);
        if j < n {
            assert(r2.interfaces[j] == r.interfaces[j]);
        } else {
            assert(!(r.interfaces[i].name == e.name));
        }
    }
    assert(r2.interfaces[n] == e);
    lemma_find_interface_at(r2, n);
    assert forall|m: Str| m != e.name implies #[trigger] find_interface(r2, m) == find_interface(r, m) by {
        if has_interface(r, m) {
            let i = choose|i: int| 0 <= i < r.interfaces.len() && r.interfaces[i].name == m;
            lemma_find_interface_at(r, i);
            assert(r2.interfaces[i] == r.interfaces[i]);
            lemma_find_interface_at(r2, i);
        } else {
            assert(!has_interface(r2, m)) by {
                if has_interface(r2, m) {
                    let i = choose|i: int| 0 <= i < r2.interfaces.len() && r2.interfaces[i].name == m;
                    assert(i < n);
                    assert(r2.interfaces[i] == r.interfaces[i]);
                }
            }
        }
    }
}

/// Registering a new implementation keeps names distinct; afterwards its name finds it,
/// and every other lookup finds what it found before.
pub proof fn law_register_implementation_then_find(r: SpecRegistry, e: SpecImplementationEntry)
    requires
        registry_wf(r),
        !has_implementation(r, e.name),
    ensures
        registry_wf(with_implementation(r, e)),
        find_implementation(with_implementation(r, e), e.name) == Some(e),
        forall|m: Str| m != e.name ==> #[trigger] find_implementation(with_implementation(r, e), m) == find_implementation(r, m),
        forall|m: Str| #[trigger] find_interface(with_implementation(r, e), m) == find_interface(r, m),
{
    let r2 = with_implementation(r, e);
    let n = r.implementations.len() as int;
    assert forall|i: int, j: int| 0 <= i < j < r2.implementations.len() implies r2.implementations[i].name != r2.implementations[j].name by {
        assert(r2.implementations[i] == r.implementations[i]);
        if j < n {
            assert(r2.implementations[j] == r.implementations[j]);
        } else {
            assert(!(r.implementations[i].name == e.name));
        }
    }
    assert(r2.implementations[n] == e);
    lemma_find_implementation_at(r2, n);
    assert forall|m: Str| m != e.name implies #[trigger] find_implementation(r2, m) == find_implementation(r, m) by {
        if has_implementation(r, m) {
            let i = choose|i: int| 0 <= i < r.implementations.len() && r.implementations[i].name == m;
            lemma_find_implementation_at(r, i);
            assert(r2.implementations[i] == r.implementations[i]);
            lemma_find_implementation_at(r2, i);
        } else {
            assert(!has_implementation(r2, m)) by {
                if has_implementation(r2, m) {
                    let i = choose|i: int| 0 <= i < r2.implementations.len() && r2.implementations[i].name == m;
                    assert(i < n);
                    assert(r2.implementations[i] == r.implementations[i]);
                }
            }
        }
    }
}

/// The implementations listed for an interface are exactly the registered ones that
/// implement it.
pub proof fn law_implementations_for_are_exactly_the_implementers(impls: Seq<SpecImplementationEntry>, f: Str)
    ensures
        forall|e: SpecImplementationEntry| #[trigger] impls_of(impls, f).contains(e) <==> (impls.contains(e) && e.implements == f),
    decreases impls.len(),
{
    if impls.len() > 0 {
        law_implementations_for_are_exactly_the_implementers(impls.drop_last(), f);
        let prev = impls_of(impls.drop_last(), f);
        assert forall|e: SpecImplementationEntry| #[trigger] impls_of(impls, f).contains(e) <==> (impls.contains(e) && e.implements == f) by {
            if impls.contains(e) {
                let k = choose|k: int| 0 <= k < impls.len() && impls[k] == e;
                if k < impls.len() - 1 {
                    assert(impls.drop_last()[k] == e);
                }
            }
            if impls.drop_last().contains(e) {
                let k = choose|k: int| 0 <= k < impls.drop_last().len() && impls.drop_last()[k] == e;
                assert(impls[k] == e);
            }
            if impls.last().implements == f {
                assert(impls_of(impls, f) == prev.push(impls.last()));
                if prev.push(impls.last()).contains(e) {
                    let k = choose|k: int| 0 <= k < prev.len() + 1 && prev.push(impls.last())[k] == e;
                    if k < prev.len() {
                        assert(prev[k] == e);
                    }
                }
                if prev.contains(e) {
                    let k = choose|k: int| 0 <= k < prev.len() && prev[k] == e;
                    assert(prev.push(impls.last())[k] == e);
                }
                assert(prev.push(impls.last())[prev.len() as int] == impls.last());
            }
        }
    }
}

/// The registry check reports an implementation exactly when its interface is unknown.
pub proof fn law_validate_reports_exactly_unknown_interfaces(r: SpecRegistry, impls: Seq<SpecImplementationEntry>, e: SpecImplementationEntry)
    ensures
        unknown_impl_errors(r, impls).contains(
            SpecRegistryError::ImplementsUnknownInterface { implementation: e.name, interface: e.implements },
        ) <==> exists|k: int| 0 <= k < impls.len() && impls[k].name == e.name && impls[k].implements == e.implements
            && !has_interface(r, e.implements),
    decreases impls.len(),
{
    let x = SpecRegistryError::ImplementsUnknownInterface { implementation: e.name, interface: e.implements };
    if impls.len() > 0 {
        law_validate_reports_exactly_unknown_interfaces(r, impls.drop_last(), e);
        let prev = unknown_impl_errors(r, impls.drop_last());
        let l = impls.last();
        let y = SpecRegistryError::ImplementsUnknownInterface { implementation: l.name, interface: l.implements };
        if exists|k: int| 0 <= k < impls.drop_last().len() && impls.drop_last()[k].name == e.name && impls.drop_last()[k].implements == e.implements
            && !has_interface(r, e.implements) {
            let k = choose|k: int| 0 <= k < impls.drop_last().len() && impls.drop_last()[k].name == e.name && impls.drop_last()[k].implements == e.implements
                && !has_interface(r, e.implements);
            assert(impls[k] == impls.drop_last()[k]);
        }
        if !has_interface(r, l.implements) {
            assert(unknown_impl_errors(r, impls) == prev.push(y));
            if prev.push(y).contains(x) {
                let k = choose|k: int| 0 <= k < prev.len() + 1 && prev.push(y)[k] == x;
                if k < prev.len() {
                    assert(prev[k] == x);
                }
            }
            if prev.contains(x) {
                let k = choose|k: int| 0 <= k < prev.len() && prev[k] == x;
                assert(prev.push(y)[k] == x);
            }
            assert(prev.push(y)[prev.len() as int] == y);
        }
        if exists|k: int| 0 <= k < impls.len() && impls[k].name == e.name && impls[k].implements == e.implements
            && !has_interface(r, e.implements) {
            let k = choose|k: int| 0 <= k < impls.len() && impls[k].name == e.name && impls[k].implements == e.implements
                && !has_interface(r, e.implements);
            if k < impls.len() - 1 {
                assert(impls.drop_last()[k] == impls[k]);
            }
        }
    }
}

} // verus!
