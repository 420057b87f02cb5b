//! The skill registry: known interfaces and implementations, with lookups and
//! consistency checks of the `implements` and `extends` references.
use vstd::prelude::*;

use crate::ast::{
    dup_node_decls, dup_opt, dup_opt_io, dup_param_decls, dup_return_decls, dup_skill_refs,
    dup_tool_constraints, opt_io_view, opt_view, IoDecl, NodeDecl, NodeKind, ParamDecl,
    ReturnDecl, SkillRef, SpecIoDecl, SpecNodeDecl, SpecNodeKind, SpecParamDecl, SpecReturnDecl,
    SpecSkillRef, SpecToolConstraint, Str, ToolConstraint,
};
use crate::text::{join3, str_eq, str_lt};

verus! {

/// Metadata for a registered interface.
#[derive(Debug, Clone)]
pub struct InterfaceEntry {
    pub name: String,
    /// Parent interface name for interface inheritance (`extends=`).
    /// This is metadata only — resolution does not traverse the hierarchy.
    pub extends: Option<String>,
    pub description: Option<String>,
    /// Typed parameter declarations (empty for text-only interfaces).
    pub params: Vec<ParamDecl>,
    /// Return value declarations.
    pub return_decls: Vec<ReturnDecl>,
    /// File-read declarations.
    pub reads: Option<IoDecl>,
    /// File-write declarations.
    pub writes: Option<IoDecl>,
    /// Skill references (e.g. DDE enforcement).
    pub skill_refs: Vec<SkillRef>,
    /// Tool constraints as part of the interface contract.
    pub tool_constraints: Vec<ToolConstraint>,
}

/// Metadata for a registered implementation.
#[derive(Debug, Clone)]
pub struct ImplementationEntry {
    pub name: String,
    pub implements: String,
    pub language: Option<String>,
    pub framework: Option<String>,
    pub description: Option<String>,
    /// Higher priority wins during resolution (default: 0).
    pub priority: i32,
    /// DDE node declarations.
    pub nodes: Vec<NodeDecl>,
}

/// Registry error types.
#[derive(Debug, Clone, PartialEq, Eq)]
pub enum RegistryError {
    DuplicateInterface(String),
    DuplicateImplementation(String),
    ImplementsUnknownInterface { implementation: String, interface: String },
    ExtendsUnknownInterface { child: String, parent: String },
    ExtendsInterfaceCycle {
        /// The cycle path, e.g. `"A -> B -> C -> A"`.
        cycle: String,
    },
}

/// The skill registry holds all known interfaces and implementations.
#[derive(Debug)]
pub struct SkillRegistry {
    interfaces: Vec<InterfaceEntry>,
    implementations: Vec<ImplementationEntry>,
}

// ---------------------------------------------------------------------------
// Models
// ---------------------------------------------------------------------------

pub struct SpecInterfaceEntry {
    pub name: Str,
    pub extends: Option<Str>,
    pub description: Option<Str>,
    pub params: Seq<SpecParamDecl>,
    pub return_decls: Seq<SpecReturnDecl>,
    pub reads: Option<SpecIoDecl>,
    pub writes: Option<SpecIoDecl>,
    pub skill_refs: Seq<SpecSkillRef>,
    pub tool_constraints: Seq<SpecToolConstraint>,
}

pub struct SpecImplementationEntry {
    pub name: Str,
    pub implements: Str,
    pub language: Option<Str>,
    pub framework: Option<Str>,
    pub description: Option<Str>,
    pub priority: i32,
    pub nodes: Seq<SpecNodeDecl>,
}

pub enum SpecRegistryError {
    DuplicateInterface(Str),
    DuplicateImplementation(Str),
    ImplementsUnknownInterface { implementation: Str, interface: Str },
    ExtendsUnknownInterface { child: Str, parent: Str },
    ExtendsInterfaceCycle { cycle: Str },
}

/// Interfaces and implementations in registration order.
#[verifier::ext_equal]
pub struct SpecRegistry {
    pub interfaces: Seq<SpecInterfaceEntry>,
    pub implementations: Seq<SpecImplementationEntry>,
}

impl View for InterfaceEntry {
    type V = SpecInterfaceEntry;

    open spec fn view(&self) -> SpecInterfaceEntry {
        SpecInterfaceEntry {
            name: self.name@,
            extends: opt_view(self.extends),
            description: opt_view(self.description),
            params: self.params.deep_view(),
            return_decls: self.return_decls.deep_view(),
            reads: opt_io_view(self.reads),
            writes: opt_io_view(self.writes),
            skill_refs: self.skill_refs.deep_view(),
            tool_constraints: self.tool_constraints.deep_view(),
        }
    }
}

impl DeepView for InterfaceEntry {
    type V = SpecInterfaceEntry;

    open spec fn deep_view(&self) -> SpecInterfaceEntry {
        self@
    }
}

impl View for ImplementationEntry {
    type V = SpecImplementationEntry;

    open spec fn view(&self) -> SpecImplementationEntry {
        SpecImplementationEntry {
            name: self.name@,
            implements: self.implements@,
            language: opt_view(self.language),
            framework: opt_view(self.framework),
            description: opt_view(self.description),
            priority: self.priority,
            nodes: self.nodes.deep_view(),
        }
    }
}

impl DeepView for ImplementationEntry {
    type V = SpecImplementationEntry;

    open spec fn deep_view(&self) -> SpecImplementationEntry {
        self@
    }
}

impl View for RegistryError {
    type V = SpecRegistryError;

    open spec fn view(&self) -> SpecRegistryError {
        match self {
            RegistryError::DuplicateInterface(n) => SpecRegistryError::DuplicateInterface(n@),
            RegistryError::DuplicateImplementation(n) => SpecRegistryError::DuplicateImplementation(
                n@,
            ),
            RegistryError::ImplementsUnknownInterface { implementation, interface } =>
                SpecRegistryError::ImplementsUnknownInterface {
                implementation: implementation@,
                interface: interface@,
            },
            RegistryError::ExtendsUnknownInterface { child, parent } =>
                SpecRegistryError::ExtendsUnknownInterface { child: child@, parent: parent@ },
            RegistryError::ExtendsInterfaceCycle { cycle } =>
                SpecRegistryError::ExtendsInterfaceCycle { cycle: cycle@ },
        }
    }
}

impl DeepView for RegistryError {
    type V = SpecRegistryError;

    open spec fn deep_view(&self) -> SpecRegistryError {
        self@
    }
}

impl View for SkillRegistry {
    type V = SpecRegistry;

    closed spec fn view(&self) -> SpecRegistry {
        SpecRegistry {
            interfaces: self.interfaces.deep_view(),
            implementations: self.implementations.deep_view(),
        }
    }
}

// ---------------------------------------------------------------------------
// Lookups
// ---------------------------------------------------------------------------

pub open spec fn has_interface(r: SpecRegistry, name: Str) -> bool {
    exists|i: int| 0 <= i < r.interfaces.len() && r.interfaces[i].name == name
}

pub open spec fn has_implementation(r: SpecRegistry, name: Str) -> bool {
    exists|i: int| 0 <= i < r.implementations.len() && r.implementations[i].name == name
}

/// The interface registered under `name`, if any.
pub open spec fn find_interface(r: SpecRegistry, name: Str) -> Option<SpecInterfaceEntry> {
    if has_interface(r, name) {
        Some(
            r.interfaces[choose|i: int|
                0 <= i < r.interfaces.len() && r.interfaces[i].name == name],
        )
    } else {
        None
    }
}

/// The implementation registered under `name`, if any.
pub open spec fn find_implementation(r: SpecRegistry, name: Str) -> Option<SpecImplementationEntry> {
    if has_implementation(r, name) {
        Some(
            r.implementations[choose|i: int|
                0 <= i < r.implementations.len() && r.implementations[i].name == name],
        )
    } else {
        None
    }
}

/// Interface names are distinct, and so are implementation names.
pub open spec fn registry_wf(r: SpecRegistry) -> bool {
    &&& forall|i: int, j: int|
        0 <= i < j < r.interfaces.len() ==> r.interfaces[i].name != r.interfaces[j].name
    &&& forall|i: int, j: int|
        0 <= i < j < r.implementations.len() ==> r.implementations[i].name
            != r.implementations[j].name
}

/// The implementations of `interface`, in registration order.
pub open spec fn impls_of(impls: Seq<SpecImplementationEntry>, interface: Str) -> Seq<SpecImplementationEntry>
    decreases impls.len(),
{
    if impls.len() == 0 {
        impls
    } else if impls.last().implements == interface {
        impls_of(impls.drop_last(), interface).push(impls.last())
    } else {
        impls_of(impls.drop_last(), interface)
    }
}

impl SkillRegistry {
    #[verifier::type_invariant]
    spec fn inv(self) -> bool {
        registry_wf(self@)
    }

    pub fn new() -> (r: Self)
        ensures
            r@.interfaces.len() == 0,
            r@.implementations.len() == 0,
    {
        SkillRegistry { interfaces: Vec::new(), implementations: Vec::new() }
    }

    fn interface_index(&self, name: &str) -> (r: Option<usize>)
        ensures
            match r {
                Some(i) => i < self@.interfaces.len() && self@.interfaces[i as int].name == name@,
                None => !has_interface(self@, name@),
            },
    {
        let mut i: usize = 0;
        while i < self.interfaces.len()
            invariant
                0 <= i <= self.interfaces@.len(),
                forall|j: int| 0 <= j < i ==> self@.interfaces[j].name != name@,
            decreases self.interfaces@.len() - i,
        {
            if str_eq(self.interfaces[i].name.as_str(), name) {
                return Some(i);
            }
            i = i + 1;
        }
        None
    }

    fn implementation_index(&self, name: &str) -> (r: Option<usize>)
        ensures
            match r {
                Some(i) => i < self@.implementations.len() && self@.implementations[i as int].name
                    == name@,
                None => !has_implementation(self@, name@),
            },
    {
        let mut i: usize = 0;
        while i < self.implementations.len()
            invariant
                0 <= i <= self.implementations@.len(),
                forall|j: int| 0 <= j < i ==> self@.implementations[j].name != name@,
            decreases self.implementations@.len() - i,
        {
            if str_eq(self.implementations[i].name.as_str(), name) {
                return Some(i);
            }
            i = i + 1;
        }
        None
    }

    /// Register an interface definition.
    pub fn register_interface(
        &mut self,
        name: String,
        extends: Option<String>,
        description: Option<String>,
        params: Vec<ParamDecl>,
        return_decls: Vec<ReturnDecl>,
        reads: Option<IoDecl>,
        writes: Option<IoDecl>,
        skill_refs: Vec<SkillRef>,
        tool_constraints: Vec<ToolConstraint>,
    ) -> (r: Result<(), RegistryError>)
        ensures
            has_interface(old(self)@, name@) ==> (r matches Err(e) && e@
                == SpecRegistryError::DuplicateInterface(name@)) && final(self)@ == old(self)@,
            !has_interface(old(self)@, name@) ==> r is Ok && final(self)@ == (SpecRegistry {
                interfaces: old(self)@.interfaces.push(
                    SpecInterfaceEntry {
                        name: name@,
                        extends: opt_view(extends),
                        description: opt_view(description),
                        params: params.deep_view(),
                        return_decls: return_decls.deep_view(),
                        reads: opt_io_view(reads),
                        writes: opt_io_view(writes),
                        skill_refs: skill_refs.deep_view(),
                        tool_constraints: tool_constraints.deep_view(),
                    },
                ),
                implementations: old(self)@.implementations,
            }),
    {
        proof {
            use_type_invariant(&*self);
        }
        if self.interface_index(name.as_str()).is_some() {
            return Err(RegistryError::DuplicateInterface(name));
        }
        let entry = InterfaceEntry {
            name,
            extends,
            description,
            params,
            return_decls,
            reads,
            writes,
            skill_refs,
            tool_constraints,
        };
        let ghost e = entry@;
        let mut all: Vec<InterfaceEntry> = Vec::new();
        std::mem::swap(&mut all, &mut self.interfaces);
        all.push(entry);
        proof {
            let ns = all.deep_view();
            assert(ns =~= old(self)@.interfaces.push(e));
            assert forall|i: int, j: int| 0 <= i < j < ns.len() implies ns[i].name != ns[j].name by {
                if j == ns.len() - 1 {
                    assert(ns[i] == old(self)@.interfaces[i]);
                } else {
                    assert(ns[i] == old(self)@.interfaces[i]);
                    assert(ns[j] == old(self)@.interfaces[j]);
                }
            }
        }
        self.interfaces = all;
        assert(self.interfaces.deep_view() =~= old(self)@.interfaces.push(e));
        Ok(())
    }

    /// Register an implementation definition.
    pub fn register_implementation(
        &mut self,
        name: String,
        implements: String,
        language: Option<String>,
        framework: Option<String>,
        description: Option<String>,
        priority: i32,
        nodes: Vec<NodeDecl>,
    ) -> (r: Result<(), RegistryError>)
        ensures
            has_implementation(old(self)@, name@) ==> (r matches Err(e) && e@
                == SpecRegistryError::DuplicateImplementation(name@)) && final(self)@ == old(self)@,
            !has_implementation(old(self)@, name@) ==> r is Ok && final(self)@ == (SpecRegistry {
                interfaces: old(self)@.interfaces,
                implementations: old(self)@.implementations.push(
                    SpecImplementationEntry {
                        name: name@,
                        implements: implements@,
                        language: opt_view(language),
                        framework: opt_view(framework),
                        description: opt_view(description),
                        priority,
                        nodes: nodes.deep_view(),
                    },
                ),
            }),
    {
        proof {
            use_type_invariant(&*self);
        }
        if self.implementation_index(name.as_str()).is_some() {
            return Err(RegistryError::DuplicateImplementation(name));
        }
        let entry = ImplementationEntry {
            name,
            implements,
            language,
            framework,
            description,
            priority,
            nodes,
        };
        let ghost e = entry@;
        let mut all: Vec<ImplementationEntry> = Vec::new();
        std::mem::swap(&mut all, &mut self.implementations);
        all.push(entry);
        proof {
            let ns = all.deep_view();
            assert(ns =~= old(self)@.implementations.push(e));
            assert forall|i: int, j: int| 0 <= i < j < ns.len() implies ns[i].name != ns[j].name by {
                if j == ns.len() - 1 {
                    assert(ns[i] == old(self)@.implementations[i]);
                } else {
                    assert(ns[i] == old(self)@.implementations[i]);
                    assert(ns[j] == old(self)@.implementations[j]);
                }
            }
        }
        self.implementations = all;
        assert(self.implementations.deep_view() =~= old(self)@.implementations.push(e));
        Ok(())
    }

    /// Register the definition that `kind` describes; invocations and contracts are not
    /// registered.
    pub fn register_from_node_kind(&mut self, kind: &NodeKind) -> (r: Result<(), RegistryError>)
        ensures
            match kind@ {
                SpecNodeKind::InterfaceDefinition {
                    name,
                    extends,
                    description,
                    params,
                    return_decls,
                    reads,
                    writes,
                    skill_refs,
                    tool_constraints,
                    ..
                } => if has_interface(old(self)@, name) {
                    (r matches Err(e) && e@ == SpecRegistryError::DuplicateInterface(name))
                        && final(self)@ == old(self)@
                } else {
                    r is Ok && final(self)@ == (SpecRegistry {
                        interfaces: old(self)@.interfaces.push(
                            SpecInterfaceEntry {
                                name,
                                extends,
                                description,
                                params,
                                return_decls,
                                reads,
                                writes,
                                skill_refs,
                                tool_constraints,
                            },
                        ),
                        implementations: old(self)@.implementations,
                    })
                },
                SpecNodeKind::ImplementationDefinition {
                    name,
                    implements,
                    language,
                    framework,
                    description,
                    nodes,
                    ..
                } => if has_implementation(old(self)@, name) {
                    (r matches Err(e) && e@ == SpecRegistryError::DuplicateImplementation(name))
                        && final(self)@ == old(self)@
                } else {
                    r is Ok && final(self)@ == (SpecRegistry {
                        interfaces: old(self)@.interfaces,
                        implementations: old(self)@.implementations.push(
                            SpecImplementationEntry {
                                name,
                                implements,
                                language,
                                framework,
                                description,
                                priority: 0,
                                nodes,
                            },
                        ),
                    })
                },
                _ => r is Ok && final(self)@ == old(self)@,
            },
    {
        match kind {
            NodeKind::InterfaceDefinition {
                name,
                extends,
                description,
                params,
                return_decls,
                reads,
                writes,
                skill_refs,
                tool_constraints,
                ..
            } => self.register_interface(
                name.clone(),
                dup_opt(extends),
                dup_opt(description),
                dup_param_decls(params),
                dup_return_decls(return_decls),
                dup_opt_io(reads),
                dup_opt_io(writes),
                dup_skill_refs(skill_refs),
                dup_tool_constraints(tool_constraints),
            ),
            NodeKind::ImplementationDefinition {
                name,
                implements,
                language,
                framework,
                description,
                nodes,
                ..
            } => self.register_implementation(
                name.clone(),
                implements.clone(),
                dup_opt(language),
                dup_opt(framework),
                dup_opt(description),
                0,
                dup_node_decls(nodes),
            ),
            _ => Ok(()),
        }
    }

    /// Look up an implementation by exact name.
    pub fn get_implementation(&self, name: &str) -> (r: Option<&ImplementationEntry>)
        ensures
            match r {
                Some(e) => find_implementation(self@, name@) == Some(e@),
                None => find_implementation(self@, name@) is None,
            },
    {
        proof {
            use_type_invariant(self);
        }
        match self.implementation_index(name) {
            Some(i) => Some(&self.implementations[i]),
            None => None,
        }
    }

    /// Look up an interface by name.
    pub fn get_interface(&self, name: &str) -> (r: Option<&InterfaceEntry>)
        ensures
            match r {
                Some(e) => find_interface(self@, name@) == Some(e@),
                None => find_interface(self@, name@) is None,
            },
    {
        proof {
            use_type_invariant(self);
        }
        match self.interface_index(name) {
            Some(i) => Some(&self.interfaces[i]),
            None => None,
        }
    }

    /// All implementations of `interface`, in registration order.
    pub fn implementations_for(&self, interface: &str) -> (r: Vec<&ImplementationEntry>)
        ensures
            r@.map_values(|e: &ImplementationEntry| e@) == impls_of(self@.implementations, interface@),
    {
        let ghost all = self@.implementations;
        let mut r: Vec<&ImplementationEntry> = Vec::new();
        let mut i: usize = 0;
        while i < self.implementations.len()
            invariant
                0 <= i <= self.implementations@.len(),
                all == self@.implementations,
                r@.map_values(|e: &ImplementationEntry| e@) == impls_of(all.take(i as int), interface@),
            decreases self.implementations@.len() - i,
        {
            assert(all.take(i + 1).drop_last() =~= all.take(i as int));
            assert(all.take(i + 1).last() == self.implementations@[i as int]@);
            if str_eq(self.implementations[i].implements.as_str(), interface) {
                let ghost before = r@.map_values(|e: &ImplementationEntry| e@);
                r.push(&self.implementations[i]);
                assert(r@.map_values(|e: &ImplementationEntry| e@) =~= before.push(
                    self.implementations@[i as int]@,
                ));
            }
            i = i + 1;
        }
        assert(all.take(self.implementations@.len() as int) =~= all);
        r
    }
}

impl InterfaceEntry {
    pub fn duplicate(&self) -> (r: Self)
        ensures
            r@ == self@,
    {
        InterfaceEntry {
            name: self.name.clone(),
            extends: dup_opt(&self.extends),
            description: dup_opt(&self.description),
            params: dup_param_decls(&self.params),
            return_decls: dup_return_decls(&self.return_decls),
            reads: dup_opt_io(&self.reads),
            writes: dup_opt_io(&self.writes),
            skill_refs: dup_skill_refs(&self.skill_refs),
            tool_constraints: dup_tool_constraints(&self.tool_constraints),
        }
    }
}

impl ImplementationEntry {
    pub fn duplicate(&self) -> (r: Self)
        ensures
            r@ == self@,
    {
        ImplementationEntry {
            name: self.name.clone(),
            implements: self.implements.clone(),
            language: dup_opt(&self.language),
            framework: dup_opt(&self.framework),
            description: dup_opt(&self.description),
            priority: self.priority,
            nodes: dup_node_decls(&self.nodes),
        }
    }
}

impl Clone for SkillRegistry {
    fn clone(&self) -> (r: Self)
        ensures
            r@ == self@,
    {
        proof {
            use_type_invariant(self);
        }
        let mut interfaces: Vec<InterfaceEntry> = Vec::new();
        let mut i: usize = 0;
        while i < self.interfaces.len()
            invariant
                0 <= i <= self.interfaces@.len(),
                interfaces@.len() == i,
                forall|j: int| 0 <= j < i ==> interfaces@[j]@ == self.interfaces@[j]@,
            decreases self.interfaces@.len() - i,
        {
            interfaces.push(self.interfaces[i].duplicate());
            i = i + 1;
        }
        let mut implementations: Vec<ImplementationEntry> = Vec::new();
        let mut k: usize = 0;
        while k < self.implementations.len()
            invariant
                0 <= k <= self.implementations@.len(),
                implementations@.len() == k,
                forall|j: int| 0 <= j < k ==> implementations@[j]@ == self.implementations@[j]@,
            decreases self.implementations@.len() - k,
        {
            implementations.push(self.implementations[k].duplicate());
            k = k + 1;
        }
        assert(interfaces.deep_view() =~= self.interfaces.deep_view());
        assert(implementations.deep_view() =~= self.implementations.deep_view());
        SkillRegistry { interfaces, implementations }
    }
}


// ---------------------------------------------------------------------------
// Consistency checks
// ---------------------------------------------------------------------------

/// The parent that `name` extends, when `name` is a registered interface with an `extends`.
pub open spec fn parent_of(r: SpecRegistry, name: Str) -> Option<Str> {
    match find_interface(r, name) {
        Some(e) => e.extends,
        None => None,
    }
}

/// `x` put into the ascending list `s` before the first name greater than it.
pub open spec fn insert_name(s: Seq<Str>, x: Str) -> Seq<Str>
    decreases s.len(),
{
    if s.len() == 0 {
        seq![x]
    } else if str_lt(x, s[0]) {
        seq![x] + s
    } else {
        seq![s[0]] + insert_name(s.skip(1), x)
    }
}

/// The names `ns` in ascending string order.
pub open spec fn sorted_names(ns: Seq<Str>) -> Seq<Str>
    decreases ns.len(),
{
    if ns.len() == 0 {
        ns
    } else {
        insert_name(sorted_names(ns.drop_last()), ns.last())
    }
}

/// The names of the registered interfaces, in registration order.
pub open spec fn interface_names(r: SpecRegistry) -> Seq<Str> {
    r.interfaces.map_values(|e: SpecInterfaceEntry| e.name)
}

/// The index of the first `x` in `s`.
pub open spec fn first_index(s: Seq<Str>, x: Str) -> int
    decreases s.len(),
{
    if s.len() == 0 || s[0] == x {
        0
    } else {
        1 + first_index(s.skip(1), x)
    }
}

/// Walking the `extends` chain on from `cur`, with the names passed so far in `path`, for
/// at most `fuel` more steps: where it comes back to a name on the path, the cycle (the
/// path from that name on); where it reaches a name without a registered parent, none.
pub open spec fn chain_cycle(r: SpecRegistry, path: Seq<Str>, cur: Str, fuel: nat) -> Option<Seq<Str>>
    decreases fuel,
{
    if fuel == 0 {
        None
    } else if path.contains(cur) {
        Some(path.skip(first_index(path, cur)))
    } else {
        match parent_of(r, cur) {
            Some(p) => chain_cycle(r, path.push(cur), p, (fuel - 1) as nat),
            None => None,
        }
    }
}

/// The cycle that the walk from `start` comes back to, if any: a walk of at most one step
/// more than there are interfaces.
pub open spec fn cycle_from_name(r: SpecRegistry, start: Str) -> Option<Seq<Str>> {
    chain_cycle(r, Seq::empty(), start, (r.interfaces.len() + 1) as nat)
}

/// The report of a cycle with the given path text.
pub open spec fn cycle_error(text: Seq<char>) -> SpecRegistryError {
    SpecRegistryError::ExtendsInterfaceCycle { cycle: text }
}

pub open spec fn arrow() -> Seq<char> {
    seq![' ', '-', '>', ' ']
}

/// The names `c`, each followed by `" -> "`.
pub open spec fn arrowed(c: Seq<Str>) -> Seq<char>
    decreases c.len(),
{
    if c.len() == 0 {
        Seq::empty()
    } else {
        arrowed(c.drop_last()) + c.last() + arrow()
    }
}

/// The path of the cycle `c`, back to its first name: `"a -> b -> a"`.
pub open spec fn cycle_path(c: Seq<Str>) -> Seq<char> {
    arrowed(c) + c[0]
}

/// The cycle reports of a search that starts from each of the names `ns` in turn: a name
/// already reported (in `reported`) is passed over; a walk from another that comes back
/// to a name on its path reports that cycle, whose names then count as reported.
pub open spec fn cycle_reports(r: SpecRegistry, ns: Seq<Str>, reported: Seq<Str>) -> Seq<SpecRegistryError>
    decreases ns.len(),
{
    if ns.len() == 0 {
        Seq::empty()
    } else if reported.contains(ns[0]) {
        cycle_reports(r, ns.skip(1), reported)
    } else {
        match cycle_from_name(r, ns[0]) {
            Some(c) => seq![cycle_error(cycle_path(c))] + cycle_reports(r, ns.skip(1), reported + c),
            None => cycle_reports(r, ns.skip(1), reported),
        }
    }
}

/// The errors that `validate` reports: unknown interfaces of implementations, unknown
/// parents of interfaces, then the cycles that walks from the interface names, taken in
/// ascending order, come back to.
pub open spec fn validation_report(r: SpecRegistry, errs: Seq<SpecRegistryError>) -> bool {
    let a = unknown_impl_errors(r, r.implementations);
    let b = unknown_extends_errors(r, r.interfaces);
    &&& errs.len() >= a.len() + b.len()
    &&& errs.take(a.len() as int) == a
    &&& errs.subrange(a.len() as int, (a.len() + b.len()) as int) == b
    &&& errs.skip((a.len() + b.len()) as int) == cycle_reports(r, sorted_names(interface_names(r)), Seq::empty())
}

/// One error for each implementation (in registration order) whose interface is unknown.
pub open spec fn unknown_impl_errors(r: SpecRegistry, impls: Seq<SpecImplementationEntry>) -> Seq<
    SpecRegistryError,
>
    decreases impls.len(),
{
    if impls.len() == 0 {
        Seq::empty()
    } else {
        let prev = unknown_impl_errors(r, impls.drop_last());
        let e = impls.last();
        if has_interface(r, e.implements) {
            prev
        } else {
            prev.push(
                SpecRegistryError::ImplementsUnknownInterface {
                    implementation: e.name,
                    interface: e.implements,
                },
            )
        }
    }
}

/// One error for each interface (in registration order) that extends an unknown interface.
pub open spec fn unknown_extends_errors(r: SpecRegistry, ifaces: Seq<SpecInterfaceEntry>) -> Seq<
    SpecRegistryError,
>
    decreases ifaces.len(),
{
    if ifaces.len() == 0 {
        Seq::empty()
    } else {
        let prev = unknown_extends_errors(r, ifaces.drop_last());
        let e = ifaces.last();
        match e.extends {
            Some(p) => if has_interface(r, p) {
                prev
            } else {
                prev.push(SpecRegistryError::ExtendsUnknownInterface { child: e.name, parent: p })
            },
            None => prev,
        }
    }
}

/// With distinct names, the interface found under a registered name is the one at its index.
proof fn lemma_find_interface_at(r: SpecRegistry, i: int)
    requires
        registry_wf(r),
        0 <= i < r.interfaces.len(),
    ensures
        find_interface(r, r.interfaces[i].name) == Some(r.interfaces[i]),
{
    let name = r.interfaces[i].name;
    assert(has_interface(r, name));
    let j = choose|j: int| 0 <= j < r.interfaces.len() && r.interfaces[j].name == name;
    if j != i {
        if j < i {
            assert(r.interfaces[j].name != r.interfaces[i].name);
        } else {
            assert(r.interfaces[i].name != r.interfaces[j].name);
        }
    }
}

/// Distinct registered names are no more than the interfaces.
proof fn lemma_registered_names_bound(r: SpecRegistry, path: Seq<Str>)
    requires
        path.no_duplicates(),
        forall|j: int| 0 <= j < path.len() ==> has_interface(r, #[trigger] path[j]),
    ensures
        path.len() <= r.interfaces.len(),
{
    let all = interface_names(r);
    path.unique_seq_to_set();
    all.lemma_cardinality_of_set();
    vstd::seq_lib::seq_to_set_is_finite(all);
    assert forall|x: Str| path.to_set().contains(x) implies all.to_set().contains(x) by {
        let j = choose|j: int| 0 <= j < path.len() && path[j] == x;
        assert(has_interface(r, path[j]));
        let i = choose|i: int| 0 <= i < r.interfaces.len() && r.interfaces[i].name == x;
        assert(all[i] == x);
    }
    vstd::set_lib::lemma_len_subset(path.to_set(), all.to_set());
}

proof fn lemma_walk_fuel(r: SpecRegistry, path: Seq<Str>, cur: Str, f1: nat, f2: nat)
    requires
        path.no_duplicates(),
        forall|j: int| 0 <= j < path.len() ==> has_interface(r, #[trigger] path[j]),
        f1 + path.len() >= r.interfaces.len() + 1,
        f2 + path.len() >= r.interfaces.len() + 1,
    ensures
        chain_cycle(r, path, cur, f1) == chain_cycle(r, path, cur, f2),
    decreases f1,
{
    lemma_registered_names_bound(r, path);
    if !path.contains(cur) {
        if let Some(p) = parent_of(r, cur) {
            let q = path.push(cur);
            assert(find_interface(r, cur) is Some);
            assert(has_interface(r, cur));
            assert forall|i: int, j: int| 0 <= i < q.len() && 0 <= j < q.len() && i != j implies q[i] != q[j] by {
                if i < path.len() && j < path.len() {
                    assert(q[i] == path[i] && q[j] == path[j]);
                } else if i < path.len() {
                    assert(q[i] == path[i]);
                } else {
                    assert(q[j] == path[j]);
                }
            }
            assert forall|j: int| 0 <= j < q.len() implies has_interface(r, #[trigger] q[j]) by {
                if j < path.len() {
                    assert(q[j] == path[j]);
                }
            }
            lemma_registered_names_bound(r, q);
            lemma_walk_fuel(r, q, p, (f1 - 1) as nat, (f2 - 1) as nat);
        }
    }
}

/// `s` is in ascending string order.
pub open spec fn ascending_names(s: Seq<Str>) -> bool {
    forall|i: int, j: int| 0 <= i < j < s.len() ==> !str_lt(#[trigger] s[j], #[trigger] s[i])
}

proof fn lemma_insert_name_sorted(s: Seq<Str>, x: Str)
    requires
        ascending_names(s),
    ensures
        ascending_names(insert_name(s, x)),
        insert_name(s, x).len() == s.len() + 1,
        forall|y: Str| #[trigger] insert_name(s, x).contains(y) <==> (s.contains(y) || y == x),
    decreases s.len(),
{
    let u = insert_name(s, x);
    if s.len() == 0 {
        assert(u =~= seq![x]);
        assert(u[0] == x);
    } else if str_lt(x, s[0]) {
        assert(u =~= seq![x] + s);
        assert forall|i: int, j: int| 0 <= i < j < u.len() implies !str_lt(#[trigger] u[j], #[trigger] u[i]) by {
            if i == 0 {
                assert(u[j] == s[j - 1]);
                if str_lt(s[j - 1], x) {
                    crate::text::lemma_str_lt_transitive(s[j - 1], x, s[0]);
                    if j - 1 > 0 {
                        assert(!str_lt(s[j - 1], s[0]));
                    } else {
                        crate::text::lemma_str_lt_irreflexive(s[0]);
                    }
                }
            } else {
                assert(u[i] == s[i - 1] && u[j] == s[j - 1]);
            }
        }
        assert forall|y: Str| #[trigger] u.contains(y) <==> (s.contains(y) || y == x) by {
            if u.contains(y) {
                let k = choose|k: int| 0 <= k < u.len() && u[k] == y;
                if k > 0 {
                    assert(s[k - 1] == y);
                }
            }
            if s.contains(y) {
                let k = choose|k: int| 0 <= k < s.len() && s[k] == y;
                assert(u[k + 1] == y);
            }
            assert(u[0] == x);
        }
    } else {
        let t = s.skip(1);
        assert forall|i: int, j: int| 0 <= i < j < t.len() implies !str_lt(#[trigger] t[j], #[trigger] t[i]) by {
            assert(t[i] == s[i + 1] && t[j] == s[j + 1]);
        }
        lemma_insert_name_sorted(t, x);
        let w = insert_name(t, x);
        assert(u =~= seq![s[0]] + w);
        assert forall|y: Str| #[trigger] w.contains(y) implies !str_lt(y, s[0]) by {
            if t.contains(y) {
                let k = choose|k: int| 0 <= k < t.len() && t[k] == y;
                assert(s[k + 1] == y);
            }
        }
        assert forall|i: int, j: int| 0 <= i < j < u.len() implies !str_lt(#[trigger] u[j], #[trigger] u[i]) by {
            if i == 0 {
                assert(u[j] == w[j - 1]);
                assert(w.contains(w[j - 1]));
            } else {
                assert(u[i] == w[i - 1] && u[j] == w[j - 1]);
            }
        }
        assert forall|y: Str| #[trigger] u.contains(y) <==> (s.contains(y) || y == x) by {
            if u.contains(y) {
                let k = choose|k: int| 0 <= k < u.len() && u[k] == y;
                if k > 0 {
                    assert(w[k - 1] == y);
                    assert(w.contains(y));
                    if t.contains(y) {
                        let m = choose|m: int| 0 <= m < t.len() && t[m] == y;
                        assert(s[m + 1] == y);
                    }
                } else {
                    assert(s[0] == y);
                }
            }
            if s.contains(y) {
                let k = choose|k: int| 0 <= k < s.len() && s[k] == y;
                if k > 0 {
                    assert(t[k - 1] == y);
                    assert(w.contains(y));
                    let m = choose|m: int| 0 <= m < w.len() && w[m] == y;
                    assert(u[m + 1] == y);
                } else {
                    assert(u[0] == y);
                }
            }
            if y == x {
                assert(w.contains(x));
                let m = choose|m: int| 0 <= m < w.len() && w[m] == x;
                assert(u[m + 1] == x);
            }
        }
    }
}

/// The search for cycles starts from the interface names in ascending string order: every
/// registered name and no other, as many as there are names.
pub proof fn law_cycle_search_visits_names_in_ascending_order(ns: Seq<Str>)
    ensures
        ascending_names(sorted_names(ns)),
        sorted_names(ns).len() == ns.len(),
        forall|y: Str| #[trigger] sorted_names(ns).contains(y) <==> ns.contains(y),
    decreases ns.len(),
{
    if ns.len() > 0 {
        let d = ns.drop_last();
        law_cycle_search_visits_names_in_ascending_order(d);
        lemma_insert_name_sorted(sorted_names(d), ns.last());
        assert forall|y: Str| #[trigger] sorted_names(ns).contains(y) <==> ns.contains(y) by {
            if d.contains(y) {
                let k = choose|k: int| 0 <= k < d.len() && d[k] == y;
                assert(ns[k] == y);
            }
            if ns.contains(y) {
                let k = choose|k: int| 0 <= k < ns.len() && ns[k] == y;
                if k < ns.len() - 1 {
                    assert(d[k] == y);
                }
            }
        }
    } else {
        assert(sorted_names(ns) =~= ns);
    }
}

/// The walk from a name never needs more than one step beyond the number of interfaces:
/// any allowance of at least that many steps finds the same cycle, or the same end of the
/// chain.
pub proof fn law_cycle_walk_has_steps_enough(r: SpecRegistry, start: Str, fuel: nat)
    requires
        fuel >= r.interfaces.len() + 1,
    ensures
        chain_cycle(r, Seq::empty(), start, fuel) == cycle_from_name(r, start),
{
    lemma_walk_fuel(r, Seq::empty(), start, fuel, (r.interfaces.len() + 1) as nat);
}

proof fn lemma_insert_name_at(s: Seq<Str>, x: Str, pos: int)
    requires
        0 <= pos <= s.len(),
        forall|j: int| 0 <= j < pos ==> !str_lt(x, #[trigger] s[j]),
        pos < s.len() ==> str_lt(x, s[pos]),
    ensures
        insert_name(s, x) == s.insert(pos, x),
    decreases s.len(),
{
    if s.len() == 0 {
        assert(seq![x] =~= s.insert(pos, x));
    } else if pos == 0 {
        assert(seq![x] + s =~= s.insert(pos, x));
    } else {
        assert(!str_lt(x, s[0]));
        let t = s.skip(1);
        assert forall|j: int| 0 <= j < pos - 1 implies !str_lt(x, #[trigger] t[j]) by {
            assert(t[j] == s[j + 1]);
        }
        lemma_insert_name_at(t, x, pos - 1);
        assert(seq![s[0]] + t.insert(pos - 1, x) =~= s.insert(pos, x));
    }
}

proof fn lemma_first_index_at(s: Seq<Str>, x: Str, pos: int)
    requires
        0 <= pos < s.len(),
        s[pos] == x,
        forall|j: int| 0 <= j < pos ==> #[trigger] s[j] != x,
    ensures
        first_index(s, x) == pos,
    decreases s.len(),
{
    if pos > 0 {
        let t = s.skip(1);
        assert(s[0] != x);
        assert forall|j: int| 0 <= j < pos - 1 implies #[trigger] t[j] != x by {
            assert(t[j] == s[j + 1]);
        }
        lemma_first_index_at(t, x, pos - 1);
    }
}

impl RegistryError {
    /// The error message.
    pub fn to_string(&self) -> (s: String)
        ensures
            s@ == match self@ {
                SpecRegistryError::DuplicateInterface(n) => "duplicate interface definition: '"@ + n + "'"@,
                SpecRegistryError::DuplicateImplementation(n) => "duplicate implementation definition: '"@ + n
                    + "'"@,
                SpecRegistryError::ImplementsUnknownInterface { implementation, interface } =>
                    "implementation '"@ + implementation + "' references unknown interface '"@ + interface
                    + "'"@,
                SpecRegistryError::ExtendsUnknownInterface { child, parent } => "interface '"@ + child
                    + "' extends unknown interface '"@ + parent + "'"@,
                SpecRegistryError::ExtendsInterfaceCycle { cycle } => "interface extends cycle detected: "@ + cycle
                    + ""@,
            },
    {
        match self {
            RegistryError::DuplicateInterface(name) => join3(
                "duplicate interface definition: '",
                name.as_str(),
                "'",
            ),
            RegistryError::DuplicateImplementation(name) => join3(
                "duplicate implementation definition: '",
                name.as_str(),
                "'",
            ),
            RegistryError::ImplementsUnknownInterface { implementation, interface } => {
                let mut s = join3("implementation '", implementation.as_str(), "' references unknown interface '");
                s.append(interface.as_str());
                s.append("'");
                s
            },
            RegistryError::ExtendsUnknownInterface { child, parent } => {
                let mut s = join3("interface '", child.as_str(), "' extends unknown interface '");
                s.append(parent.as_str());
                s.append("'");
                s
            },
            RegistryError::ExtendsInterfaceCycle { cycle } => join3(
                "interface extends cycle detected: ",
                cycle.as_str(),
                "",
            ),
        }
    }
}

impl SkillRegistry {
    /// The parent of `name` along `extends`, as `parent_of` describes it.
    fn parent_name(&self, name: &str) -> (r: Option<String>)
        ensures
            match r {
                Some(p) => parent_of(self@, name@) == Some(p@),
                None => parent_of(self@, name@) is None,
            },
    {
        proof {
            use_type_invariant(self);
        }
        match self.interface_index(name) {
            Some(i) => {
                proof {
                    lemma_find_interface_at(self@, i as int);
                }
                match &self.interfaces[i].extends {
                    Some(p) => Some(p.clone()),
                    None => None,
                }
            },
            None => None,
        }
    }


    /// The interface names in ascending order.
    fn sorted_interface_names(&self) -> (v: Vec<String>)
        ensures
            v@.map_values(|s: String| s@) == sorted_names(interface_names(self@)),
    {
        let ghost r = self@;
        let ghost all = interface_names(r);
        let mut v: Vec<String> = Vec::new();
        let mut i: usize = 0;
        assert(all.take(0) =~= Seq::<Str>::empty());
        assert(v@.map_values(|s: String| s@) =~= Seq::<Str>::empty());
        while i < self.interfaces.len()
            invariant
                r == self@,
                all == interface_names(r),
                0 <= i <= r.interfaces.len(),
                v@.map_values(|s: String| s@) == sorted_names(all.take(i as int)),
            decreases r.interfaces.len() - i,
        {
            let name = self.interfaces[i].name.clone();
            let ghost sv = v@.map_values(|s: String| s@);
            let mut pos: usize = 0;
            while pos < v.len() && !crate::text::string_lt(name.as_str(), v[pos].as_str())
                invariant
                    0 <= pos <= v@.len(),
                    sv == v@.map_values(|s: String| s@),
                    forall|j: int| 0 <= j < pos ==> !str_lt(name@, #[trigger] sv[j]),
                decreases v@.len() - pos,
            {
                pos = pos + 1;
            }
            proof {
                lemma_insert_name_at(sv, name@, pos as int);
            }
            v.insert(pos, name);
            assert(all.take(i + 1).drop_last() =~= all.take(i as int));
            assert(all.take(i + 1).last() == r.interfaces[i as int].name);
            assert(v@.map_values(|s: String| s@) =~= sv.insert(pos as int, r.interfaces[i as int].name));
            i = i + 1;
        }
        assert(all.take(r.interfaces.len() as int) =~= all);
        v
    }

    /// The cycle that the walk along `extends` from `start` comes back to, if any.
    fn cycle_walk(&self, start: &String) -> (c: Option<Vec<String>>)
        ensures
            match c {
                Some(v) => cycle_from_name(self@, start@) == Some(v@.map_values(|s: String| s@)) && v@.len() > 0,
                None => cycle_from_name(self@, start@) is None,
            },
    {
        let ghost r = self@;
        let n = self.interfaces.len();
        let mut path: Vec<String> = Vec::new();
        let mut cur: String = start.clone();
        let mut k: usize = 0;
        assert(path@.map_values(|s: String| s@) =~= Seq::<Str>::empty());
        loop
            invariant
                r == self@,
                n == r.interfaces.len(),
                0 <= k <= n,
                path@.len() == k,
                cycle_from_name(r, start@) == chain_cycle(r, path@.map_values(|s: String| s@), cur@, (n + 1 - k) as nat),
            decreases n - k,
        {
            let ghost pv = path@.map_values(|s: String| s@);
            let mut pos: usize = 0;
            let mut found = false;
            while pos < path.len() && !found
                invariant
                    0 <= pos <= path@.len(),
                    pv == path@.map_values(|s: String| s@),
                    found ==> pos < path@.len() && pv[pos as int] == cur@,
                    forall|j: int| 0 <= j < pos ==> #[trigger] pv[j] != cur@,
                decreases path@.len() - pos + (if found { 0int } else { 1int }),
            {
                if str_eq(path[pos].as_str(), cur.as_str()) {
                    found = true;
                } else {
                    pos = pos + 1;
                }
            }
            if found {
                proof {
                    lemma_first_index_at(pv, cur@, pos as int);
                    assert(pv.contains(cur@));
                }
                let mut cyc: Vec<String> = Vec::new();
                let mut j: usize = pos;
                assert(cyc@.map_values(|s: String| s@) =~= pv.subrange(pos as int, pos as int));
                while j < path.len()
                    invariant
                        pos <= j <= path@.len(),
                        pv == path@.map_values(|s: String| s@),
                        cyc@.map_values(|s: String| s@) == pv.subrange(pos as int, j as int),
                    decreases path@.len() - j,
                {
                    let ghost before = cyc@.map_values(|s: String| s@);
                    let nm = path[j].clone();
                    assert(nm@ == pv[j as int]);
                    cyc.push(nm);
                    assert(cyc@.map_values(|s: String| s@) =~= before.push(pv[j as int]));
                    assert(before.push(pv[j as int]) =~= pv.subrange(pos as int, j + 1));
                    j = j + 1;
                }
                assert(pv.subrange(pos as int, path@.len() as int) =~= pv.skip(pos as int));
                return Some(cyc);
            }
            assert(!pv.contains(cur@));
            match self.parent_name(cur.as_str()) {
                Some(p) => {
                    let ghost c0 = cur@;
                    assert(chain_cycle(r, pv, c0, (n + 1 - k) as nat) == chain_cycle(r, pv.push(c0), p@, (n - k) as nat));
                    path.push(cur);
                    assert(path@.map_values(|s: String| s@) =~= pv.push(path@.last()@));
                    if k == n {
                        assert(chain_cycle(r, pv.push(c0), p@, 0) is None);
                        return None;
                    }
                    cur = p;
                    k = k + 1;
                },
                None => {
                    return None;
                },
            }
        }
    }

    /// The names `c` joined by `" -> "`, back to the first.
    fn cycle_text_of(c: &Vec<String>) -> (t: String)
        requires
            c@.len() > 0,
        ensures
            t@ == cycle_path(c@.map_values(|s: String| s@)),
    {
        let ghost cv = c@.map_values(|s: String| s@);
        let mut t = String::new();
        let mut j: usize = 0;
        proof {
            reveal_strlit(" -> ");
        }
        assert(cv.take(0) =~= Seq::<Str>::empty());
        while j < c.len()
            invariant
                0 <= j <= c@.len(),
                cv == c@.map_values(|s: String| s@),
                t@ == arrowed(cv.take(j as int)),
                " -> "@ == arrow(),
            decreases c@.len() - j,
        {
            assert(cv.take(j + 1).drop_last() =~= cv.take(j as int));
            t.append(c[j].as_str());
            t.append(" -> ");
            j = j + 1;
        }
        assert(cv.take(c@.len() as int) =~= cv);
        t.append(c[0].as_str());
        t
    }

    /// Check that every implementation's interface is known, that every interface's
    /// parent is known, and that the `extends` relation has no cycle.
    pub fn validate(&self) -> (errs: Vec<RegistryError>)
        ensures
            validation_report(self@, errs.deep_view()),
    {
        proof {
            use_type_invariant(self);
        }
        let ghost r = self@;
        let mut errs: Vec<RegistryError> = Vec::new();
        let mut i: usize = 0;
        while i < self.implementations.len()
            invariant
                r == self@,
                0 <= i <= r.implementations.len(),
                errs.deep_view() == unknown_impl_errors(r, r.implementations.take(i as int)),
            decreases r.implementations.len() - i,
        {
            assert(r.implementations.take(i + 1).drop_last() =~= r.implementations.take(i as int));
            let e = &self.implementations[i];
            if self.interface_index(e.implements.as_str()).is_none() {
                let ghost before = errs.deep_view();
                errs.push(
                    RegistryError::ImplementsUnknownInterface {
                        implementation: e.name.clone(),
                        interface: e.implements.clone(),
                    },
                );
                assert(errs.deep_view() =~= before.push(errs@.last().deep_view()));
            }
            i = i + 1;
        }
        assert(r.implementations.take(r.implementations.len() as int) =~= r.implementations);
        let ghost a = errs.deep_view();
        let mut j: usize = 0;
        while j < self.interfaces.len()
            invariant
                r == self@,
                0 <= j <= r.interfaces.len(),
                a == unknown_impl_errors(r, r.implementations),
                errs.deep_view() == a + unknown_extends_errors(r, r.interfaces.take(j as int)),
            decreases r.interfaces.len() - j,
        {
            assert(r.interfaces.take(j + 1).drop_last() =~= r.interfaces.take(j as int));
            let e = &self.interfaces[j];
            match &e.extends {
                Some(p) => {
                    if self.interface_index(p.as_str()).is_none() {
                        let ghost before = errs.deep_view();
                        errs.push(
                            RegistryError::ExtendsUnknownInterface {
                                child: e.name.clone(),
                                parent: p.clone(),
                            },
                        );
                        assert(errs.deep_view() =~= before.push(errs@.last().deep_view()));
                    }
                },
                None => {},
            }
            j = j + 1;
        }
        assert(r.interfaces.take(r.interfaces.len() as int) =~= r.interfaces);
        let ghost ab = errs.deep_view();
        let ghost b = unknown_extends_errors(r, r.interfaces);
        // cycles: a walk from each interface name, in ascending order, that is not
        // already part of a reported cycle
        let names = self.sorted_interface_names();
        let ghost ns = names@.map_values(|s: String| s@);
        let mut reported: Vec<String> = Vec::new();
        let mut cyc: Vec<RegistryError> = Vec::new();
        let mut t: usize = 0;
        assert(ns.skip(0) =~= ns);
        assert(cyc.deep_view() =~= Seq::<SpecRegistryError>::empty());
        assert(reported@.map_values(|s: String| s@) =~= Seq::<Str>::empty());
        while t < names.len()
            invariant
                r == self@,
                ns == names@.map_values(|s: String| s@),
                ns == sorted_names(interface_names(r)),
                0 <= t <= ns.len(),
                cycle_reports(r, ns, Seq::empty()) == cyc.deep_view() + cycle_reports(
                    r,
                    ns.skip(t as int),
                    reported@.map_values(|s: String| s@),
                ),
            decreases ns.len() - t,
        {
            let ghost rest = ns.skip(t as int);
            let ghost rv = reported@.map_values(|s: String| s@);
            assert(rest[0] == ns[t as int]);
            assert(rest.skip(1) =~= ns.skip(t + 1));
            let start = &names[t];
            let mut q: usize = 0;
            let mut seen = false;
            while q < reported.len() && !seen
                invariant
                    0 <= q <= reported@.len(),
                    rv == reported@.map_values(|s: String| s@),
                    seen ==> rv.contains(start@),
                    !seen ==> forall|j: int| 0 <= j < q ==> #[trigger] rv[j] != start@,
                decreases reported@.len() - q + (if seen { 0int } else { 1int }),
            {
                if str_eq(reported[q].as_str(), start.as_str()) {
                    assert(rv[q as int] == start@);
                    seen = true;
                } else {
                    q = q + 1;
                }
            }
            if !seen {
                assert(!rv.contains(start@));
                match self.cycle_walk(start) {
                    Some(c) => {
                        let ghost cv = c@.map_values(|s: String| s@);
                        let text = Self::cycle_text_of(&c);
                        let mut j: usize = 0;
                        assert(cv.take(0) =~= Seq::<Str>::empty());
                        assert(rv + cv.take(0) =~= rv);
                        while j < c.len()
                            invariant
                                0 <= j <= c@.len(),
                                cv == c@.map_values(|s: String| s@),
                                reported@.map_values(|s: String| s@) == rv + cv.take(j as int),
                            decreases c@.len() - j,
                        {
                            let ghost before = reported@.map_values(|s: String| s@);
                            let nm = c[j].clone();
                            assert(nm@ == cv[j as int]);
                            reported.push(nm);
                            assert(reported@.map_values(|s: String| s@) =~= before.push(cv[j as int]));
                            assert(before.push(cv[j as int]) =~= rv + cv.take(j + 1));
                            j = j + 1;
                        }
                        assert(cv.take(c@.len() as int) =~= cv);
                        let ghost before = cyc.deep_view();
                        cyc.push(RegistryError::ExtendsInterfaceCycle { cycle: text });
                        assert(cyc.deep_view() =~= before.push(cycle_error(cycle_path(cv))));
                        assert(before.push(cycle_error(cycle_path(cv))) + cycle_reports(r, rest.skip(1), rv + cv)
                            =~= before + (seq![cycle_error(cycle_path(cv))] + cycle_reports(r, rest.skip(1), rv + cv)));
                    },
                    None => {},
                }
            }
            t = t + 1;
        }
        assert(ns.skip(ns.len() as int) =~= Seq::<Str>::empty());
        assert(cyc.deep_view() + Seq::<SpecRegistryError>::empty() =~= cyc.deep_view());
        let ghost c = cyc.deep_view();
        let ghost before = errs.deep_view();
        errs.append(&mut cyc);
        assert(errs.deep_view() =~= before + c);
        assert(errs.deep_view().take(a.len() as int) =~= a);
        assert(errs.deep_view().subrange(a.len() as int, (a.len() + b.len()) as int) =~= b);
        assert(errs.deep_view().skip((a.len() + b.len()) as int) =~= c);
        errs
    }
}


// ---------------------------------------------------------------------------
// Laws
// ---------------------------------------------------------------------------

/// The registry with `e` registered as a new interface.
pub open spec fn with_interface(r: SpecRegistry, e: SpecInterfaceEntry) -> SpecRegistry {
    SpecRegistry { interfaces: r.interfaces.push(e), implementations: r.implementations }
}

/// The registry with `e` registered as a new implementation.
pub open spec fn with_implementation(r: SpecRegistry, e: SpecImplementationEntry) -> SpecRegistry {
    SpecRegistry { interfaces: r.interfaces, implementations: r.implementations.push(e) }
}

/// A lookup finds the entry at the index of its name, when names are distinct.
proof fn lemma_find_implementation_at(r: SpecRegistry, i: int)
    requires
        registry_wf(r),
        0 <= i < r.implementations.len(),
    ensures
        find_implementation(r, r.implementations[i].name) == Some(r.implementations[i]),
{
    let name = r.implementations[i].name;
    assert(has_implementation(r, name));
    let j = choose|j: int| 0 <= j < r.implementations.len() && r.implementations[j].name == name;
    if j < i {
        assert(r.implementations[j].name != r.implementations[i].name);
    } else if j > i {
        assert(r.implementations[i].name != r.implementations[j].name);
    }
}

/// Registering a new interface keeps names distinct; afterwards its name finds it, and
/// every other lookup finds what it found before.
pub proof fn law_register_interface_then_find(r: SpecRegistry, e: SpecInterfaceEntry)
    requires
        registry_wf(r),
        !has_interface(r, e.name),
    ensures
        registry_wf(with_interface(r, e)),
        find_interface(with_interface(r, e), e.name) == Some(e),
        forall|m: Str| m != e.name ==> #[trigger] find_interface(with_interface(r, e), m) == find_interface(r, m),
        forall|m: Str| #[trigger] find_implementation(with_interface(r, e), m) == find_implementation(r, m),
{
    let r2 = with_interface(r, e);
    let n = r.interfaces.len() as int;
    assert forall|i: int, j: int| 0 <= i < j < r2.interfaces.len() implies r2.interfaces[i].name != r2.interfaces[j].name by {
        assert(r2.interfaces[i] == r.interfaces[i]);
        if j < n {
            assert(r2.interfaces[j] == r.interfaces[j]);
        } else {
            assert(!(r.interfaces[i].name == e.name));
        }
    }
    assert(r2.interfaces[n] == e);
    lemma_find_interface_at(r2, n);
    assert forall|m: Str| m != e.name implies #[trigger] find_interface(r2, m) == find_interface(r, m) by {
        if has_interface(r, m) {
            let i = choose|i: int| 0 <= i < r.interfaces.len() && r.interfaces[i].name == m;
            lemma_find_interface_at(r, i);
            assert(r2.interfaces[i] == r.interfaces[i]);
            lemma_find_interface_at(r2, i);
        } else {
            assert(!has_interface(r2, m)) by {
                if has_interface(r2, m) {
                    let i = choose|i: int| 0 <= i < r2.interfaces.len() && r2.interfaces[i].name == m;
                    assert(i < n);
                    assert(r2.interfaces[i] == r.interfaces[i]);
                }
            }
        }
    }
}

/// Registering a new implementation keeps names distinct; afterwards its name finds it,
/// and every other lookup finds what it found before.
pub proof fn law_register_implementation_then_find(r: SpecRegistry, e: SpecImplementationEntry)
    requires
        registry_wf(r),
        !has_implementation(r, e.name),
    ensures
        registry_wf(with_implementation(r, e)),
        find_implementation(with_implementation(r, e), e.name) == Some(e),
        forall|m: Str| m != e.name ==> #[trigger] find_implementation(with_implementation(r, e), m) == find_implementation(r, m),
        forall|m: Str| #[trigger] find_interface(with_implementation(r, e), m) == find_interface(r, m),
{
    let r2 = with_implementation(r, e);
    let n = r.implementations.len() as int;
    assert forall|i: int, j: int| 0 <= i < j < r2.implementations.len() implies r2.implementations[i].name != r2.implementations[j].name by {
        assert(r2.implementations[i] == r.implementations[i]);
        if j < n {
            assert(r2.implementations[j] == r.implementations[j]);
        } else {
            assert(!(r.implementations[i].name == e.name));
        }
    }
    assert(r2.implementations[n] == e);
    lemma_find_implementation_at(r2, n);
    assert forall|m: Str| m != e.name implies #[trigger] find_implementation(r2, m) == find_implementation(r, m) by {
        if has_implementation(r, m) {
            let i = choose|i: int| 0 <= i < r.implementations.len() && r.implementations[i].name == m;
            lemma_find_implementation_at(r, i);
            assert(r2.implementations[i] == r.implementations[i]);
            lemma_find_implementation_at(r2, i);
        } else {
            assert(!has_implementation(r2, m)) by {
                if has_implementation(r2, m) {
                    let i = choose|i: int| 0 <= i < r2.implementations.len() && r2.implementations[i].name == m;
                    assert(i < n);
                    assert(r2.implementations[i] == r.implementations[i]);
                }
            }
        }
    }
}

/// The implementations listed for an interface are exactly the registered ones that
/// implement it.
pub proof fn law_implementations_for_are_exactly_the_implementers(impls: Seq<SpecImplementationEntry>, f: Str)
    ensures
        forall|e: SpecImplementationEntry| #[trigger] impls_of(impls, f).contains(e) <==> (impls.contains(e) && e.implements == f),
    decreases impls.len(),
{
    if impls.len() > 0 {
        law_implementations_for_are_exactly_the_implementers(impls.drop_last(), f);
        let prev = impls_of(impls.drop_last(), f);
        assert forall|e: SpecImplementationEntry| #[trigger] impls_of(impls, f).contains(e) <==> (impls.contains(e) && e.implements == f) by {
            if impls.contains(e) {
                let k = choose|k: int| 0 <= k < impls.len() && impls[k] == e;
                if k < impls.len() - 1 {
                    assert(impls.drop_last()[k] == e);
                }
            }
            if impls.drop_last().contains(e) {
                let k = choose|k: int| 0 <= k < impls.drop_last().len() && impls.drop_last()[k] == e;
                assert(impls[k] == e);
            }
            if impls.last().implements == f {
                assert(impls_of(impls, f) == prev.push(impls.last()));
                if prev.push(impls.last()).contains(e) {
                    let k = choose|k: int| 0 <= k < prev.len() + 1 && prev.push(impls.last())[k] == e;
                    if k < prev.len() {
                        assert(prev[k] == e);
                    }
                }
                if prev.contains(e) {
                    let k = choose|k: int| 0 <= k < prev.len() && prev[k] == e;
                    assert(prev.push(impls.last())[k] == e);
                }
                assert(prev.push(impls.last())[prev.len() as int] == impls.last());
            }
        }
    }
}

/// The registry check reports an implementation exactly when its interface is unknown.
pub proof fn law_validate_reports_exactly_unknown_interfaces(r: SpecRegistry, impls: Seq<SpecImplementationEntry>, e: SpecImplementationEntry)
    ensures
        unknown_impl_errors(r, impls).contains(
            SpecRegistryError::ImplementsUnknownInterface { implementation: e.name, interface: e.implements },
        ) <==> exists|k: int| 0 <= k < impls.len() && impls[k].name == e.name && impls[k].implements == e.implements
            && !has_interface(r, e.implements),
    decreases impls.len(),
{
    let x = SpecRegistryError::ImplementsUnknownInterface { implementation: e.name, interface: e.implements };
    if impls.len() > 0 {
        law_validate_reports_exactly_unknown_interfaces(r, impls.drop_last(), e);
        let prev = unknown_impl_errors(r, impls.drop_last());
        let l = impls.last();
        let y = SpecRegistryError::ImplementsUnknownInterface { implementation: l.name, interface: l.implements };
        if exists|k: int| 0 <= k < impls.drop_last().len() && impls.drop_last()[k].name == e.name && impls.drop_last()[k].implements == e.implements
            && !has_interface(r, e.implements) {
            let k = choose|k: int| 0 <= k < impls.drop_last().len() && impls.drop_last()[k].name == e.name && impls.drop_last()[k].implements == e.implements
                && !has_interface(r, e.implements);
            assert(impls[k] == impls.drop_last()[k]);
        }
        if !has_interface(r, l.implements) {
            assert(unknown_impl_errors(r, impls) == prev.push(y));
            if prev.push(y).contains(x) {
                let k = choose|k: int| 0 <= k < prev.len() + 1 && prev.push(y)[k] == x;
                if k < prev.len() {
                    assert(prev[k] == x);
                }
            }
            if prev.contains(x) {
                let k = choose|k: int| 0 <= k < prev.len() && prev[k] == x;
                assert(prev.push(y)[k] == x);
            }
            assert(prev.push(y)[prev.len() as int] == y);
        }
        if exists|k: int| 0 <= k < impls.len() && impls[k].name == e.name && impls[k].implements == e.implements
            && !has_interface(r, e.implements) {
            let k = choose|k: int| 0 <= k < impls.len() && impls[k].name == e.name && impls[k].implements == e.implements
                && !has_interface(r, e.implements);
            if k < impls.len() - 1 {
                assert(impls.drop_last()[k] == impls[k]);
            }
        }
    }
}


/// The registry check reports an interface's parent exactly when the parent is unknown.
pub proof fn law_validate_reports_exactly_unknown_parents(r: SpecRegistry, ifaces: Seq<SpecInterfaceEntry>, child: Str, parent: Str)
    ensures
        unknown_extends_errors(r, ifaces).contains(SpecRegistryError::ExtendsUnknownInterface { child, parent })
            <==> exists|k: int| 0 <= k < ifaces.len() && ifaces[k].name == child && ifaces[k].extends == Some(parent)
            && !has_interface(r, parent),
    decreases ifaces.len(),
{
    let x = SpecRegistryError::ExtendsUnknownInterface { child, parent };
    if ifaces.len() > 0 {
        law_validate_reports_exactly_unknown_parents(r, ifaces.drop_last(), child, parent);
        let prev = unknown_extends_errors(r, ifaces.drop_last());
        let l = ifaces.last();
        if exists|k: int| 0 <= k < ifaces.drop_last().len() && ifaces.drop_last()[k].name == child
            && ifaces.drop_last()[k].extends == Some(parent) && !has_interface(r, parent) {
            let k = choose|k: int| 0 <= k < ifaces.drop_last().len() && ifaces.drop_last()[k].name == child
                && ifaces.drop_last()[k].extends == Some(parent) && !has_interface(r, parent);
            assert(ifaces[k] == ifaces.drop_last()[k]);
        }
        if let Some(q) = l.extends {
            if !has_interface(r, q) {
                let y = SpecRegistryError::ExtendsUnknownInterface { child: l.name, parent: q };
                assert(unknown_extends_errors(r, ifaces) == prev.push(y));
                if prev.push(y).contains(x) {
                    let k = choose|k: int| 0 <= k < prev.len() + 1 && prev.push(y)[k] == x;
                    if k < prev.len() {
                        assert(prev[k] == x);
                    }
                }
                if prev.contains(x) {
                    let k = choose|k: int| 0 <= k < prev.len() && prev[k] == x;
                    assert(prev.push(y)[k] == x);
                }
                assert(prev.push(y)[prev.len() as int] == y);
            }
        }
        if exists|k: int| 0 <= k < ifaces.len() && ifaces[k].name == child && ifaces[k].extends == Some(parent)
            && !has_interface(r, parent) {
            let k = choose|k: int| 0 <= k < ifaces.len() && ifaces[k].name == child && ifaces[k].extends == Some(parent)
                && !has_interface(r, parent);
            if k < ifaces.len() - 1 {
                assert(ifaces.drop_last()[k] == ifaces[k]);
            }
        }
    }
}

proof fn lemma_unknown_impl_errors_distinct(r: SpecRegistry, impls: Seq<SpecImplementationEntry>)
    requires
        forall|i: int, j: int| 0 <= i < j < impls.len() ==> impls[i].name != impls[j].name,
    ensures
        unknown_impl_errors(r, impls).no_duplicates(),
    decreases impls.len(),
{
    if impls.len() > 0 {
        let d = impls.drop_last();
        assert forall|i: int, j: int| 0 <= i < j < d.len() implies d[i].name != d[j].name by {
            assert(d[i] == impls[i] && d[j] == impls[j]);
        }
        lemma_unknown_impl_errors_distinct(r, d);
        let prev = unknown_impl_errors(r, d);
        let l = impls.last();
        if !has_interface(r, l.implements) {
            let y = SpecRegistryError::ImplementsUnknownInterface { implementation: l.name, interface: l.implements };
            law_validate_reports_exactly_unknown_interfaces(r, d, l);
            if prev.contains(y) {
                let k = choose|k: int| 0 <= k < d.len() && d[k].name == l.name && d[k].implements == l.implements
                    && !has_interface(r, l.implements);
                assert(impls[k].name != impls[impls.len() - 1].name);
            }
            let s = prev.push(y);
            assert forall|i: int, j: int| 0 <= i < s.len() && 0 <= j < s.len() && i != j implies s[i] != s[j] by {
                if i < prev.len() && j < prev.len() {
                    assert(s[i] == prev[i] && s[j] == prev[j]);
                } else if i < prev.len() {
                    assert(s[i] == prev[i]);
                    assert(s[j] == y);
                } else {
                    assert(s[j] == prev[j]);
                    assert(s[i] == y);
                }
            }
        }
    }
}

proof fn lemma_unknown_extends_errors_distinct(r: SpecRegistry, ifaces: Seq<SpecInterfaceEntry>)
    requires
        forall|i: int, j: int| 0 <= i < j < ifaces.len() ==> ifaces[i].name != ifaces[j].name,
    ensures
        unknown_extends_errors(r, ifaces).no_duplicates(),
    decreases ifaces.len(),
{
    if ifaces.len() > 0 {
        let d = ifaces.drop_last();
        assert forall|i: int, j: int| 0 <= i < j < d.len() implies d[i].name != d[j].name by {
            assert(d[i] == ifaces[i] && d[j] == ifaces[j]);
        }
        lemma_unknown_extends_errors_distinct(r, d);
        let prev = unknown_extends_errors(r, d);
        let l = ifaces.last();
        if let Some(q) = l.extends {
            if !has_interface(r, q) {
                let y = SpecRegistryError::ExtendsUnknownInterface { child: l.name, parent: q };
                law_validate_reports_exactly_unknown_parents(r, d, l.name, q);
                if prev.contains(y) {
                    let k = choose|k: int| 0 <= k < d.len() && d[k].name == l.name && d[k].extends == Some(q)
                        && !has_interface(r, q);
                    assert(ifaces[k].name != ifaces[ifaces.len() - 1].name);
                }
                let s = prev.push(y);
                assert forall|i: int, j: int| 0 <= i < s.len() && 0 <= j < s.len() && i != j implies s[i] != s[j] by {
                    if i < prev.len() && j < prev.len() {
                        assert(s[i] == prev[i] && s[j] == prev[j]);
                    } else if i < prev.len() {
                        assert(s[i] == prev[i]);
                        assert(s[j] == y);
                    } else {
                        assert(s[j] == prev[j]);
                        assert(s[i] == y);
                    }
                }
            }
        }
    }
}

/// In a registry with distinct names, the registry check reports each unknown interface of
/// an implementation, and each unknown parent of an interface, once.
pub proof fn law_validate_reports_each_unknown_reference_once(r: SpecRegistry)
    requires
        registry_wf(r),
    ensures
        unknown_impl_errors(r, r.implementations).no_duplicates(),
        unknown_extends_errors(r, r.interfaces).no_duplicates(),
{
    lemma_unknown_impl_errors_distinct(r, r.implementations);
    lemma_unknown_extends_errors_distinct(r, r.interfaces);
}

} // verus!
