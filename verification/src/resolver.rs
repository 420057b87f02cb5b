//! Resolution of an invocation to a concrete implementation.
use vstd::prelude::*;

use crate::ast::{opt_view, Str};
use crate::registry::{
    find_implementation, impls_of, registry_wf, ImplementationEntry, SkillRegistry, SpecImplementationEntry,
    SpecRegistry,
};
use crate::text::{join3, str_eq};

verus! {

/// Resolution error types.
#[derive(Debug, Clone, PartialEq, Eq)]
pub enum ResolveError {
    /// No implementations found for the interface.
    NoImplementation { interface: String },
    /// Multiple implementations match and none has higher priority.
    Ambiguous { interface: String, candidates: Vec<String> },
    /// Explicit `impl` not found in registry.
    ImplNotFound { name: String },
    /// Explicit `impl` does not implement the declared interface.
    ImplMismatch { impl_name: String, expected_interface: String, actual_interface: String },
    /// No resolution target (neither interface nor impl nor name).
    NoTarget,
}

pub enum SpecResolveError {
    NoImplementation { interface: Str },
    Ambiguous { interface: Str, candidates: Seq<Str> },
    ImplNotFound { name: Str },
    ImplMismatch { impl_name: Str, expected_interface: Str, actual_interface: Str },
    NoTarget,
}

impl View for ResolveError {
    type V = SpecResolveError;

    open spec fn view(&self) -> SpecResolveError {
        match self {
            ResolveError::NoImplementation { interface } => SpecResolveError::NoImplementation {
                interface: interface@,
            },
            ResolveError::Ambiguous { interface, candidates } => SpecResolveError::Ambiguous {
                interface: interface@,
                candidates: crate::text::strings_view(candidates@),
            },
            ResolveError::ImplNotFound { name } => SpecResolveError::ImplNotFound { name: name@ },
            ResolveError::ImplMismatch { impl_name, expected_interface, actual_interface } =>
                SpecResolveError::ImplMismatch {
                impl_name: impl_name@,
                expected_interface: expected_interface@,
                actual_interface: actual_interface@,
            },
            ResolveError::NoTarget => SpecResolveError::NoTarget,
        }
    }
}

/// Hints provided by the invocation for resolution filtering.
#[derive(Debug, Clone)]
pub struct ResolutionHints {
    pub language: Option<String>,
    pub framework: Option<String>,
}

impl Default for ResolutionHints {
    fn default() -> (h: Self)
        ensures
            h.language is None,
            h.framework is None,
    {
        ResolutionHints { language: None, framework: None }
    }
}

/// The candidates whose language is `lang`.
pub open spec fn with_language(c: Seq<SpecImplementationEntry>, lang: Str) -> Seq<SpecImplementationEntry>
    decreases c.len(),
{
    if c.len() == 0 {
        c
    } else if c.last().language == Some(lang) {
        with_language(c.drop_last(), lang).push(c.last())
    } else {
        with_language(c.drop_last(), lang)
    }
}

/// The candidates whose framework is `fw`.
pub open spec fn with_framework(c: Seq<SpecImplementationEntry>, fw: Str) -> Seq<SpecImplementationEntry>
    decreases c.len(),
{
    if c.len() == 0 {
        c
    } else if c.last().framework == Some(fw) {
        with_framework(c.drop_last(), fw).push(c.last())
    } else {
        with_framework(c.drop_last(), fw)
    }
}

/// `x` inserted into `sorted` (by descending priority) after every entry of at least its
/// priority.
pub open spec fn insert_by_priority(sorted: Seq<SpecImplementationEntry>, x: SpecImplementationEntry) -> Seq<SpecImplementationEntry>
    decreases sorted.len(),
{
    if sorted.len() == 0 {
        seq![x]
    } else if sorted.last().priority >= x.priority {
        sorted.push(x)
    } else {
        insert_by_priority(sorted.drop_last(), x).push(sorted.last())
    }
}

/// The candidates sorted by descending priority, ties in the order given.
pub open spec fn by_priority(c: Seq<SpecImplementationEntry>) -> Seq<SpecImplementationEntry>
    decreases c.len(),
{
    if c.len() == 0 {
        c
    } else {
        insert_by_priority(by_priority(c.drop_last()), c.last())
    }
}

/// The names of the candidates.
pub open spec fn names_of(c: Seq<SpecImplementationEntry>) -> Seq<Str> {
    c.map_values(|e: SpecImplementationEntry| e.name)
}

/// The implementations of `iface` that match the hints: the language hint keeps those of
/// that language, then the framework hint those of that framework.
pub open spec fn hinted_candidates(r: SpecRegistry, iface: Str, lang: Option<Str>, fw: Option<Str>) -> Seq<SpecImplementationEntry> {
    let c0 = impls_of(r.implementations, iface);
    let c1 = match lang {
        Some(l) => with_language(c0, l),
        None => c0,
    };
    match fw {
        Some(f) => with_framework(c1, f),
        None => c1,
    }
}

/// The candidates for `iface` once narrowed by the hints and sorted by priority.
pub open spec fn ranked_candidates(r: SpecRegistry, iface: Str, lang: Option<Str>, fw: Option<Str>) -> Seq<SpecImplementationEntry> {
    by_priority(hinted_candidates(r, iface, lang, fw))
}

/// Resolving the interface `f` with hints: no implementation, or none left by the hints,
/// is `NoImplementation`; of those left, the one of highest priority, ambiguous when the
/// two highest share their priority.
pub open spec fn interface_resolution(r: SpecRegistry, f: Str, lang: Option<Str>, fw: Option<Str>) -> Result<SpecImplementationEntry, SpecResolveError> {
    let c = ranked_candidates(r, f, lang, fw);
    if impls_of(r.implementations, f).len() == 0 || c.len() == 0 {
        Err(SpecResolveError::NoImplementation { interface: f })
    } else if c.len() > 1 && c[0].priority == c[1].priority {
        Err(SpecResolveError::Ambiguous { interface: f, candidates: names_of(c) })
    } else {
        Ok(c[0])
    }
}

/// What resolution yields: an explicit `impl` first, then the interface with hints, then a
/// name looked up among implementations and else among interfaces (resolved without hints).
pub open spec fn resolution(
    r: SpecRegistry,
    interface: Option<Str>,
    imp: Option<Str>,
    name: Option<Str>,
    lang: Option<Str>,
    fw: Option<Str>,
) -> Result<SpecImplementationEntry, SpecResolveError> {
    match imp {
        Some(i) => match find_implementation(r, i) {
            None => Err(SpecResolveError::ImplNotFound { name: i }),
            Some(e) => match interface {
                Some(f) => if e.implements != f {
                    Err(
                        SpecResolveError::ImplMismatch {
                            impl_name: i,
                            expected_interface: f,
                            actual_interface: e.implements,
                        },
                    )
                } else {
                    Ok(e)
                },
                None => Ok(e),
            },
        },
        None => match interface {
            Some(f) => interface_resolution(r, f, lang, fw),
            None => match name {
                Some(n) => match find_implementation(r, n) {
                    Some(e) => Ok(e),
                    None => if crate::registry::find_interface(r, n) is Some {
                        interface_resolution(r, n, None, None)
                    } else {
                        Err(SpecResolveError::ImplNotFound { name: n })
                    },
                },
                None => Err(SpecResolveError::NoTarget),
            },
        },
    }
}

pub open spec fn opt_str_view(o: Option<&str>) -> Option<Str> {
    match o {
        Some(s) => Some(s@),
        None => None,
    }
}

proof fn lemma_insert_len(sorted: Seq<SpecImplementationEntry>, x: SpecImplementationEntry)
    ensures
        insert_by_priority(sorted, x).len() == sorted.len() + 1,
    decreases sorted.len(),
{
    if sorted.len() > 0 && sorted.last().priority < x.priority {
        lemma_insert_len(sorted.drop_last(), x);
    }
}

proof fn lemma_by_priority_len(c: Seq<SpecImplementationEntry>)
    ensures
        by_priority(c).len() == c.len(),
    decreases c.len(),
{
    if c.len() > 0 {
        lemma_by_priority_len(c.drop_last());
        lemma_insert_len(by_priority(c.drop_last()), c.last());
    }
}

/// `insert_by_priority` as an index: the first position (from the end) where `x` goes.
proof fn lemma_insert_at(sorted: Seq<SpecImplementationEntry>, x: SpecImplementationEntry, k: int)
    requires
        0 <= k <= sorted.len(),
        k == sorted.len() || sorted[k].priority < x.priority,
        k == 0 || sorted[k - 1].priority >= x.priority,
        forall|j: int| k <= j < sorted.len() ==> sorted[j].priority < x.priority,
    ensures
        insert_by_priority(sorted, x) == sorted.insert(k, x),
    decreases sorted.len(),
{
    if sorted.len() == 0 {
        assert(sorted.insert(k, x) =~= seq![x]);
    } else if sorted.last().priority >= x.priority {
        assert(k == sorted.len());
        assert(sorted.insert(k, x) =~= sorted.push(x));
    } else {
        lemma_insert_at(sorted.drop_last(), x, k);
        assert(sorted.drop_last().insert(k, x).push(sorted.last()) =~= sorted.insert(k, x));
    }
}

/// Keep the candidates whose language (or, with `by_framework`, framework) is `v`.
fn keep_matching<'a>(c: &Vec<&'a ImplementationEntry>, v: &str, by_framework: bool) -> (r: Vec<&'a ImplementationEntry>)
    ensures
        r@.map_values(|e: &ImplementationEntry| e@) == if by_framework {
            with_framework(c@.map_values(|e: &ImplementationEntry| e@), v@)
        } else {
            with_language(c@.map_values(|e: &ImplementationEntry| e@), v@)
        },
{
    let ghost cv = c@.map_values(|e: &ImplementationEntry| e@);
    let mut r: Vec<&'a ImplementationEntry> = Vec::new();
    let mut i: usize = 0;
    while i < c.len()
        invariant
            0 <= i <= c@.len(),
            cv == c@.map_values(|e: &ImplementationEntry| e@),
            r@.map_values(|e: &ImplementationEntry| e@) == if by_framework {
                with_framework(cv.take(i as int), v@)
            } else {
                with_language(cv.take(i as int), v@)
            },
        decreases c@.len() - i,
    {
        assert(cv.take(i + 1).drop_last() =~= cv.take(i as int));
        assert(cv.take(i + 1).last() == c@[i as int]@);
        let e = c[i];
        let field = if by_framework { &e.framework } else { &e.language };
        let keep = match field {
            Some(x) => str_eq(x.as_str(), v),
            None => false,
        };
        if keep {
            let ghost before = r@.map_values(|e: &ImplementationEntry| e@);
            r.push(e);
            assert(r@.map_values(|e: &ImplementationEntry| e@) =~= before.push(e@));
        }
        i = i + 1;
    }
    assert(cv.take(c@.len() as int) =~= cv);
    r
}

/// Sort the candidates by descending priority, keeping ties in order.
fn sort_by_priority<'a>(c: &Vec<&'a ImplementationEntry>) -> (r: Vec<&'a ImplementationEntry>)
    ensures
        r@.map_values(|e: &ImplementationEntry| e@) == by_priority(c@.map_values(|e: &ImplementationEntry| e@)),
{
    let ghost cv = c@.map_values(|e: &ImplementationEntry| e@);
    let mut r: Vec<&'a ImplementationEntry> = Vec::new();
    let mut i: usize = 0;
    while i < c.len()
        invariant
            0 <= i <= c@.len(),
            cv == c@.map_values(|e: &ImplementationEntry| e@),
            r@.map_values(|e: &ImplementationEntry| e@) == by_priority(cv.take(i as int)),
        decreases c@.len() - i,
    {
        assert(cv.take(i + 1).drop_last() =~= cv.take(i as int));
        assert(cv.take(i + 1).last() == c@[i as int]@);
        let x = c[i];
        let ghost rv = r@.map_values(|e: &ImplementationEntry| e@);
        let mut k = r.len();
        while k > 0 && r[k - 1].priority < x.priority
            invariant
                0 <= k <= r@.len(),
                rv == r@.map_values(|e: &ImplementationEntry| e@),
                forall|j: int| k <= j < rv.len() ==> rv[j].priority < x.priority,
            decreases k,
        {
            k = k - 1;
        }
        proof {
            lemma_insert_at(rv, x@, k as int);
        }
        r.insert(k, x);
        assert(r@.map_values(|e: &ImplementationEntry| e@) =~= rv.insert(k as int, x@));
        i = i + 1;
    }
    assert(cv.take(c@.len() as int) =~= cv);
    r
}

/// Resolve the interface `f` with the hints `lang` and `fw`.
fn resolve_interface<'a>(registry: &'a SkillRegistry, f: &str, lang: Option<&str>, fw: Option<&str>) -> (r: Result<
    &'a ImplementationEntry,
    ResolveError,
>)
    ensures
        match r {
            Ok(e) => interface_resolution(registry@, f@, opt_str_view(lang), opt_str_view(fw)) == Ok::<
                SpecImplementationEntry,
                SpecResolveError,
            >(e@),
            Err(err) => interface_resolution(registry@, f@, opt_str_view(lang), opt_str_view(fw)) == Err::<
                SpecImplementationEntry,
                SpecResolveError,
            >(err@),
        },
{
    let c0 = registry.implementations_for(f);
    if c0.len() == 0 {
        return Err(ResolveError::NoImplementation { interface: f.to_string() });
    }
    let mut c = c0;
    if let Some(l) = lang {
        c = keep_matching(&c, l, false);
    }
    if let Some(x) = fw {
        c = keep_matching(&c, x, true);
    }
    if c.len() == 0 {
        return Err(ResolveError::NoImplementation { interface: f.to_string() });
    }
    let sorted = sort_by_priority(&c);
    proof {
        lemma_by_priority_len(c@.map_values(|e: &ImplementationEntry| e@));
    }
    if sorted.len() > 1 && sorted[0].priority == sorted[1].priority {
        let ghost sv = sorted@.map_values(|e: &ImplementationEntry| e@);
        let mut names: Vec<String> = Vec::new();
        let mut k: usize = 0;
        while k < sorted.len()
            invariant
                0 <= k <= sorted@.len(),
                sv == sorted@.map_values(|e: &ImplementationEntry| e@),
                crate::text::strings_view(names@) == names_of(sv).take(k as int),
            decreases sorted@.len() - k,
        {
            let ghost before = crate::text::strings_view(names@);
            names.push(sorted[k].name.clone());
            assert(sv[k as int] == sorted@[k as int]@);
            assert(names_of(sv)[k as int] == sv[k as int].name);
            assert(crate::text::strings_view(names@) =~= before.push(sorted@[k as int].name@));
            assert(names_of(sv).take(k + 1) =~= names_of(sv).take(k as int).push(names_of(sv)[k as int]));
            k = k + 1;
        }
        assert(names_of(sv).take(sorted@.len() as int) =~= names_of(sv));
        return Err(ResolveError::Ambiguous { interface: f.to_string(), candidates: names });
    }
    Ok(sorted[0])
}

/// Resolve an invocation to a concrete implementation.
///
/// Resolution priority:
/// 1. `impl` present: the exact implementation (checked against the interface if both are given);
/// 2. `interface` present: filter by hints, pick the highest priority, fail if ambiguous;
/// 3. `name` present: lookup as implementation name, else as interface name.
pub fn resolve<'a>(
    registry: &'a SkillRegistry,
    interface: Option<&str>,
    impl_name: Option<&str>,
    name: Option<&str>,
    hints: &ResolutionHints,
) -> (r: Result<&'a ImplementationEntry, ResolveError>)
    ensures
        match r {
            Ok(e) => resolution(
                registry@,
                opt_str_view(interface),
                opt_str_view(impl_name),
                opt_str_view(name),
                opt_view(hints.language),
                opt_view(hints.framework),
            ) == Ok::<SpecImplementationEntry, SpecResolveError>(e@),
            Err(err) => resolution(
                registry@,
                opt_str_view(interface),
                opt_str_view(impl_name),
                opt_str_view(name),
                opt_view(hints.language),
                opt_view(hints.framework),
            ) == Err::<SpecImplementationEntry, SpecResolveError>(err@),
        },
{
    if let Some(i) = impl_name {
        let entry = match registry.get_implementation(i) {
            Some(e) => e,
            None => {
                return Err(ResolveError::ImplNotFound { name: i.to_string() });
            },
        };
        if let Some(f) = interface {
            if !str_eq(entry.implements.as_str(), f) {
                return Err(
                    ResolveError::ImplMismatch {
                        impl_name: i.to_string(),
                        expected_interface: f.to_string(),
                        actual_interface: entry.implements.clone(),
                    },
                );
            }
        }
        return Ok(entry);
    }
    if let Some(f) = interface {
        let lang = match &hints.language {
            Some(l) => Some(l.as_str()),
            None => None,
        };
        let fw = match &hints.framework {
            Some(x) => Some(x.as_str()),
            None => None,
        };
        return resolve_interface(registry, f, lang, fw);
    }
    if let Some(n) = name {
        return match registry.get_implementation(n) {
            Some(e) => Ok(e),
            None => if registry.get_interface(n).is_some() {
                resolve_interface(registry, n, None, None)
            } else {
                Err(ResolveError::ImplNotFound { name: n.to_string() })
            },
        };
    }
    Err(ResolveError::NoTarget)
}

/// The names separated by `, `.
pub open spec fn comma_joined(names: Seq<Str>) -> Str
    decreases names.len(),
{
    if names.len() == 0 {
        Seq::empty()
    } else if names.len() == 1 {
        names[0]
    } else {
        comma_joined(names.drop_last()) + ", "@ + names.last()
    }
}

/// The message of a resolution error.
pub open spec fn resolve_message(e: SpecResolveError) -> Str {
    match e {
        SpecResolveError::NoImplementation { interface } => "no implementation found for interface '"@ + interface
            + "'"@,
        SpecResolveError::Ambiguous { interface, candidates } => "ambiguous resolution for interface '"@ + interface
            + "': candidates are ["@ + comma_joined(candidates) + "]"@,
        SpecResolveError::ImplNotFound { name } => "implementation '"@ + name + "' not found in registry"@,
        SpecResolveError::ImplMismatch { impl_name, expected_interface, actual_interface } => "implementation '"@
            + impl_name + "' implements '"@ + actual_interface + "', not '"@ + expected_interface + "'"@,
        SpecResolveError::NoTarget => "skill invocation has no resolution target (no interface, impl, or name)"@,
    }
}

impl ResolveError {
    /// A copy of the error.
    pub fn duplicate(&self) -> (r: Self)
        ensures
            r@ == self@,
    {
        match self {
            ResolveError::NoImplementation { interface } => ResolveError::NoImplementation { interface: interface.clone() },
            ResolveError::Ambiguous { interface, candidates } => {
                let c = crate::ast::dup_strs(candidates);
                proof {
                    assert(crate::text::strings_view(c@) =~= crate::ast::strs_view(c@));
                    assert(crate::text::strings_view(candidates@) =~= crate::ast::strs_view(candidates@));
                }
                ResolveError::Ambiguous { interface: interface.clone(), candidates: c }
            },
            ResolveError::ImplNotFound { name } => ResolveError::ImplNotFound { name: name.clone() },
            ResolveError::ImplMismatch { impl_name, expected_interface, actual_interface } => ResolveError::ImplMismatch {
                impl_name: impl_name.clone(),
                expected_interface: expected_interface.clone(),
                actual_interface: actual_interface.clone(),
            },
            ResolveError::NoTarget => ResolveError::NoTarget,
        }
    }

    /// The error message.
    pub fn to_string(&self) -> (s: String)
        ensures
            s@ == resolve_message(self@),
    {
        match self {
            ResolveError::NoImplementation { interface } => join3(
                "no implementation found for interface '",
                interface.as_str(),
                "'",
            ),
            ResolveError::Ambiguous { interface, candidates } => {
                let mut s = join3("ambiguous resolution for interface '", interface.as_str(), "': candidates are [");
                let ghost head = s@;
                let ghost cs = crate::text::strings_view(candidates@);
                let mut k: usize = 0;
                assert(cs.take(0) =~= Seq::<Str>::empty());
                while k < candidates.len()
                    invariant
                        0 <= k <= candidates@.len(),
                        cs == crate::text::strings_view(candidates@),
                        s@ == head + comma_joined(cs.take(k as int)),
                    decreases candidates@.len() - k,
                {
                    assert(cs.take(k + 1).drop_last() =~= cs.take(k as int));
                    assert(cs.take(k + 1).last() == candidates@[k as int]@);
                    if k > 0 {
                        s.append(", ");
                    } else {
                        assert(cs.take(1) =~= seq![candidates@[0]@]);
                    }
                    s.append(candidates[k].as_str());
                    k = k + 1;
                }
                assert(cs.take(candidates@.len() as int) =~= cs);
                s.append("]");
                s
            },
            ResolveError::ImplNotFound { name } => join3("implementation '", name.as_str(), "' not found in registry"),
            ResolveError::ImplMismatch { impl_name, expected_interface, actual_interface } => {
                let mut s = join3("implementation '", impl_name.as_str(), "' implements '");
                s.append(actual_interface.as_str());
                s.append("', not '");
                s.append(expected_interface.as_str());
                s.append("'");
                s
            },
            ResolveError::NoTarget => String::from_str(
                "skill invocation has no resolution target (no interface, impl, or name)",
            ),
        }
    }
}


// ---------------------------------------------------------------------------
// Laws
// ---------------------------------------------------------------------------

/// Priorities do not increase along `s`.
pub open spec fn descending(s: Seq<SpecImplementationEntry>) -> bool {
    forall|i: int, j: int| 0 <= i < j < s.len() ==> #[trigger] s[i].priority >= #[trigger] s[j].priority
}

proof fn lemma_insert_keeps_order(sorted: Seq<SpecImplementationEntry>, x: SpecImplementationEntry)
    requires
        descending(sorted),
    ensures
        descending(insert_by_priority(sorted, x)),
        forall|e: SpecImplementationEntry| #[trigger] insert_by_priority(sorted, x).contains(e) <==> (sorted.contains(e) || e == x),
    decreases sorted.len(),
{
    let s2 = insert_by_priority(sorted, x);
    if sorted.len() == 0 {
        assert(s2 =~= seq![x]);
        assert(s2[0] == x);
    } else if sorted.last().priority >= x.priority {
        assert(s2 == sorted.push(x));
        assert forall|e: SpecImplementationEntry| #[trigger] s2.contains(e) <==> (sorted.contains(e) || e == x) by {
            if s2.contains(e) {
                let k = choose|k: int| 0 <= k < s2.len() && s2[k] == e;
                if k < sorted.len() {
                    assert(sorted[k] == e);
                }
            }
            if sorted.contains(e) {
                let k = choose|k: int| 0 <= k < sorted.len() && sorted[k] == e;
                assert(s2[k] == e);
            }
            assert(s2[sorted.len() as int] == x);
        }
        assert forall|i: int, j: int| 0 <= i < j < s2.len() implies #[trigger] s2[i].priority >= #[trigger] s2[j].priority by {
            assert(s2[i] == sorted[i]);
            if j < sorted.len() {
                assert(s2[j] == sorted[j]);
            } else {
                assert(sorted[i].priority >= sorted[sorted.len() - 1].priority);
            }
        }
    } else {
        let d = sorted.drop_last();
        assert forall|i: int, j: int| 0 <= i < j < d.len() implies #[trigger] d[i].priority >= #[trigger] d[j].priority by {
            assert(d[i] == sorted[i] && d[j] == sorted[j]);
        }
        lemma_insert_keeps_order(d, x);
        let t = insert_by_priority(d, x);
        let l = sorted.last();
        assert(s2 == t.push(l));
        assert forall|e: SpecImplementationEntry| #[trigger] s2.contains(e) <==> (sorted.contains(e) || e == x) by {
            if s2.contains(e) {
                let k = choose|k: int| 0 <= k < s2.len() && s2[k] == e;
                if k < t.len() {
                    assert(t[k] == e);
                    assert(t.contains(e));
                    if d.contains(e) {
                        let m = choose|m: int| 0 <= m < d.len() && d[m] == e;
                        assert(sorted[m] == e);
                    }
                } else {
                    assert(sorted[sorted.len() - 1] == e);
                }
            }
            if sorted.contains(e) {
                let k = choose|k: int| 0 <= k < sorted.len() && sorted[k] == e;
                if k < sorted.len() - 1 {
                    assert(d[k] == e);
                    assert(t.contains(e));
                    let m = choose|m: int| 0 <= m < t.len() && t[m] == e;
                    assert(s2[m] == e);
                } else {
                    assert(s2[t.len() as int] == e);
                }
            }
            if e == x {
                assert(t.contains(x));
                let m = choose|m: int| 0 <= m < t.len() && t[m] == x;
                assert(s2[m] == x);
            }
        }
        assert forall|i: int, j: int| 0 <= i < j < s2.len() implies #[trigger] s2[i].priority >= #[trigger] s2[j].priority by {
            if j < t.len() {
                assert(s2[i] == t[i] && s2[j] == t[j]);
            } else {
                assert(s2[j] == l);
                assert(s2[i] == t[i]);
                assert(t.contains(t[i]));
                if t[i] != x {
                    assert(d.contains(t[i]));
                    let m = choose|m: int| 0 <= m < d.len() && d[m] == t[i];
                    assert(sorted[m] == t[i]);
                    assert(sorted[m].priority >= sorted[sorted.len() - 1].priority);
                }
            }
        }
    }
}

proof fn lemma_by_priority_order(c: Seq<SpecImplementationEntry>)
    ensures
        descending(by_priority(c)),
        forall|e: SpecImplementationEntry| #[trigger] by_priority(c).contains(e) <==> c.contains(e),
    decreases c.len(),
{
    if c.len() > 0 {
        let d = c.drop_last();
        lemma_by_priority_order(d);
        lemma_insert_keeps_order(by_priority(d), c.last());
        assert forall|e: SpecImplementationEntry| #[trigger] by_priority(c).contains(e) <==> c.contains(e) by {
            if c.contains(e) {
                let k = choose|k: int| 0 <= k < c.len() && c[k] == e;
                if k < c.len() - 1 {
                    assert(d[k] == e);
                }
            }
            if d.contains(e) {
                let k = choose|k: int| 0 <= k < d.len() && d[k] == e;
                assert(c[k] == e);
            }
        }
    } else {
        assert(by_priority(c) =~= c);
    }
}

proof fn lemma_with_language_sub(c: Seq<SpecImplementationEntry>, l: Str)
    ensures
        forall|e: SpecImplementationEntry| #[trigger] with_language(c, l).contains(e) ==> c.contains(e) && e.language == Some(l),
    decreases c.len(),
{
    if c.len() > 0 {
        let d = c.drop_last();
        lemma_with_language_sub(d, l);
        assert forall|e: SpecImplementationEntry| #[trigger] with_language(c, l).contains(e) implies c.contains(e) && e.language == Some(l) by {
            let w = with_language(d, l);
            if c.last().language == Some(l) {
                let k = choose|k: int| 0 <= k < w.len() + 1 && w.push(c.last())[k] == e;
                if k < w.len() {
                    assert(w[k] == e);
                    assert(w.contains(e));
                    let m = choose|m: int| 0 <= m < d.len() && d[m] == e;
                    assert(c[m] == e);
                } else {
                    assert(c[c.len() - 1] == e);
                }
            } else {
                assert(w.contains(e));
                let m = choose|m: int| 0 <= m < d.len() && d[m] == e;
                assert(c[m] == e);
            }
        }
    }
}

proof fn lemma_with_framework_sub(c: Seq<SpecImplementationEntry>, f: Str)
    ensures
        forall|e: SpecImplementationEntry| #[trigger] with_framework(c, f).contains(e) ==> c.contains(e) && e.framework == Some(f),
    decreases c.len(),
{
    if c.len() > 0 {
        let d = c.drop_last();
        lemma_with_framework_sub(d, f);
        assert forall|e: SpecImplementationEntry| #[trigger] with_framework(c, f).contains(e) implies c.contains(e) && e.framework == Some(f) by {
            let w = with_framework(d, f);
            if c.last().framework == Some(f) {
                let k = choose|k: int| 0 <= k < w.len() + 1 && w.push(c.last())[k] == e;
                if k < w.len() {
                    assert(w[k] == e);
                    assert(w.contains(e));
                    let m = choose|m: int| 0 <= m < d.len() && d[m] == e;
                    assert(c[m] == e);
                } else {
                    assert(c[c.len() - 1] == e);
                }
            } else {
                assert(w.contains(e));
                let m = choose|m: int| 0 <= m < d.len() && d[m] == e;
                assert(c[m] == e);
            }
        }
    }
}

/// Pushing onto a list without repeats an entry it lacks keeps it without repeats.
proof fn lemma_push_distinct(s: Seq<SpecImplementationEntry>, x: SpecImplementationEntry)
    requires
        s.no_duplicates(),
        !s.contains(x),
    ensures
        s.push(x).no_duplicates(),
{
    let t = s.push(x);
    assert forall|i: int, j: int| 0 <= i < t.len() && 0 <= j < t.len() && i != j implies t[i] != t[j] by {
        if i < s.len() && j < s.len() {
            assert(t[i] == s[i] && t[j] == s[j]);
        } else if i < s.len() {
            assert(t[i] == s[i]);
        } else {
            assert(t[j] == s[j]);
        }
    }
}

proof fn lemma_drop_last_distinct(s: Seq<SpecImplementationEntry>)
    requires
        s.len() > 0,
        s.no_duplicates(),
    ensures
        s.drop_last().no_duplicates(),
        !s.drop_last().contains(s.last()),
{
    let d = s.drop_last();
    assert forall|i: int, j: int| 0 <= i < d.len() && 0 <= j < d.len() && i != j implies d[i] != d[j] by {
        assert(d[i] == s[i] && d[j] == s[j]);
    }
    if d.contains(s.last()) {
        let k = choose|k: int| 0 <= k < d.len() && d[k] == s.last();
        assert(s[k] == s[s.len() - 1]);
    }
}

proof fn lemma_filters_distinct(c: Seq<SpecImplementationEntry>, f: Str, l: Str, g: Str)
    requires
        c.no_duplicates(),
    ensures
        impls_of(c, f).no_duplicates(),
        with_language(c, l).no_duplicates(),
        with_framework(c, g).no_duplicates(),
    decreases c.len(),
{
    if c.len() > 0 {
        let d = c.drop_last();
        lemma_drop_last_distinct(c);
        lemma_filters_distinct(d, f, l, g);
        crate::registry::law_implementations_for_are_exactly_the_implementers(d, f);
        lemma_with_language_sub(d, l);
        lemma_with_framework_sub(d, g);
        if c.last().implements == f {
            lemma_push_distinct(impls_of(d, f), c.last());
        }
        if c.last().language == Some(l) {
            lemma_push_distinct(with_language(d, l), c.last());
        }
        if c.last().framework == Some(g) {
            lemma_push_distinct(with_framework(d, g), c.last());
        }
    }
}

proof fn lemma_insert_distinct(sorted: Seq<SpecImplementationEntry>, x: SpecImplementationEntry)
    requires
        descending(sorted),
        sorted.no_duplicates(),
        !sorted.contains(x),
    ensures
        insert_by_priority(sorted, x).no_duplicates(),
    decreases sorted.len(),
{
    if sorted.len() == 0 {
        assert(insert_by_priority(sorted, x) =~= seq![x]);
    } else if sorted.last().priority >= x.priority {
        lemma_push_distinct(sorted, x);
    } else {
        let d = sorted.drop_last();
        assert forall|i: int, j: int| 0 <= i < j < d.len() implies #[trigger] d[i].priority >= #[trigger] d[j].priority by {
            assert(d[i] == sorted[i] && d[j] == sorted[j]);
        }
        lemma_drop_last_distinct(sorted);
        assert(!d.contains(x)) by {
            if d.contains(x) {
                let k = choose|k: int| 0 <= k < d.len() && d[k] == x;
                assert(sorted[k] == x);
            }
        }
        lemma_insert_distinct(d, x);
        lemma_insert_keeps_order(d, x);
        lemma_push_distinct(insert_by_priority(d, x), sorted.last());
    }
}

proof fn lemma_by_priority_distinct(c: Seq<SpecImplementationEntry>)
    requires
        c.no_duplicates(),
    ensures
        by_priority(c).no_duplicates(),
    decreases c.len(),
{
    if c.len() > 0 {
        let d = c.drop_last();
        lemma_drop_last_distinct(c);
        lemma_by_priority_distinct(d);
        lemma_by_priority_order(d);
        lemma_insert_distinct(by_priority(d), c.last());
    } else {
        assert(by_priority(c) =~= c);
    }
}

/// In a registry with distinct names, the candidates that the hints leave are distinct.
proof fn lemma_hinted_distinct(r: SpecRegistry, f: Str, lang: Option<Str>, fw: Option<Str>)
    requires
        registry_wf(r),
    ensures
        hinted_candidates(r, f, lang, fw).no_duplicates(),
        ranked_candidates(r, f, lang, fw).no_duplicates(),
{
    let im = r.implementations;
    assert forall|i: int, j: int| 0 <= i < im.len() && 0 <= j < im.len() && i != j implies im[i] != im[j] by {
        if i < j {
            assert(im[i].name != im[j].name);
        } else {
            assert(im[j].name != im[i].name);
        }
    }
    let c0 = impls_of(im, f);
    lemma_filters_distinct(im, f, Seq::empty(), Seq::empty());
    let c1 = match lang {
        Some(l) => with_language(c0, l),
        None => c0,
    };
    if let Some(l) = lang {
        lemma_filters_distinct(c0, f, l, Seq::empty());
    }
    if let Some(g) = fw {
        lemma_filters_distinct(c1, f, Seq::empty(), g);
    }
    lemma_by_priority_distinct(hinted_candidates(r, f, lang, fw));
}

proof fn lemma_with_language_keeps(c: Seq<SpecImplementationEntry>, l: Str, e: SpecImplementationEntry)
    requires
        c.contains(e),
        e.language == Some(l),
    ensures
        with_language(c, l).contains(e),
    decreases c.len(),
{
    let d = c.drop_last();
    if c.last() == e {
        assert(with_language(c, l) == with_language(d, l).push(e));
        assert(with_language(d, l).push(e)[with_language(d, l).len() as int] == e);
    } else {
        let k = choose|k: int| 0 <= k < c.len() && c[k] == e;
        assert(d[k] == e);
        lemma_with_language_keeps(d, l, e);
        if c.last().language == Some(l) {
            let w = with_language(d, l);
            let m = choose|m: int| 0 <= m < w.len() && w[m] == e;
            assert(w.push(c.last())[m] == e);
        }
    }
}

proof fn lemma_with_framework_keeps(c: Seq<SpecImplementationEntry>, g: Str, e: SpecImplementationEntry)
    requires
        c.contains(e),
        e.framework == Some(g),
    ensures
        with_framework(c, g).contains(e),
    decreases c.len(),
{
    let d = c.drop_last();
    if c.last() == e {
        assert(with_framework(c, g) == with_framework(d, g).push(e));
        assert(with_framework(d, g).push(e)[with_framework(d, g).len() as int] == e);
    } else {
        let k = choose|k: int| 0 <= k < c.len() && c[k] == e;
        assert(d[k] == e);
        lemma_with_framework_keeps(d, g, e);
        if c.last().framework == Some(g) {
            let w = with_framework(d, g);
            let m = choose|m: int| 0 <= m < w.len() && w[m] == e;
            assert(w.push(c.last())[m] == e);
        }
    }
}

/// The hints keep exactly the registered implementations of the interface that match
/// them: those of the hinted language, where a language is hinted, and of the hinted
/// framework, where a framework is hinted. So resolving by interface with hints never
/// yields an implementation below the priority of any matching one.
pub proof fn law_hints_keep_every_matching_implementation(
    r: SpecRegistry,
    f: Str,
    name: Option<Str>,
    lang: Option<Str>,
    fw: Option<Str>,
    e: SpecImplementationEntry,
)
    ensures
        hinted_candidates(r, f, lang, fw).contains(e) <==> {
            &&& r.implementations.contains(e)
            &&& e.implements == f
            &&& (lang is Some ==> e.language == lang)
            &&& (fw is Some ==> e.framework == fw)
        },
        resolution(r, Some(f), None, name, lang, fw) matches Ok(x) ==> ({
            &&& r.implementations.contains(e)
            &&& e.implements == f
            &&& (lang is Some ==> e.language == lang)
            &&& (fw is Some ==> e.framework == fw)
        } ==> e.priority <= x.priority),
{
    let c0 = impls_of(r.implementations, f);
    let c1 = match lang {
        Some(l) => with_language(c0, l),
        None => c0,
    };
    crate::registry::law_implementations_for_are_exactly_the_implementers(r.implementations, f);
    if let Some(l) = lang {
        lemma_with_language_sub(c0, l);
        if c0.contains(e) && e.language == Some(l) {
            lemma_with_language_keeps(c0, l, e);
        }
    }
    if let Some(g) = fw {
        lemma_with_framework_sub(c1, g);
        if c1.contains(e) && e.framework == Some(g) {
            lemma_with_framework_keeps(c1, g, e);
        }
    }
    law_interface_resolution_picks_the_highest_priority(r, f, name, lang, fw);
}

/// Resolving by interface, without an explicit `impl`, among the candidates that the hints
/// leave (in a registry with distinct names): where one candidate has the highest priority
/// alone, it is the result; where another shares that priority, resolution is ambiguous
/// and names every such candidate, those of highest priority first.
pub proof fn law_interface_resolution_by_priority(
    r: SpecRegistry,
    f: Str,
    name: Option<Str>,
    lang: Option<Str>,
    fw: Option<Str>,
    i: int,
)
    requires
        registry_wf(r),
        0 <= i < hinted_candidates(r, f, lang, fw).len(),
        forall|j: int| 0 <= j < hinted_candidates(r, f, lang, fw).len()
            ==> #[trigger] hinted_candidates(r, f, lang, fw)[j].priority <= hinted_candidates(r, f, lang, fw)[i].priority,
    ensures
        (forall|j: int| 0 <= j < hinted_candidates(r, f, lang, fw).len() && j != i
            ==> #[trigger] hinted_candidates(r, f, lang, fw)[j].priority < hinted_candidates(r, f, lang, fw)[i].priority)
            ==> resolution(r, Some(f), None, name, lang, fw) == Ok::<SpecImplementationEntry, SpecResolveError>(
            hinted_candidates(r, f, lang, fw)[i],
        ),
        (exists|j: int| 0 <= j < hinted_candidates(r, f, lang, fw).len() && j != i
            && #[trigger] hinted_candidates(r, f, lang, fw)[j].priority == hinted_candidates(r, f, lang, fw)[i].priority)
            ==> resolution(r, Some(f), None, name, lang, fw) == Err::<SpecImplementationEntry, SpecResolveError>(
            SpecResolveError::Ambiguous { interface: f, candidates: names_of(ranked_candidates(r, f, lang, fw)) },
        ),
{
    let c0 = impls_of(r.implementations, f);
    let h = hinted_candidates(r, f, lang, fw);
    let c = ranked_candidates(r, f, lang, fw);
    let m = h[i].priority;
    lemma_hinted_distinct(r, f, lang, fw);
    lemma_by_priority_order(h);
    lemma_by_priority_len(h);
    let c1 = match lang {
        Some(l) => with_language(c0, l),
        None => c0,
    };
    if let Some(l) = lang {
        lemma_with_language_sub(c0, l);
    }
    if let Some(g) = fw {
        lemma_with_framework_sub(c1, g);
    }
    assert(h.contains(h[i]));
    assert(c1.contains(h[i]));
    assert(c0.contains(h[i]));
    assert(c0.len() > 0);
    assert(c.contains(h[i]));
    let ki = choose|k: int| 0 <= k < c.len() && c[k] == h[i];
    assert(c[0].priority >= c[ki].priority);
    assert(c.contains(c[0]));
    assert(by_priority(h).contains(c[0]));
    assert(h.contains(c[0]));
    let j0 = choose|j: int| 0 <= j < h.len() && h[j] == c[0];
    assert(c[0].priority == m);
    if forall|j: int| 0 <= j < h.len() && j != i ==> #[trigger] h[j].priority < m {
        assert(j0 == i);
        if c.len() > 1 {
            assert(c.contains(c[1]));
            assert(by_priority(h).contains(c[1]));
            assert(h.contains(c[1]));
            let j1 = choose|j: int| 0 <= j < h.len() && h[j] == c[1];
            assert(c[1] != c[0]);
            assert(j1 != i);
            assert(h[j1].priority < m);
        }
    }
    if exists|j: int| 0 <= j < h.len() && j != i && #[trigger] h[j].priority == m {
        let j = choose|j: int| 0 <= j < h.len() && j != i && #[trigger] h[j].priority == m;
        assert(h[j] != h[i]);
        assert(h.contains(h[j]));
        assert(c.contains(h[j]));
        let kj = choose|k: int| 0 <= k < c.len() && c[k] == h[j];
        assert(ki != kj);
        assert(c.len() > 1);
        if c[1].priority < m {
            if ki > 0 {
                assert(c[1].priority >= c[ki].priority);
            }
            if kj > 0 {
                assert(c[1].priority >= c[kj].priority);
            }
            assert(false);
        }
        assert(c[0].priority == c[1].priority);
    }
}

/// Resolving by interface, without an explicit `impl`, yields a registered implementation
/// of that interface, chosen among the candidates that the hints leave, with a priority
/// that every other candidate stays strictly below.
pub proof fn law_interface_resolution_picks_the_highest_priority(
    r: SpecRegistry,
    f: Str,
    name: Option<Str>,
    lang: Option<Str>,
    fw: Option<Str>,
)
    ensures
        resolution(r, Some(f), None, name, lang, fw) matches Ok(e) ==> {
            &&& e.implements == f
            &&& r.implementations.contains(e)
            &&& hinted_candidates(r, f, lang, fw).contains(e)
            &&& forall|k: int| 1 <= k < ranked_candidates(r, f, lang, fw).len()
                ==> #[trigger] ranked_candidates(r, f, lang, fw)[k].priority < e.priority
            &&& forall|x: SpecImplementationEntry| #[trigger] hinted_candidates(r, f, lang, fw).contains(x) ==> x.priority <= e.priority
        },
{
    let c0 = impls_of(r.implementations, f);
    let h = hinted_candidates(r, f, lang, fw);
    let c = ranked_candidates(r, f, lang, fw);
    if let Ok(e) = resolution(r, Some(f), None, name, lang, fw) {
        crate::registry::law_implementations_for_are_exactly_the_implementers(r.implementations, f);
        lemma_by_priority_order(h);
        lemma_by_priority_len(h);
        let c1 = match lang {
            Some(l) => with_language(c0, l),
            None => c0,
        };
        assert forall|x: SpecImplementationEntry| #[trigger] c1.contains(x) implies c0.contains(x) by {
            if let Some(l) = lang {
                lemma_with_language_sub(c0, l);
            }
        }
        assert forall|x: SpecImplementationEntry| #[trigger] h.contains(x) implies c1.contains(x) by {
            if let Some(g) = fw {
                lemma_with_framework_sub(c1, g);
            }
        }
        assert(e == c[0]);
        assert(c.contains(e));
        assert(h.contains(e));
        assert(c0.contains(e));
        assert forall|k: int| 1 <= k < c.len() implies #[trigger] c[k].priority < e.priority by {
            assert(c[1].priority >= c[k].priority);
            assert(c[0].priority >= c[1].priority);
        }
        assert forall|x: SpecImplementationEntry| #[trigger] h.contains(x) implies x.priority <= e.priority by {
            assert(c.contains(x));
            let k = choose|k: int| 0 <= k < c.len() && c[k] == x;
            if k > 0 {
                assert(c[0].priority >= c[k].priority);
            }
        }
    }
}

/// With an explicit `impl`, resolution yields the implementation of that name, and one of
/// the named interface when an interface is given too.
pub proof fn law_explicit_impl_resolves_to_it(
    r: SpecRegistry,
    interface: Option<Str>,
    i: Str,
    name: Option<Str>,
    lang: Option<Str>,
    fw: Option<Str>,
)
    ensures
        resolution(r, interface, Some(i), name, lang, fw) matches Ok(e) ==> e.name == i && r.implementations.contains(e)
            && (interface matches Some(f) ==> e.implements == f),
        resolution(r, interface, Some(i), name, lang, fw) is Err <==> find_implementation(r, i) is None || (
        interface matches Some(f) && find_implementation(r, i).unwrap().implements != f),
{
    if crate::registry::has_implementation(r, i) {
        let k = choose|k: int| 0 <= k < r.implementations.len() && r.implementations[k].name == i;
        assert(r.implementations.contains(r.implementations[k]));
    }
}

} // verus!
