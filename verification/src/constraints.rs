//! Tool constraints inherited down nested `<tool>` directives: allow-lists
//! intersect, deny-lists accumulate.
use vstd::prelude::*;

use crate::ast::{opt_view, SpecToolDirective, Str, ToolDirective};
use crate::text::{chars_of, join3, list_items, list_items_of, strings_view};

verus! {

/// `s` with later repetitions of an item left out.
pub open spec fn dedup(s: Seq<Str>) -> Seq<Str>
    decreases s.len(),
{
    if s.len() == 0 {
        s
    } else {
        let d = dedup(s.drop_last());
        if d.contains(s.last()) {
            d
        } else {
            d.push(s.last())
        }
    }
}

/// The tool names of a comma-separated attribute: trimmed, non-empty, each once.
pub open spec fn tool_list(value: Str) -> Seq<Str> {
    dedup(list_items(value))
}

pub proof fn lemma_dedup_no_duplicates(s: Seq<Str>)
    ensures
        dedup(s).no_duplicates(),
        forall|x: Str| dedup(s).contains(x) <==> s.contains(x),
    decreases s.len(),
{
    if s.len() > 0 {
        lemma_dedup_no_duplicates(s.drop_last());
        let d = dedup(s.drop_last());
        let y = s.last();
        assert(s[s.len() - 1] == y);
        assert forall|x: Str| dedup(s).contains(x) <==> s.contains(x) by {
            if x == y {
                if !d.contains(y) {
                    assert(d.push(y)[d.len() as int] == y);
                }
            } else {
                if s.contains(x) {
                    let i = choose|i: int| 0 <= i < s.len() && s[i] == x;
                    assert(s.drop_last()[i] == x);
                }
                if s.drop_last().contains(x) {
                    let i = choose|i: int| 0 <= i < s.drop_last().len() && s.drop_last()[i] == x;
                    assert(s[i] == x);
                }
                if dedup(s).contains(x) && !d.contains(y) {
                    let i = choose|i: int| 0 <= i < d.push(y).len() && d.push(y)[i] == x;
                    assert(d[i] == x);
                }
                if d.contains(x) && !d.contains(y) {
                    let i = choose|i: int| 0 <= i < d.len() && d[i] == x;
                    assert(d.push(y)[i] == x);
                }
            }
        }
    }
}

/// Whether `v` holds a string equal to `x`.
pub fn contains_string(v: &Vec<String>, x: &String) -> (b: bool)
    ensures
        b == strings_view(v@).contains(x@),
{
    let mut i: usize = 0;
    while i < v.len()
        invariant
            0 <= i <= v@.len(),
            forall|j: int| 0 <= j < i ==> v@[j]@ != x@,
        decreases v@.len() - i,
    {
        if v[i] == *x {
            assert(strings_view(v@)[i as int] == x@);
            return true;
        }
        i = i + 1;
    }
    assert forall|j: int| 0 <= j < strings_view(v@).len() implies strings_view(v@)[j] != x@ by {
        assert(strings_view(v@)[j] == v@[j]@);
    }
    false
}

/// Split a comma-separated attribute into non-empty, trimmed, deduplicated tool names.
pub fn parse_tool_list(value: &str) -> (r: Vec<String>)
    ensures
        strings_view(r@) == tool_list(value@),
{
    let chars = chars_of(value);
    let items = list_items_of(chars.as_slice(), 0, chars.len());
    assert(chars@.subrange(0, chars@.len() as int) =~= value@);
    let ghost all = strings_view(items@);
    let mut seen: Vec<String> = Vec::new();
    let mut i: usize = 0;
    while i < items.len()
        invariant
            0 <= i <= items@.len(),
            all == strings_view(items@),
            strings_view(seen@) == dedup(all.take(i as int)),
        decreases items@.len() - i,
    {
        assert(all.take(i + 1).drop_last() =~= all.take(i as int));
        assert(all.take(i + 1).last() == items@[i as int]@);
        if !contains_string(&seen, &items[i]) {
            seen.push(items[i].clone());
            assert(strings_view(seen@) =~= strings_view(seen@.drop_last()).push(items@[i as int]@));
        }
        i = i + 1;
    }
    assert(all.take(items@.len() as int) =~= all);
    seen
}

/// Active tool constraints inherited from ancestor `<tool>` directives.
#[derive(Debug)]
pub struct ToolConstraints {
    /// Tools explicitly allowed (intersection of all ancestor allow-lists).
    pub allowed: Option<Vec<String>>,
    /// Tools explicitly denied (union of all ancestor deny-lists).
    pub denied: Vec<String>,
}

/// The model of tool constraints.
#[verifier::ext_equal]
pub struct SpecConstraints {
    pub allowed: Option<Seq<Str>>,
    pub denied: Seq<Str>,
}

impl View for ToolConstraints {
    type V = SpecConstraints;

    open spec fn view(&self) -> SpecConstraints {
        SpecConstraints {
            allowed: match self.allowed {
                Some(a) => Some(strings_view(a@)),
                None => None,
            },
            denied: strings_view(self.denied@),
        }
    }
}

// ---------------------------------------------------------------------------
// The specification of constraint propagation
// ---------------------------------------------------------------------------

/// `a` without any occurrence of `tool`.
pub open spec fn remove_all(a: Seq<Str>, tool: Str) -> Seq<Str>
    decreases a.len(),
{
    if a.len() == 0 {
        a
    } else if a.last() == tool {
        remove_all(a.drop_last(), tool)
    } else {
        remove_all(a.drop_last(), tool).push(a.last())
    }
}

/// Deny one tool: it joins the deny-list and leaves the allow-list.
pub open spec fn deny_one(c: SpecConstraints, tool: Str) -> SpecConstraints {
    if c.denied.contains(tool) {
        c
    } else {
        SpecConstraints {
            allowed: match c.allowed {
                Some(a) => Some(remove_all(a, tool)),
                None => None,
            },
            denied: c.denied.push(tool),
        }
    }
}

/// Deny every tool of `tools`, in order.
pub open spec fn deny_all(c: SpecConstraints, tools: Seq<Str>) -> SpecConstraints
    decreases tools.len(),
{
    if tools.len() == 0 {
        c
    } else {
        deny_one(deny_all(c, tools.drop_last()), tools.last())
    }
}

pub open spec fn msg_allowed_but_denied(tool: Str) -> Str {
    "tool '"@ + tool + "' is allowed here but denied by an ancestor <tool> directive"@
}

pub open spec fn msg_allowed_outside(tool: Str) -> Str {
    "tool '"@ + tool + "' is allowed here but not in ancestor's allow-list"@
}

pub open spec fn msg_requested_but_denied(tool: Str, source: Str) -> Str {
    "tool '"@ + tool + "' is requested but denied by "@ + source + " <tool> directive"@
}

pub open spec fn msg_requested_outside(tool: Str) -> Str {
    "tool '"@ + tool + "' is requested but not in ancestor's allow-list"@
}

pub open spec fn msg_name_redundant() -> Str {
    "<tool> 'name' is redundant when 'allow' is also set"@
}

/// One warning for every requested tool that is denied.
pub open spec fn denied_warnings(requested: Seq<Str>, denied: Seq<Str>) -> Seq<Str>
    decreases requested.len(),
{
    if requested.len() == 0 {
        Seq::empty()
    } else {
        denied_warnings(requested.drop_last(), denied) + if denied.contains(requested.last()) {
            seq![msg_allowed_but_denied(requested.last())]
        } else {
            Seq::empty()
        }
    }
}

/// One warning for every requested tool outside `pa` that is not denied.
pub open spec fn outside_warnings(requested: Seq<Str>, denied: Seq<Str>, pa: Seq<Str>) -> Seq<Str>
    decreases requested.len(),
{
    if requested.len() == 0 {
        Seq::empty()
    } else {
        outside_warnings(requested.drop_last(), denied, pa) + if !pa.contains(requested.last())
            && !denied.contains(requested.last()) {
            seq![msg_allowed_outside(requested.last())]
        } else {
            Seq::empty()
        }
    }
}

/// The requested tools that are not denied and, when `pa` is given, lie in it.
pub open spec fn effective(requested: Seq<Str>, denied: Seq<Str>, pa: Option<Seq<Str>>) -> Seq<Str>
    decreases requested.len(),
{
    if requested.len() == 0 {
        Seq::empty()
    } else {
        let t = requested.last();
        let keep = !denied.contains(t) && match pa {
            Some(p) => p.contains(t),
            None => true,
        };
        if keep {
            effective(requested.drop_last(), denied, pa).push(t)
        } else {
            effective(requested.drop_last(), denied, pa)
        }
    }
}

/// The warnings of an allow-list: first every requested tool that is denied, then every
/// requested tool outside the parent's allow-list that is not denied.
pub open spec fn allow_warnings(requested: Seq<Str>, denied: Seq<Str>, parent: SpecConstraints) -> Seq<Str> {
    denied_warnings(requested, denied) + match parent.allowed {
        Some(pa) => outside_warnings(requested, denied, pa),
        None => Seq::empty(),
    }
}

/// The warnings of the `name` shorthand.
pub open spec fn name_warnings(name: Str, denied: Seq<Str>, parent: SpecConstraints) -> Seq<Str> {
    (if denied.contains(name) {
        seq![
            msg_requested_but_denied(
                name,
                if parent.denied.contains(name) {
                    "an ancestor"@
                } else {
                    "this"@
                },
            ),
        ]
    } else {
        Seq::empty()
    }) + match parent.allowed {
        Some(pa) => if !pa.contains(name) && !denied.contains(name) {
            seq![msg_requested_outside(name)]
        } else {
            Seq::empty()
        },
        None => Seq::empty(),
    }
}

/// The effective allow-list of the `name` shorthand.
pub open spec fn name_effective(name: Str, denied: Seq<Str>, parent: SpecConstraints) -> Seq<Str> {
    if denied.contains(name) {
        Seq::empty()
    } else {
        match parent.allowed {
            Some(pa) => if pa.contains(name) {
                seq![name]
            } else {
                Seq::empty()
            },
            None => seq![name],
        }
    }
}

/// The constraints below a `<tool>` directive, and the warnings it raises.
pub open spec fn spec_apply(c: SpecConstraints, child: SpecToolDirective) -> (SpecConstraints, Seq<Str>) {
    let d = match child.deny {
        Some(deny) => deny_all(c, tool_list(deny)),
        None => c,
    };
    let (after_allow, w1) = match child.allow {
        Some(allow) => (
            SpecConstraints {
                allowed: Some(effective(tool_list(allow), d.denied, c.allowed)),
                denied: d.denied,
            },
            allow_warnings(tool_list(allow), d.denied, c),
        ),
        None => (d, Seq::empty()),
    };
    let (after_name, w2) = match child.name {
        Some(name) => if child.allow is None {
            (
                SpecConstraints {
                    allowed: Some(name_effective(name, after_allow.denied, c)),
                    denied: after_allow.denied,
                },
                name_warnings(name, after_allow.denied, c),
            )
        } else {
            (after_allow, Seq::empty())
        },
        None => (after_allow, Seq::empty()),
    };
    let w3 = if child.name is Some && child.allow is Some {
        seq![msg_name_redundant()]
    } else {
        Seq::empty()
    };
    (after_name, w1 + w2 + w3)
}

/// `a` without any occurrence of `tool`.
fn remove_string(a: &Vec<String>, tool: &String) -> (r: Vec<String>)
    ensures
        strings_view(r@) == remove_all(strings_view(a@), tool@),
{
    let ghost sa = strings_view(a@);
    let mut r: Vec<String> = Vec::new();
    let mut i: usize = 0;
    while i < a.len()
        invariant
            0 <= i <= a@.len(),
            sa == strings_view(a@),
            strings_view(r@) == remove_all(sa.take(i as int), tool@),
        decreases a@.len() - i,
    {
        assert(sa.take(i + 1).drop_last() =~= sa.take(i as int));
        assert(sa.take(i + 1).last() == a@[i as int]@);
        if a[i] != *tool {
            r.push(a[i].clone());
            assert(strings_view(r@) =~= strings_view(r@.drop_last()).push(a@[i as int]@));
        }
        i = i + 1;
    }
    assert(sa.take(a@.len() as int) =~= sa);
    r
}

fn dup_strings(v: &Vec<String>) -> (r: Vec<String>)
    ensures
        strings_view(r@) == strings_view(v@),
{
    let mut r: Vec<String> = Vec::new();
    let mut i: usize = 0;
    while i < v.len()
        invariant
            0 <= i <= v@.len(),
            r@.len() == i,
            forall|j: int| 0 <= j < i ==> r@[j]@ == v@[j]@,
        decreases v@.len() - i,
    {
        r.push(v[i].clone());
        i = i + 1;
    }
    assert(strings_view(r@) =~= strings_view(v@));
    r
}

impl ToolConstraints {
    /// No constraint: everything allowed, nothing denied.
    pub fn default() -> (c: Self)
        ensures
            c@.allowed is None,
            c@.denied.len() == 0,
    {
        ToolConstraints { allowed: None, denied: Vec::new() }
    }

    pub fn duplicate(&self) -> (c: Self)
        ensures
            c@ == self@,
    {
        ToolConstraints {
            allowed: match &self.allowed {
                Some(a) => Some(dup_strings(a)),
                None => None,
            },
            denied: dup_strings(&self.denied),
        }
    }

    /// Union child deny-list into accumulated denies and clean inherited allows.
    pub fn apply_deny(&mut self, deny: &str)
        ensures
            final(self)@ == deny_all(old(self)@, tool_list(deny@)),
    {
        let tools = parse_tool_list(deny);
        let ghost ts = strings_view(tools@);
        let ghost start = self@;
        let mut i: usize = 0;
        while i < tools.len()
            invariant
                0 <= i <= tools@.len(),
                ts == strings_view(tools@),
                ts == tool_list(deny@),
                start == old(self)@,
                self@ == deny_all(start, ts.take(i as int)),
            decreases tools@.len() - i,
        {
            assert(ts.take(i + 1).drop_last() =~= ts.take(i as int));
            assert(ts.take(i + 1).last() == tools@[i as int]@);
            let tool = &tools[i];
            if !contains_string(&self.denied, tool) {
                self.denied.push(tool.clone());
                assert(strings_view(self.denied@) =~= strings_view(self.denied@.drop_last()).push(tool@));
                let new_allowed = match &self.allowed {
                    Some(a) => Some(remove_string(a, tool)),
                    None => None,
                };
                self.allowed = new_allowed;
                assert(self@ =~= deny_one(deny_all(start, ts.take(i as int)), tool@));
            }
            i = i + 1;
        }
        assert(ts.take(tools@.len() as int) =~= ts);
    }

    /// Intersect child allow-list with accumulated constraints, emitting warnings.
    pub fn apply_allow(&mut self, allow: &str, parent: &ToolConstraints) -> (warnings: Vec<String>)
        ensures
            final(self)@.denied == old(self)@.denied,
            final(self)@.allowed == Some(effective(tool_list(allow@), old(self)@.denied, parent@.allowed)),
            strings_view(warnings@) == allow_warnings(tool_list(allow@), old(self)@.denied, parent@),
    {
        let requested = parse_tool_list(allow);
        let ghost req = strings_view(requested@);
        let ghost denied = self@.denied;
        let mut warnings: Vec<String> = Vec::new();
        let mut i: usize = 0;
        while i < requested.len()
            invariant
                0 <= i <= requested@.len(),
                req == strings_view(requested@),
                denied == strings_view(self.denied@),
                strings_view(warnings@) == denied_warnings(req.take(i as int), denied),
            decreases requested@.len() - i,
        {
            assert(req.take(i + 1).drop_last() =~= req.take(i as int));
            assert(req.take(i + 1).last() == requested@[i as int]@);
            let tool = &requested[i];
            if contains_string(&self.denied, tool) {
                let w = join3("tool '", tool.as_str(), "' is allowed here but denied by an ancestor <tool> directive");
                warnings.push(w);
                assert(strings_view(warnings@) =~= strings_view(warnings@.drop_last()).push(w@));
            } else {
                assert(denied_warnings(req.take(i + 1), denied) =~= denied_warnings(req.take(i as int), denied));
            }
            i = i + 1;
        }
        assert(req.take(requested@.len() as int) =~= req);
        let ghost w1 = strings_view(warnings@);
        if let Some(pa) = &parent.allowed {
            let ghost spa = strings_view(pa@);
            let mut j: usize = 0;
            while j < requested.len()
                invariant
                    0 <= j <= requested@.len(),
                    req == strings_view(requested@),
                    denied == strings_view(self.denied@),
                    spa == strings_view(pa@),
                    strings_view(warnings@) == w1 + outside_warnings(req.take(j as int), denied, spa),
                decreases requested@.len() - j,
            {
                assert(req.take(j + 1).drop_last() =~= req.take(j as int));
                assert(req.take(j + 1).last() == requested@[j as int]@);
                let tool = &requested[j];
                if !contains_string(pa, tool) && !contains_string(&self.denied, tool) {
                    let w = join3("tool '", tool.as_str(), "' is allowed here but not in ancestor's allow-list");
                    warnings.push(w);
                    assert(strings_view(warnings@) =~= strings_view(warnings@.drop_last()).push(w@));
                    assert(outside_warnings(req.take(j + 1), denied, spa) =~= outside_warnings(req.take(j as int), denied, spa).push(w@));
                    assert(w1 + outside_warnings(req.take(j as int), denied, spa).push(w@) =~= (w1 + outside_warnings(req.take(j as int), denied, spa)).push(w@));
                } else {
                    assert(outside_warnings(req.take(j + 1), denied, spa) =~= outside_warnings(req.take(j as int), denied, spa));
                }
                j = j + 1;
            }
            assert(req.take(requested@.len() as int) =~= req);
        } else {
            assert(strings_view(warnings@) =~= w1 + Seq::<Str>::empty());
        }
        let ghost pa_view = parent@.allowed;
        let mut eff: Vec<String> = Vec::new();
        let mut k: usize = 0;
        while k < requested.len()
            invariant
                0 <= k <= requested@.len(),
                req == strings_view(requested@),
                denied == strings_view(self.denied@),
                pa_view == parent@.allowed,
                strings_view(eff@) == effective(req.take(k as int), denied, pa_view),
            decreases requested@.len() - k,
        {
            assert(req.take(k + 1).drop_last() =~= req.take(k as int));
            assert(req.take(k + 1).last() == requested@[k as int]@);
            let tool = &requested[k];
            let in_parent = match &parent.allowed {
                Some(pa) => contains_string(pa, tool),
                None => true,
            };
            if in_parent && !contains_string(&self.denied, tool) {
                eff.push(tool.clone());
                assert(strings_view(eff@) =~= strings_view(eff@.drop_last()).push(tool@));
            }
            k = k + 1;
        }
        assert(req.take(requested@.len() as int) =~= req);
        self.allowed = Some(eff);
        warnings
    }

    /// Apply name shorthand as singleton allow-list, emitting warnings.
    pub fn apply_name(&mut self, name: &str, parent: &ToolConstraints) -> (warnings: Vec<String>)
        ensures
            final(self)@.denied == old(self)@.denied,
            final(self)@.allowed == Some(name_effective(name@, old(self)@.denied, parent@)),
            strings_view(warnings@) == name_warnings(name@, old(self)@.denied, parent@),
    {
        let mut warnings: Vec<String> = Vec::new();
        let name_s = String::from_str(name);
        let self_denied = contains_string(&self.denied, &name_s);
        if self_denied {
            let source = if contains_string(&parent.denied, &name_s) {
                "an ancestor"
            } else {
                "this"
            };
            let mut w = join3("tool '", name, "' is requested but denied by ");
            w.append(source);
            w.append(" <tool> directive");
            warnings.push(w);
        }
        let ghost w0 = strings_view(warnings@);
        if let Some(pa) = &parent.allowed {
            if !contains_string(pa, &name_s) && !self_denied {
                let w = join3("tool '", name, "' is requested but not in ancestor's allow-list");
                warnings.push(w);
                assert(strings_view(warnings@) =~= w0 + seq![w@]);
            } else {
                assert(strings_view(warnings@) =~= w0 + Seq::<Str>::empty());
            }
        } else {
            assert(strings_view(warnings@) =~= w0 + Seq::<Str>::empty());
        }
        let allowed: Vec<String> = if !self_denied {
            match &parent.allowed {
                Some(pa) => if contains_string(pa, &name_s) {
                    vec![name_s]
                } else {
                    Vec::new()
                },
                None => vec![name_s],
            }
        } else {
            Vec::new()
        };
        assert(strings_view(allowed@) =~= name_effective(name@, old(self)@.denied, parent@));
        assert(strings_view(warnings@) =~= name_warnings(name@, old(self)@.denied, parent@));
        self.allowed = Some(allowed);
        warnings
    }

    /// The constraints below the `<tool>` directive `child`, and the warnings it raises.
    pub fn apply(&self, child: &ToolDirective) -> (r: (Self, Vec<String>))
        ensures
            r.0@ == spec_apply(self@, child@).0,
            strings_view(r.1@) == spec_apply(self@, child@).1,
    {
        let mut warnings: Vec<String> = Vec::new();
        let mut new = self.duplicate();

        // Phase 1: union denies (runs first so deny state is current for allow/name)
        if let Some(deny) = &child.deny {
            new.apply_deny(deny.as_str());
        }
        let ghost d = new@;

        // Phase 2: intersect allows (uses the new deny-list, not the parent's)
        if let Some(allow) = &child.allow {
            let w = new.apply_allow(allow.as_str(), self);
            warnings = w;
        }
        let ghost after_allow = new@;
        let ghost w1 = strings_view(warnings@);

        // Phase 3: name shorthand — runs if allow is absent (deny may be present)
        if let Some(name) = &child.name {
            if child.allow.is_none() {
                let w = new.apply_name(name.as_str(), self);
                let mut k: usize = 0;
                while k < w.len()
                    invariant
                        0 <= k <= w@.len(),
                        strings_view(warnings@) == w1 + strings_view(w@).take(k as int),
                    decreases w@.len() - k,
                {
                    let ghost before = strings_view(warnings@);
                    warnings.push(w[k].clone());
                    assert(strings_view(warnings@) =~= before.push(w@[k as int]@));
                    assert(strings_view(w@).take(k + 1) =~= strings_view(w@).take(k as int).push(w@[k as int]@));
                    assert(strings_view(warnings@) =~= w1 + strings_view(w@).take(k + 1));
                    k = k + 1;
                }
                assert(strings_view(w@).take(w@.len() as int) =~= strings_view(w@));
            } else {
                assert(strings_view(warnings@) =~= w1 + Seq::<Str>::empty());
            }
        } else {
            assert(strings_view(warnings@) =~= w1 + Seq::<Str>::empty());
        }
        let ghost w12 = strings_view(warnings@);

        // Phase 4: redundancy warnings
        if child.name.is_some() && child.allow.is_some() {
            let w = String::from_str("<tool> 'name' is redundant when 'allow' is also set");
            warnings.push(w);
            assert(strings_view(warnings@) =~= w12 + seq![w@]);
        } else {
            assert(strings_view(warnings@) =~= w12 + Seq::<Str>::empty());
        }
        proof {
            assert(new@ =~= spec_apply(self@, child@).0);
            assert(strings_view(warnings@) =~= spec_apply(self@, child@).1);
        }
        (new, warnings)
    }
}

// ---------------------------------------------------------------------------
// Laws of constraint propagation
// ---------------------------------------------------------------------------

/// No tool is both allowed and denied.
pub open spec fn constraints_wf(c: SpecConstraints) -> bool {
    match c.allowed {
        Some(a) => forall|t: Str| a.contains(t) ==> !c.denied.contains(t),
        None => true,
    }
}

/// Every tool of `inner` is in `outer`.
pub open spec fn subset_of(inner: Seq<Str>, outer: Seq<Str>) -> bool {
    forall|t: Str| inner.contains(t) ==> outer.contains(t)
}

proof fn lemma_push_contains(s: Seq<Str>, y: Str)
    ensures
        forall|x: Str| #[trigger] s.push(y).contains(x) <==> (s.contains(x) || x == y),
{
    assert forall|x: Str| #[trigger] s.push(y).contains(x) <==> (s.contains(x) || x == y) by {
        if s.contains(x) {
            let i = choose|i: int| 0 <= i < s.len() && s[i] == x;
            assert(s.push(y)[i] == x);
        }
        if x == y {
            assert(s.push(y)[s.len() as int] == x);
        }
        if s.push(y).contains(x) {
            let i = choose|i: int| 0 <= i < s.push(y).len() && s.push(y)[i] == x;
            if i < s.len() {
                assert(s[i] == x);
            }
        }
    }
}

proof fn lemma_remove_all(a: Seq<Str>, tool: Str)
    ensures
        forall|x: Str| #[trigger] remove_all(a, tool).contains(x) <==> (a.contains(x) && x != tool),
    decreases a.len(),
{
    if a.len() == 0 {
        assert forall|x: Str| #[trigger] remove_all(a, tool).contains(x) <==> (a.contains(x) && x != tool) by {
            assert(!a.contains(x));
            assert(!remove_all(a, tool).contains(x));
        }
    } else {
        let d = a.drop_last();
        let y = a.last();
        lemma_remove_all(d, tool);
        let r0 = remove_all(d, tool);
        lemma_push_contains(d, y);
        lemma_push_contains(r0, y);
        assert(d.push(y) =~= a);
        assert forall|x: Str| #[trigger] remove_all(a, tool).contains(x) <==> (a.contains(x) && x != tool) by {
            assert(d.push(y).contains(x) <==> (d.contains(x) || x == y));
            assert(r0.contains(x) <==> (d.contains(x) && x != tool));
            if y != tool {
                assert(r0.push(y).contains(x) <==> (r0.contains(x) || x == y));
            }
        }
    }
}

proof fn lemma_effective(requested: Seq<Str>, denied: Seq<Str>, pa: Option<Seq<Str>>)
    ensures
        forall|x: Str| #[trigger]
            effective(requested, denied, pa).contains(x) ==> !denied.contains(x) && match pa {
                Some(p) => p.contains(x),
                None => true,
            },
    decreases requested.len(),
{
    if requested.len() == 0 {
        assert forall|x: Str| #[trigger] effective(requested, denied, pa).contains(x) implies !denied.contains(x)
            && match pa {
            Some(p) => p.contains(x),
            None => true,
        } by {
            assert(!effective(requested, denied, pa).contains(x));
        }
    } else {
        let t = requested.last();
        lemma_effective(requested.drop_last(), denied, pa);
        let e0 = effective(requested.drop_last(), denied, pa);
        lemma_push_contains(e0, t);
        assert forall|x: Str| #[trigger] effective(requested, denied, pa).contains(x) implies !denied.contains(x)
            && match pa {
            Some(p) => p.contains(x),
            None => true,
        } by {
            assert(e0.contains(x) ==> !denied.contains(x) && match pa {
                Some(p) => p.contains(x),
                None => true,
            });
            assert(e0.push(t).contains(x) <==> (e0.contains(x) || x == t));
        }
    }
}

proof fn lemma_deny_all(c: SpecConstraints, ts: Seq<Str>)
    ensures
        forall|x: Str| #[trigger] deny_all(c, ts).denied.contains(x) <==> (c.denied.contains(x) || ts.contains(x)),
        deny_all(c, ts).allowed is Some <==> c.allowed is Some,
        c.allowed is Some ==> subset_of(deny_all(c, ts).allowed->0, c.allowed->0),
        constraints_wf(c) ==> constraints_wf(deny_all(c, ts)),
    decreases ts.len(),
{
    if ts.len() == 0 {
        assert forall|x: Str| #[trigger] deny_all(c, ts).denied.contains(x) <==> (c.denied.contains(x) || ts.contains(x)) by {
            assert(!ts.contains(x));
        }
    } else {
        let t = ts.last();
        let dl = ts.drop_last();
        let c0 = deny_all(c, dl);
        let c1 = deny_all(c, ts);
        lemma_deny_all(c, dl);
        lemma_push_contains(c0.denied, t);
        lemma_push_contains(dl, t);
        assert(dl.push(t) =~= ts);
        assert forall|x: Str| #[trigger] c1.denied.contains(x) <==> (c.denied.contains(x) || ts.contains(x)) by {
            assert(c0.denied.contains(x) <==> (c.denied.contains(x) || dl.contains(x)));
            assert(dl.push(t).contains(x) <==> (dl.contains(x) || x == t));
            assert(c0.denied.push(t).contains(x) <==> (c0.denied.contains(x) || x == t));
            assert(c0.denied.contains(t) ==> (c0.denied.contains(x) || x == t ==> c0.denied.contains(x)));
        }
        if !c0.denied.contains(t) {
            if let Some(a) = c0.allowed {
                lemma_remove_all(a, t);
                let ra = remove_all(a, t);
                if c.allowed is Some {
                    assert forall|x: Str| ra.contains(x) implies c.allowed->0.contains(x) by {
                        assert(ra.contains(x) ==> a.contains(x));
                    }
                }
                if constraints_wf(c) {
                    assert forall|x: Str| ra.contains(x) implies !c1.denied.contains(x) by {
                        assert(ra.contains(x) ==> a.contains(x) && x != t);
                        assert(c0.denied.push(t).contains(x) <==> (c0.denied.contains(x) || x == t));
                    }
                }
            }
        }
    }
}

/// A `<tool>` directive never lets a tool be both allowed and denied: applied to
/// constraints where no allowed tool is denied, it yields constraints where none is.
pub proof fn law_apply_keeps_allowed_and_denied_disjoint(c: SpecConstraints, child: SpecToolDirective)
    requires
        constraints_wf(c),
    ensures
        constraints_wf(spec_apply(c, child).0),
{
    let d = match child.deny {
        Some(deny) => deny_all(c, tool_list(deny)),
        None => c,
    };
    if let Some(deny) = child.deny {
        lemma_deny_all(c, tool_list(deny));
    }
    if let Some(allow) = child.allow {
        lemma_effective(tool_list(allow), d.denied, c.allowed);
    }
}

/// Nested `<tool>` directives only narrow: once an allow-list is in force, the allow-list
/// below any further `<tool>` directive is a subset of it.
pub proof fn law_apply_narrows_allowed(c: SpecConstraints, child: SpecToolDirective)
    requires
        c.allowed is Some,
    ensures
        spec_apply(c, child).0.allowed is Some,
        subset_of(spec_apply(c, child).0.allowed->0, c.allowed->0),
{
    let d = match child.deny {
        Some(deny) => deny_all(c, tool_list(deny)),
        None => c,
    };
    if let Some(deny) = child.deny {
        lemma_deny_all(c, tool_list(deny));
    }
    if let Some(allow) = child.allow {
        lemma_effective(tool_list(allow), d.denied, c.allowed);
    }
    if let Some(name) = child.name {
        let ne = name_effective(name, d.denied, c);
        assert forall|t: Str| ne.contains(t) implies c.allowed->0.contains(t) by {
            if ne.len() > 0 {
                assert(ne[0] == name);
            }
        }
    }
}

/// Deny-lists accumulate: below a `<tool>` directive exactly the tools denied above it and
/// the tools of its own `deny` list are denied.
pub proof fn law_apply_accumulates_denied(c: SpecConstraints, child: SpecToolDirective)
    ensures
        forall|x: Str| spec_apply(c, child).0.denied.contains(x) <==> (c.denied.contains(x) || match child.deny {
            Some(deny) => tool_list(deny).contains(x),
            None => false,
        }),
{
    if let Some(deny) = child.deny {
        lemma_deny_all(c, tool_list(deny));
        assert forall|x: Str| spec_apply(c, child).0.denied.contains(x) <==> (c.denied.contains(x)
            || tool_list(deny).contains(x)) by {
            assert(deny_all(c, tool_list(deny)).denied.contains(x) <==> (c.denied.contains(x) || tool_list(deny).contains(x)));
        }
    }
}

} // verus!
