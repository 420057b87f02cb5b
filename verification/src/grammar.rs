//! The grammar the parser follows, as spec functions: what one step of a scan yields at a
//! position, what a whole scan yields, and what each tag parses to. `None` stands for a
//! parse error.
use vstd::prelude::*;

use crate::ast::{
    SpecFieldDecl, SpecIoDecl, SpecNode, SpecNodeDecl, SpecNodeKind, SpecParam, SpecParamDecl,
    SpecReturnDecl, SpecSkillRef, SpecToolConstraint, Str,
};
use crate::attrs::{attr_error, attr_get, attributes_of, AttrOutcome};
use crate::decls::{
    decl_error_span, field_decl_error, field_decl_error_span, field_decl_of, tool_constraint_error_span, io_decl_error, io_decl_of, node_decl_error, node_decl_of,
    param_decl_error, param_decl_of, ref_conflict, ref_conflict_error, returns_decl_error,
    returns_decl_of, skill_ref_error, skill_ref_of, span_between, tool_constraint_error,
    tool_constraint_of,
};
use crate::kinds::{directive_kind_of, node_kind_of};
use crate::parser::{merge_texts, open_tag_error, open_tag_error_span, open_tag_reading, upto_50};
use crate::scan::{
    body_decls, close_scan, close_tag_at, decode, first_decl_close, first_decl_open, first_match,
    next_boundary, open_tag_at, starts_at, tag_text, Body, DeclTag, TagName,
};

verus! {

/// Where a scan runs: top-level or directive content, the content of an invocation (its
/// `<param>` tags left out), or the body of an interface, contract or implementation.
pub enum Ctx {
    Plain,
    Invocation,
    Interface,
    Contract,
    Implementation,
}

/// What one step of a scan yields.
pub enum BodyItem {
    Child(SpecNode),
    Param(SpecParamDecl),
    Returns(SpecReturnDecl),
    Reads(SpecIoDecl),
    Writes(SpecIoDecl),
    Ref(SpecSkillRef),
    Constraint(SpecToolConstraint),
    Field(SpecFieldDecl),
    NodeDecl(SpecNodeDecl),
    NodeDecls(Seq<SpecNodeDecl>),
}

/// A text node.
pub open spec fn text_item(t: Seq<char>) -> BodyItem {
    BodyItem::Child(SpecNode::Text(t))
}

/// One item, and where the scan goes on.
pub open spec fn one(x: BodyItem, next: int) -> Option<(Seq<BodyItem>, int)> {
    Some((seq![x], next))
}

/// A tag parsed at `pos` into `r` (node and end) becomes a child.
pub open spec fn child_of(r: Option<(SpecNode, int)>) -> Option<(Seq<BodyItem>, int)> {
    match r {
        Some((n, end)) => one(BodyItem::Child(n), end),
        None => None,
    }
}

/// The text up to and including the next `>` (or the rest of the region).
pub open spec fn raw_to_gt(s: Seq<char>, pos: int, hi: int) -> Option<(Seq<BodyItem>, int)> {
    match first_match(s, pos, hi, ">"@) {
        Some(x) => one(text_item(s.subrange(pos, x + 1)), x + 1),
        None => one(text_item(s.subrange(pos, hi)), hi),
    }
}

/// Skip past the next `>` (or one character).
pub open spec fn skip_gt(s: Seq<char>, pos: int, hi: int) -> Option<(Seq<BodyItem>, int)> {
    match first_match(s, pos, hi, ">"@) {
        Some(x) => Some((Seq::empty(), x + 1)),
        None => Some((Seq::empty(), pos + 1)),
    }
}

/// Plain text up to the next boundary of body `b`, entities decoded; a single character
/// when a boundary is right at `pos`.
pub open spec fn text_run(s: Seq<char>, pos: int, hi: int, b: Body) -> Option<(Seq<BodyItem>, int)> {
    let te = match next_boundary(s, pos, hi, b) {
        Some(i) => i,
        None => hi,
    };
    if pos < te {
        one(text_item(decode(s.subrange(pos, te))), te)
    } else {
        one(text_item(s.subrange(pos, pos + 1)), pos + 1)
    }
}

/// One step of a scan at `pos` (with `pos < hi`): the items it yields and where the scan
/// goes on; `None` on a parse error. A comment is skipped (or, unclosed, kept as text) in
/// every context.
pub open spec fn step(ctx: Ctx, s: Seq<char>, offs: Seq<usize>, pos: int, hi: int) -> Option<(Seq<BodyItem>, int)>
    decreases hi - pos, 4nat,
{
    if pos < 0 || pos >= hi {
        None
    } else if starts_at(s, pos, hi, "<!--"@) {
        match first_match(s, pos, hi, "-->"@) {
            Some(x) => Some((Seq::empty(), x + 3)),
            None => one(text_item(s.subrange(pos, hi)), hi),
        }
    } else {
        match ctx {
            Ctx::Plain => plain_step_of(s, offs, pos, hi),
            Ctx::Invocation => invocation_step_of(s, offs, pos, hi),
            Ctx::Interface => interface_step_of(s, offs, pos, hi),
            Ctx::Contract => contract_step_of(s, offs, pos, hi),
            Ctx::Implementation => implementation_step_of(s, offs, pos, hi),
        }
    }
}

/// A step in top-level or directive content.
pub open spec fn plain_step_of(s: Seq<char>, offs: Seq<usize>, pos: int, hi: int) -> Option<(Seq<BodyItem>, int)>
    decreases hi - pos, 3nat,
{
    match close_tag_at(s, pos, hi) {
        Some(ct) => one(text_item("</"@ + tag_text(ct) + ">"@), pos + tag_text(ct).len() + 3),
        None => match open_tag_at(s, pos, hi) {
            Some(TagName::Skill) => child_of(skill_tag_of(s, offs, pos, hi)),
            Some(TagName::Param) => raw_to_gt(s, pos, hi),
            Some(t) => child_of(directive_tag_of(t, s, offs, pos, hi)),
            None => text_run(s, pos, hi, Body::Plain),
        },
    }
}

/// A step in an invocation's content: its `<param>` tags are skipped.
pub open spec fn invocation_step_of(s: Seq<char>, offs: Seq<usize>, pos: int, hi: int) -> Option<(Seq<BodyItem>, int)>
    decreases hi - pos, 3nat,
{
    match open_tag_at(s, pos, hi) {
        Some(TagName::Param) => match first_match(s, pos, hi, "</param>"@) {
            Some(c) => Some((Seq::empty(), c + 8)),
            None => Some((Seq::empty(), pos + 1)),
        },
        Some(TagName::Skill) => child_of(skill_tag_of(s, offs, pos, hi)),
        Some(t) => child_of(directive_tag_of(t, s, offs, pos, hi)),
        None => text_run(s, pos, hi, Body::Plain),
    }
}

/// A step in an interface body.
pub open spec fn interface_step_of(s: Seq<char>, offs: Seq<usize>, pos: int, hi: int) -> Option<(Seq<BodyItem>, int)>
    decreases hi - pos, 3nat,
{
    match first_decl_open(s, pos, hi, body_decls(Body::Interface)) {
        Some(d) => match d {
            DeclTag::Param => match param_decl_of(s, offs, pos, hi) {
                Some((x, end)) => one(BodyItem::Param(x), end),
                None => None,
            },
            DeclTag::Returns => match returns_decl_of(s, offs, pos, hi) {
                Some((x, end)) => one(BodyItem::Returns(x), end),
                None => None,
            },
            DeclTag::Reads => match io_decl_of("reads"@, s, offs, pos, hi) {
                Some((x, end)) => one(BodyItem::Reads(x), end),
                None => None,
            },
            _ => match io_decl_of("writes"@, s, offs, pos, hi) {
                Some((x, end)) => one(BodyItem::Writes(x), end),
                None => None,
            },
        },
        None => if first_decl_close(s, pos, hi, body_decls(Body::Interface)) is Some {
            skip_gt(s, pos, hi)
        } else {
            interface_tag_step_of(s, offs, pos, hi)
        },
    }
}

/// A step in an interface body where no declaration tag starts: skill references and
/// tool constraints, other tags, and text.
pub open spec fn interface_tag_step_of(s: Seq<char>, offs: Seq<usize>, pos: int, hi: int) -> Option<(Seq<BodyItem>, int)>
    decreases hi - pos, 2nat,
{
    match open_tag_at(s, pos, hi) {
        Some(TagName::Skill) => match skill_ref_of(s, offs, pos, hi) {
            Some(Some((x, end))) => one(BodyItem::Ref(x), end),
            Some(None) => child_of(skill_tag_of(s, offs, pos, hi)),
            None => None,
        },
        Some(TagName::Tool) => match tool_constraint_of(s, offs, pos, hi) {
            Some(Some((x, end))) => one(BodyItem::Constraint(x), end),
            Some(None) => child_of(directive_tag_of(TagName::Tool, s, offs, pos, hi)),
            None => None,
        },
        Some(TagName::Param) => Some((Seq::empty(), pos + 1)),
        Some(t) => child_of(directive_tag_of(t, s, offs, pos, hi)),
        None => text_run(s, pos, hi, Body::Interface),
    }
}

/// A step in a contract body.
pub open spec fn contract_step_of(s: Seq<char>, offs: Seq<usize>, pos: int, hi: int) -> Option<(Seq<BodyItem>, int)>
    decreases hi - pos, 3nat,
{
    if first_decl_open(s, pos, hi, body_decls(Body::Contract)) is Some {
        match field_decl_of(s, offs, pos, hi) {
            Some((x, end)) => one(BodyItem::Field(x), end),
            None => None,
        }
    } else if first_decl_close(s, pos, hi, body_decls(Body::Contract)) is Some {
        skip_gt(s, pos, hi)
    } else {
        match open_tag_at(s, pos, hi) {
            Some(TagName::Skill) => child_of(skill_tag_of(s, offs, pos, hi)),
            Some(TagName::Param) => raw_to_gt(s, pos, hi),
            Some(t) => child_of(directive_tag_of(t, s, offs, pos, hi)),
            None => text_run(s, pos, hi, Body::Contract),
        }
    }
}

/// A step in an implementation body.
pub open spec fn implementation_step_of(s: Seq<char>, offs: Seq<usize>, pos: int, hi: int) -> Option<(Seq<BodyItem>, int)>
    decreases hi - pos, 3nat,
{
    if first_decl_open(s, pos, hi, body_decls(Body::Implementation)) is Some {
        match node_decl_of(s, offs, pos, hi) {
            Some((x, end)) => one(BodyItem::NodeDecl(x), end),
            None => None,
        }
    } else if first_decl_close(s, pos, hi, body_decls(Body::Implementation)) is Some {
        skip_gt(s, pos, hi)
    } else {
        implementation_tag_step_of(s, offs, pos, hi)
    }
}

/// A step in an implementation body where no declaration tag starts: skill references
/// (with the `<node>` declarations of a wrapping one), other tags, and text.
pub open spec fn implementation_tag_step_of(s: Seq<char>, offs: Seq<usize>, pos: int, hi: int) -> Option<(Seq<BodyItem>, int)>
    decreases hi - pos, 2nat,
{
    match open_tag_at(s, pos, hi) {
        Some(TagName::Skill) => match impl_ref_of(s, offs, pos, hi) {
            Some(Some((ds, x, end))) => Some((seq![BodyItem::NodeDecls(ds), BodyItem::Ref(x)], end)),
            Some(None) => child_of(skill_tag_of(s, offs, pos, hi)),
            None => None,
        },
        Some(TagName::Param) => raw_to_gt(s, pos, hi),
        Some(t) => child_of(directive_tag_of(t, s, offs, pos, hi)),
        None => text_run(s, pos, hi, Body::Implementation),
    }
}

/// What a scan of `s[pos..hi]` in context `ctx` yields, step by step.
pub open spec fn items_scan(ctx: Ctx, s: Seq<char>, offs: Seq<usize>, pos: int, hi: int) -> Option<Seq<BodyItem>>
    decreases hi - pos + 1, 0nat,
{
    if pos < 0 || pos >= hi {
        Some(Seq::empty())
    } else {
        match step(ctx, s, offs, pos, hi) {
            Some((xs, next)) => if pos < next <= hi {
                match items_scan(ctx, s, offs, next, hi) {
                    Some(rest) => Some(xs + rest),
                    None => None,
                }
            } else {
                None
            },
            None => None,
        }
    }
}

/// A skill reference inside an implementation body: its `<node>` declarations (of a
/// wrapping form, whose body is read as an implementation body), the reference, and where
/// it ends; `Some(None)` for a skill tag without `ref`.
pub open spec fn impl_ref_of(s: Seq<char>, offs: Seq<usize>, lo: int, hi: int) -> Option<Option<(Seq<SpecNodeDecl>, SpecSkillRef, int)>>
    decreases hi - lo, 1nat,
{
    match open_tag_reading(s, lo, hi, "skill"@) {
        Some((e, sc, a)) => match attr_get(a, "ref"@) {
            None => Some(None),
            Some(n) => if ref_conflict(a) {
                None
            } else if sc {
                Some(
                    Some(
                        (
                            Seq::empty(),
                            SpecSkillRef { ref_name: n, role: attr_get(a, "role"@), span: span_between(offs, lo, e + 1) },
                            e + 1,
                        ),
                    ),
                )
            } else {
                match close_scan(s, e + 1, hi, "skill"@, 1) {
                    Some(ce) => if lo < e && e + 1 <= ce && ce + 8 <= hi {
                        match items_scan(Ctx::Implementation, s, offs, e + 1, ce) {
                            Some(items) => Some(
                                Some(
                                    (
                                        item_node_decls(items),
                                        SpecSkillRef {
                                            ref_name: n,
                                            role: attr_get(a, "role"@),
                                            span: span_between(offs, lo, ce + 8),
                                        },
                                        ce + 8,
                                    ),
                                ),
                            ),
                            None => None,
                        }
                    } else {
                        None
                    },
                    None => None,
                }
            },
        },
        None => None,
    }
}

/// The `<skill>` tag at `lo` and the index just past it: its kind from its attributes, and
/// for a wrapping tag its content (parameters and children of an invocation, declarations
/// and children of a definition).
pub open spec fn skill_tag_of(s: Seq<char>, offs: Seq<usize>, lo: int, hi: int) -> Option<(SpecNode, int)>
    decreases hi - lo, 1nat,
{
    match open_tag_reading(s, lo, hi, "skill"@) {
        Some((e, sc, a)) => match node_kind_of(a) {
            Ok(k) => if sc {
                Some(
                    (
                        SpecNode::Skill {
                            kind: k,
                            params: Seq::empty(),
                            children: Seq::empty(),
                            span: span_between(offs, lo, e + 1),
                        },
                        e + 1,
                    ),
                )
            } else {
                match close_scan(s, e + 1, hi, "skill"@, 1) {
                    Some(ce) => if lo < e && e + 1 <= ce && ce + 8 <= hi {
                        let span = span_between(offs, lo, ce + 8);
                        match k {
                            SpecNodeKind::InterfaceDefinition { name, extends, legacy_implements, description, .. } =>
                                match items_scan(Ctx::Interface, s, offs, e + 1, ce) {
                                Some(items) => Some(
                                    (
                                        SpecNode::Skill {
                                            kind: SpecNodeKind::InterfaceDefinition {
                                                name,
                                                extends,
                                                legacy_implements,
                                                description,
                                                params: item_params(items),
                                                return_decls: item_returns(items),
                                                reads: item_reads(items),
                                                writes: item_writes(items),
                                                skill_refs: item_refs(items),
                                                tool_constraints: item_constraints(items),
                                            },
                                            params: Seq::empty(),
                                            children: merge_texts(item_children(items)),
                                            span,
                                        },
                                        ce + 8,
                                    ),
                                ),
                                None => None,
                            },
                            SpecNodeKind::ContractDefinition { name, extends, version, description, .. } =>
                                match items_scan(Ctx::Contract, s, offs, e + 1, ce) {
                                Some(items) => Some(
                                    (
                                        SpecNode::Skill {
                                            kind: SpecNodeKind::ContractDefinition {
                                                name,
                                                extends,
                                                version,
                                                description,
                                                fields: item_fields(items),
                                            },
                                            params: Seq::empty(),
                                            children: merge_texts(item_children(items)),
                                            span,
                                        },
                                        ce + 8,
                                    ),
                                ),
                                None => None,
                            },
                            SpecNodeKind::ImplementationDefinition { name, implements, language, framework, description, .. } =>
                                match items_scan(Ctx::Implementation, s, offs, e + 1, ce) {
                                Some(items) => Some(
                                    (
                                        SpecNode::Skill {
                                            kind: SpecNodeKind::ImplementationDefinition {
                                                name,
                                                implements,
                                                language,
                                                framework,
                                                description,
                                                nodes: item_node_decls(items),
                                                skill_refs: item_refs(items),
                                            },
                                            params: Seq::empty(),
                                            children: merge_texts(item_children(items)),
                                            span,
                                        },
                                        ce + 8,
                                    ),
                                ),
                                None => None,
                            },
                            SpecNodeKind::Invocation { .. } => match (
                                params_in(s, offs, e + 1, ce),
                                items_scan(Ctx::Invocation, s, offs, e + 1, ce),
                            ) {
                                (Some(ps), Some(items)) => Some(
                                    (
                                        SpecNode::Skill {
                                            kind: k,
                                            params: ps,
                                            children: merge_texts(item_children(items)),
                                            span,
                                        },
                                        ce + 8,
                                    ),
                                ),
                                _ => None,
                            },
                        }
                    } else {
                        None
                    },
                    None => None,
                }
            },
            Err(_) => None,
        },
        None => None,
    }
}

/// The directive tag `t` at `lo` and the index just past it: its kind from its
/// attributes, and the nodes it wraps.
pub open spec fn directive_tag_of(t: TagName, s: Seq<char>, offs: Seq<usize>, lo: int, hi: int) -> Option<(SpecNode, int)>
    decreases hi - lo, 1nat,
{
    match open_tag_reading(s, lo, hi, tag_text(t)) {
        Some((e, sc, a)) => match directive_kind_of(t, a) {
            Ok(k) => if sc {
                Some((SpecNode::Directive { kind: k, children: Seq::empty(), span: span_between(offs, lo, e + 1) }, e + 1))
            } else {
                match close_scan(s, e + 1, hi, tag_text(t), 1) {
                    Some(ce) => if lo < e && e + 1 <= ce && ce + tag_text(t).len() + 3 <= hi {
                        match items_scan(Ctx::Plain, s, offs, e + 1, ce) {
                            Some(items) => Some(
                                (
                                    SpecNode::Directive {
                                        kind: k,
                                        children: merge_texts(item_children(items)),
                                        span: span_between(offs, lo, ce + tag_text(t).len() + 3),
                                    },
                                    ce + tag_text(t).len() + 3,
                                ),
                            ),
                            None => None,
                        }
                    } else {
                        None
                    },
                    None => None,
                }
            },
            Err(_) => None,
        },
        None => None,
    }
}

/// The `<param name="...">value</param>` tags of an invocation's content from `pos`.
pub open spec fn params_in(s: Seq<char>, offs: Seq<usize>, pos: int, hi: int) -> Option<Seq<SpecParam>>
    decreases hi - pos,
{
    if pos < 0 || pos >= hi {
        Some(Seq::empty())
    } else if open_tag_at(s, pos, hi) == Some(TagName::Param) {
        match first_match(s, pos + 6, hi, ">"@) {
            Some(te) => match attributes_of(s.subrange(pos + 6, te)) {
                AttrOutcome::Parsed(a) => match attr_get(a, "name"@) {
                    Some(n) => match first_match(s, te + 1, hi, "</param>"@) {
                        Some(ce) => if pos < ce + 8 <= hi {
                            match params_in(s, offs, ce + 8, hi) {
                                Some(rest) => Some(
                                    seq![
                                        SpecParam {
                                            name: n,
                                            value: decode(s.subrange(te + 1, ce)),
                                            span: span_between(offs, pos, ce + 8),
                                        },
                                    ] + rest,
                                ),
                                None => None,
                            }
                        } else {
                            None
                        },
                        None => None,
                    },
                    None => None,
                },
                _ => None,
            },
            None => None,
        }
    } else {
        params_in(s, offs, pos + 1, hi)
    }
}

/// The nodes of `s[lo..hi]`, adjacent texts merged.
pub open spec fn nodes_of(s: Seq<char>, offs: Seq<usize>, lo: int, hi: int) -> Option<Seq<SpecNode>> {
    match items_scan(Ctx::Plain, s, offs, lo, hi) {
        Some(items) => Some(merge_texts(item_children(items))),
        None => None,
    }
}

// ---------------------------------------------------------------------------
// The message of a parse error
// ---------------------------------------------------------------------------

/// The message of the first step of a scan of `s[pos..hi]` in context `ctx` that fails.
pub open spec fn scan_error(ctx: Ctx, s: Seq<char>, offs: Seq<usize>, pos: int, hi: int) -> Str
    decreases hi - pos + 1, 0nat,
{
    if pos < 0 || pos >= hi {
        Seq::empty()
    } else {
        match step(ctx, s, offs, pos, hi) {
            Some((_, next)) => if pos < next <= hi {
                scan_error(ctx, s, offs, next, hi)
            } else {
                Seq::empty()
            },
            None => step_error(ctx, s, offs, pos, hi),
        }
    }
}

/// The message of a step at `pos` that fails.
pub open spec fn step_error(ctx: Ctx, s: Seq<char>, offs: Seq<usize>, pos: int, hi: int) -> Str
    decreases hi - pos, 4nat,
{
    if pos < 0 || pos >= hi || starts_at(s, pos, hi, "<!--"@) {
        Seq::empty()
    } else {
        match ctx {
            Ctx::Plain => plain_step_error(s, offs, pos, hi),
            Ctx::Invocation => invocation_step_error(s, offs, pos, hi),
            Ctx::Interface => interface_step_error(s, offs, pos, hi),
            Ctx::Contract => contract_step_error(s, offs, pos, hi),
            Ctx::Implementation => implementation_step_error(s, offs, pos, hi),
        }
    }
}

pub open spec fn plain_step_error(s: Seq<char>, offs: Seq<usize>, pos: int, hi: int) -> Str
    decreases hi - pos, 3nat,
{
    match close_tag_at(s, pos, hi) {
        Some(_) => Seq::empty(),
        None => match open_tag_at(s, pos, hi) {
            Some(TagName::Skill) => skill_tag_error(s, offs, pos, hi),
            Some(TagName::Param) => Seq::empty(),
            Some(t) => directive_tag_error(t, s, offs, pos, hi),
            None => Seq::empty(),
        },
    }
}

pub open spec fn invocation_step_error(s: Seq<char>, offs: Seq<usize>, pos: int, hi: int) -> Str
    decreases hi - pos, 3nat,
{
    match open_tag_at(s, pos, hi) {
        Some(TagName::Param) => Seq::empty(),
        Some(TagName::Skill) => skill_tag_error(s, offs, pos, hi),
        Some(t) => directive_tag_error(t, s, offs, pos, hi),
        None => Seq::empty(),
    }
}

pub open spec fn interface_step_error(s: Seq<char>, offs: Seq<usize>, pos: int, hi: int) -> Str
    decreases hi - pos, 3nat,
{
    match first_decl_open(s, pos, hi, body_decls(Body::Interface)) {
        Some(d) => match d {
            DeclTag::Param => param_decl_error(s, pos, hi),
            DeclTag::Returns => returns_decl_error(s, pos, hi),
            DeclTag::Reads => io_decl_error("reads"@, s, pos, hi),
            _ => io_decl_error("writes"@, s, pos, hi),
        },
        None => if first_decl_close(s, pos, hi, body_decls(Body::Interface)) is Some {
            Seq::empty()
        } else {
            interface_tag_step_error(s, offs, pos, hi)
        },
    }
}

pub open spec fn interface_tag_step_error(s: Seq<char>, offs: Seq<usize>, pos: int, hi: int) -> Str
    decreases hi - pos, 2nat,
{
    match open_tag_at(s, pos, hi) {
        Some(TagName::Skill) => match skill_ref_of(s, offs, pos, hi) {
            Some(Some(_)) => Seq::empty(),
            Some(None) => skill_tag_error(s, offs, pos, hi),
            None => skill_ref_error(s, pos, hi),
        },
        Some(TagName::Tool) => match tool_constraint_of(s, offs, pos, hi) {
            Some(Some(_)) => Seq::empty(),
            Some(None) => directive_tag_error(TagName::Tool, s, offs, pos, hi),
            None => tool_constraint_error(s, pos, hi),
        },
        Some(TagName::Param) => Seq::empty(),
        Some(t) => directive_tag_error(t, s, offs, pos, hi),
        None => Seq::empty(),
    }
}

pub open spec fn contract_step_error(s: Seq<char>, offs: Seq<usize>, pos: int, hi: int) -> Str
    decreases hi - pos, 3nat,
{
    if first_decl_open(s, pos, hi, body_decls(Body::Contract)) is Some {
        field_decl_error(s, offs, pos, hi)
    } else if first_decl_close(s, pos, hi, body_decls(Body::Contract)) is Some {
        Seq::empty()
    } else {
        match open_tag_at(s, pos, hi) {
            Some(TagName::Skill) => skill_tag_error(s, offs, pos, hi),
            Some(TagName::Param) => Seq::empty(),
            Some(t) => directive_tag_error(t, s, offs, pos, hi),
            None => Seq::empty(),
        }
    }
}

pub open spec fn implementation_step_error(s: Seq<char>, offs: Seq<usize>, pos: int, hi: int) -> Str
    decreases hi - pos, 3nat,
{
    if first_decl_open(s, pos, hi, body_decls(Body::Implementation)) is Some {
        node_decl_error(s, pos, hi)
    } else if first_decl_close(s, pos, hi, body_decls(Body::Implementation)) is Some {
        Seq::empty()
    } else {
        implementation_tag_step_error(s, offs, pos, hi)
    }
}

pub open spec fn implementation_tag_step_error(s: Seq<char>, offs: Seq<usize>, pos: int, hi: int) -> Str
    decreases hi - pos, 2nat,
{
    match open_tag_at(s, pos, hi) {
        Some(TagName::Skill) => match impl_ref_of(s, offs, pos, hi) {
            Some(Some(_)) => Seq::empty(),
            Some(None) => skill_tag_error(s, offs, pos, hi),
            None => impl_ref_error(s, offs, pos, hi),
        },
        Some(TagName::Param) => Seq::empty(),
        Some(t) => directive_tag_error(t, s, offs, pos, hi),
        None => Seq::empty(),
    }
}

/// The span of the first step of a scan of `s[pos..hi]` in context `ctx` that fails, where it is stated.
pub open spec fn scan_error_span(ctx: Ctx, s: Seq<char>, offs: Seq<usize>, pos: int, hi: int) -> Option<(int, int)>
    decreases hi - pos + 1, 0nat,
{
    if pos < 0 || pos >= hi {
        None
    } else {
        match step(ctx, s, offs, pos, hi) {
            Some((_, next)) => if pos < next <= hi {
                scan_error_span(ctx, s, offs, next, hi)
            } else {
                None
            },
            None => step_error_span(ctx, s, offs, pos, hi),
        }
    }
}

/// The span of a step at `pos` that fails, where it is stated.
pub open spec fn step_error_span(ctx: Ctx, s: Seq<char>, offs: Seq<usize>, pos: int, hi: int) -> Option<(int, int)>
    decreases hi - pos, 4nat,
{
    if pos < 0 || pos >= hi || starts_at(s, pos, hi, "<!--"@) {
        None
    } else {
        match ctx {
            Ctx::Plain => plain_step_error_span(s, offs, pos, hi),
            Ctx::Invocation => invocation_step_error_span(s, offs, pos, hi),
            Ctx::Interface => interface_step_error_span(s, offs, pos, hi),
            Ctx::Contract => contract_step_error_span(s, offs, pos, hi),
            Ctx::Implementation => implementation_step_error_span(s, offs, pos, hi),
        }
    }
}

pub open spec fn plain_step_error_span(s: Seq<char>, offs: Seq<usize>, pos: int, hi: int) -> Option<(int, int)>
    decreases hi - pos, 3nat,
{
    match close_tag_at(s, pos, hi) {
        Some(_) => None,
        None => match open_tag_at(s, pos, hi) {
            Some(TagName::Skill) => skill_tag_error_span(s, offs, pos, hi),
            Some(TagName::Param) => None,
            Some(t) => directive_tag_error_span(t, s, offs, pos, hi),
            None => None,
        },
    }
}

pub open spec fn invocation_step_error_span(s: Seq<char>, offs: Seq<usize>, pos: int, hi: int) -> Option<(int, int)>
    decreases hi - pos, 3nat,
{
    match open_tag_at(s, pos, hi) {
        Some(TagName::Param) => None,
        Some(TagName::Skill) => skill_tag_error_span(s, offs, pos, hi),
        Some(t) => directive_tag_error_span(t, s, offs, pos, hi),
        None => None,
    }
}

pub open spec fn interface_step_error_span(s: Seq<char>, offs: Seq<usize>, pos: int, hi: int) -> Option<(int, int)>
    decreases hi - pos, 3nat,
{
    match first_decl_open(s, pos, hi, body_decls(Body::Interface)) {
        Some(d) => match d {
            DeclTag::Param => decl_error_span(s, offs, pos, hi, "param"@),
            DeclTag::Returns => decl_error_span(s, offs, pos, hi, "returns"@),
            DeclTag::Reads => decl_error_span(s, offs, pos, hi, "reads"@),
            _ => decl_error_span(s, offs, pos, hi, "writes"@),
        },
        None => if first_decl_close(s, pos, hi, body_decls(Body::Interface)) is Some {
            None
        } else {
            interface_tag_step_error_span(s, offs, pos, hi)
        },
    }
}

pub open spec fn interface_tag_step_error_span(s: Seq<char>, offs: Seq<usize>, pos: int, hi: int) -> Option<(int, int)>
    decreases hi - pos, 2nat,
{
    match open_tag_at(s, pos, hi) {
        Some(TagName::Skill) => match skill_ref_of(s, offs, pos, hi) {
            Some(Some(_)) => None,
            Some(None) => skill_tag_error_span(s, offs, pos, hi),
            None => decl_error_span(s, offs, pos, hi, "skill"@),
        },
        Some(TagName::Tool) => match tool_constraint_of(s, offs, pos, hi) {
            Some(Some(_)) => None,
            Some(None) => directive_tag_error_span(TagName::Tool, s, offs, pos, hi),
            None => tool_constraint_error_span(s, offs, pos, hi),
        },
        Some(TagName::Param) => None,
        Some(t) => directive_tag_error_span(t, s, offs, pos, hi),
        None => None,
    }
}

pub open spec fn contract_step_error_span(s: Seq<char>, offs: Seq<usize>, pos: int, hi: int) -> Option<(int, int)>
    decreases hi - pos, 3nat,
{
    if first_decl_open(s, pos, hi, body_decls(Body::Contract)) is Some {
        field_decl_error_span(s, offs, pos, hi)
    } else if first_decl_close(s, pos, hi, body_decls(Body::Contract)) is Some {
        None
    } else {
        match open_tag_at(s, pos, hi) {
            Some(TagName::Skill) => skill_tag_error_span(s, offs, pos, hi),
            Some(TagName::Param) => None,
            Some(t) => directive_tag_error_span(t, s, offs, pos, hi),
            None => None,
        }
    }
}

pub open spec fn implementation_step_error_span(s: Seq<char>, offs: Seq<usize>, pos: int, hi: int) -> Option<(int, int)>
    decreases hi - pos, 3nat,
{
    if first_decl_open(s, pos, hi, body_decls(Body::Implementation)) is Some {
        decl_error_span(s, offs, pos, hi, "node"@)
    } else if first_decl_close(s, pos, hi, body_decls(Body::Implementation)) is Some {
        None
    } else {
        implementation_tag_step_error_span(s, offs, pos, hi)
    }
}

pub open spec fn implementation_tag_step_error_span(s: Seq<char>, offs: Seq<usize>, pos: int, hi: int) -> Option<(int, int)>
    decreases hi - pos, 2nat,
{
    match open_tag_at(s, pos, hi) {
        Some(TagName::Skill) => match impl_ref_of(s, offs, pos, hi) {
            Some(Some(_)) => None,
            Some(None) => skill_tag_error_span(s, offs, pos, hi),
            None => impl_ref_error_span(s, offs, pos, hi),
        },
        Some(TagName::Param) => None,
        Some(t) => directive_tag_error_span(t, s, offs, pos, hi),
        None => None,
    }
}

/// The message of an unmatched open tag `<name ...>`.
pub open spec fn unmatched_error(name: Seq<char>) -> Str {
    "unclosed <"@ + name + "> tag \u{2014} no matching </"@ + name + ">"@
}

/// The message of a skill reference at `lo` inside an implementation body that does not
/// parse.
pub open spec fn impl_ref_error(s: Seq<char>, offs: Seq<usize>, lo: int, hi: int) -> Str
    decreases hi - lo, 1nat,
{
    match open_tag_reading(s, lo, hi, "skill"@) {
        None => open_tag_error(s, lo, hi, "skill"@, "unclosed <skill> tag"@),
        Some((e, sc, a)) => if attr_get(a, "ref"@) is None {
            Seq::empty()
        } else if ref_conflict(a) {
            ref_conflict_error(a)
        } else if sc {
            Seq::empty()
        } else {
            match close_scan(s, e + 1, hi, "skill"@, 1) {
                None => unmatched_error("skill"@),
                Some(ce) => if lo < e && e + 1 <= ce && ce + 8 <= hi {
                    scan_error(Ctx::Implementation, s, offs, e + 1, ce)
                } else {
                    Seq::empty()
                },
            }
        },
    }
}

/// The message of a `<skill>` tag at `lo` that does not parse.
pub open spec fn skill_tag_error(s: Seq<char>, offs: Seq<usize>, lo: int, hi: int) -> Str
    decreases hi - lo, 1nat,
{
    match open_tag_reading(s, lo, hi, "skill"@) {
        None => open_tag_error(s, lo, hi, "skill"@, "unclosed opening tag"@),
        Some((e, sc, a)) => match node_kind_of(a) {
            Err(m) => m,
            Ok(k) => if sc {
                Seq::empty()
            } else {
                match close_scan(s, e + 1, hi, "skill"@, 1) {
                    None => unmatched_error("skill"@),
                    Some(ce) => if lo < e && e + 1 <= ce && ce + 8 <= hi {
                        match k {
                            SpecNodeKind::InterfaceDefinition { .. } => scan_error(Ctx::Interface, s, offs, e + 1, ce),
                            SpecNodeKind::ContractDefinition { .. } => scan_error(Ctx::Contract, s, offs, e + 1, ce),
                            SpecNodeKind::ImplementationDefinition { .. } => scan_error(Ctx::Implementation, s, offs, e + 1, ce),
                            SpecNodeKind::Invocation { .. } => if params_in(s, offs, e + 1, ce) is None {
                                params_error(s, e + 1, ce)
                            } else {
                                scan_error(Ctx::Invocation, s, offs, e + 1, ce)
                            },
                        }
                    } else {
                        Seq::empty()
                    },
                }
            },
        },
    }
}

/// The message of the directive tag `t` at `lo` that does not parse.
pub open spec fn directive_tag_error(t: TagName, s: Seq<char>, offs: Seq<usize>, lo: int, hi: int) -> Str
    decreases hi - lo, 1nat,
{
    match open_tag_reading(s, lo, hi, tag_text(t)) {
        None => open_tag_error(s, lo, hi, tag_text(t), "unclosed <"@ + tag_text(t) + "> opening tag"@),
        Some((e, sc, a)) => match directive_kind_of(t, a) {
            Err(m) => m,
            Ok(_) => if sc {
                Seq::empty()
            } else {
                match close_scan(s, e + 1, hi, tag_text(t), 1) {
                    None => unmatched_error(tag_text(t)),
                    Some(ce) => if lo < e && e + 1 <= ce && ce + tag_text(t).len() + 3 <= hi {
                        scan_error(Ctx::Plain, s, offs, e + 1, ce)
                    } else {
                        Seq::empty()
                    },
                }
            },
        },
    }
}

/// The message of the first `<param>` tag of an invocation's content from `pos` that does
/// not parse.
pub open spec fn params_error(s: Seq<char>, pos: int, hi: int) -> Str
    decreases hi - pos,
{
    if pos < 0 || pos >= hi {
        Seq::empty()
    } else if open_tag_at(s, pos, hi) == Some(TagName::Param) {
        match first_match(s, pos + 6, hi, ">"@) {
            None => "unclosed <param> tag"@,
            Some(te) => match attributes_of(s.subrange(pos + 6, te)) {
                AttrOutcome::Parsed(a) => match attr_get(a, "name"@) {
                    None => "<param> missing 'name' attribute"@,
                    Some(_) => match first_match(s, te + 1, hi, "</param>"@) {
                        None => "unclosed <param> tag"@,
                        Some(ce) => if pos < ce + 8 <= hi {
                            params_error(s, ce + 8, hi)
                        } else {
                            Seq::empty()
                        },
                    },
                },
                o => attr_error(o),
            },
        }
    } else {
        params_error(s, pos + 1, hi)
    }
}

/// Outside a comment, the error of a step is that of the step of its context.
pub proof fn lemma_step_error_of(ctx: Ctx, s: Seq<char>, offs: Seq<usize>, pos: int, hi: int)
    requires
        0 <= pos < hi,
        !starts_at(s, pos, hi, "<!--"@),
    ensures
        step_error(ctx, s, offs, pos, hi) == match ctx {
            Ctx::Plain => plain_step_error(s, offs, pos, hi),
            Ctx::Invocation => invocation_step_error(s, offs, pos, hi),
            Ctx::Interface => interface_step_error(s, offs, pos, hi),
            Ctx::Contract => contract_step_error(s, offs, pos, hi),
            Ctx::Implementation => implementation_step_error(s, offs, pos, hi),
        },
        step_error_span(ctx, s, offs, pos, hi) == match ctx {
            Ctx::Plain => plain_step_error_span(s, offs, pos, hi),
            Ctx::Invocation => invocation_step_error_span(s, offs, pos, hi),
            Ctx::Interface => interface_step_error_span(s, offs, pos, hi),
            Ctx::Contract => contract_step_error_span(s, offs, pos, hi),
            Ctx::Implementation => implementation_step_error_span(s, offs, pos, hi),
        },
{
    reveal_with_fuel(step_error, 2);
    reveal_with_fuel(step_error_span, 2);
}

/// The span of a skill reference at `lo` inside an implementation body that does not
/// parse, where it is stated.
pub open spec fn impl_ref_error_span(s: Seq<char>, offs: Seq<usize>, lo: int, hi: int) -> Option<(int, int)>
    decreases hi - lo, 1nat,
{
    match open_tag_reading(s, lo, hi, "skill"@) {
        None => open_tag_error_span(s, offs, lo, hi),
        Some((e, sc, a)) => if attr_get(a, "ref"@) is None {
            None
        } else if ref_conflict(a) {
            Some((offs[lo] as int, offs[e + 1] as int))
        } else if sc {
            None
        } else {
            match close_scan(s, e + 1, hi, "skill"@, 1) {
                None => Some(upto_50(offs, e + 1, hi)),
                Some(ce) => if lo < e && e + 1 <= ce && ce + 8 <= hi {
                    scan_error_span(Ctx::Implementation, s, offs, e + 1, ce)
                } else {
                    None
                },
            }
        },
    }
}

/// The span of a `<skill>` tag at `lo` that does not parse, where it is stated.
pub open spec fn skill_tag_error_span(s: Seq<char>, offs: Seq<usize>, lo: int, hi: int) -> Option<(int, int)>
    decreases hi - lo, 1nat,
{
    match open_tag_reading(s, lo, hi, "skill"@) {
        None => open_tag_error_span(s, offs, lo, hi),
        Some((e, sc, a)) => match node_kind_of(a) {
            Err(_) => Some((offs[lo] as int, offs[lo] + 20)),
            Ok(k) => if sc {
                None
            } else {
                match close_scan(s, e + 1, hi, "skill"@, 1) {
                    None => Some(upto_50(offs, e + 1, hi)),
                    Some(ce) => if lo < e && e + 1 <= ce && ce + 8 <= hi {
                        match k {
                            SpecNodeKind::InterfaceDefinition { .. } => scan_error_span(Ctx::Interface, s, offs, e + 1, ce),
                            SpecNodeKind::ContractDefinition { .. } => scan_error_span(Ctx::Contract, s, offs, e + 1, ce),
                            SpecNodeKind::ImplementationDefinition { .. } => scan_error_span(
                                Ctx::Implementation,
                                s,
                                offs,
                                e + 1,
                                ce,
                            ),
                            SpecNodeKind::Invocation { .. } => if params_in(s, offs, e + 1, ce) is None {
                                params_error_span(s, offs, e + 1, ce)
                            } else {
                                scan_error_span(Ctx::Invocation, s, offs, e + 1, ce)
                            },
                        }
                    } else {
                        None
                    },
                }
            },
        },
    }
}

/// The span of the directive tag `t` at `lo` that does not parse, where it is stated.
pub open spec fn directive_tag_error_span(t: TagName, s: Seq<char>, offs: Seq<usize>, lo: int, hi: int) -> Option<(int, int)>
    decreases hi - lo, 1nat,
{
    match open_tag_reading(s, lo, hi, tag_text(t)) {
        None => open_tag_error_span(s, offs, lo, hi),
        Some((e, sc, a)) => match directive_kind_of(t, a) {
            Err(_) => Some((offs[lo] as int, offs[lo] + 20)),
            Ok(_) => if sc {
                None
            } else {
                match close_scan(s, e + 1, hi, tag_text(t), 1) {
                    None => Some(upto_50(offs, e + 1, hi)),
                    Some(ce) => if lo < e && e + 1 <= ce && ce + tag_text(t).len() + 3 <= hi {
                        scan_error_span(Ctx::Plain, s, offs, e + 1, ce)
                    } else {
                        None
                    },
                }
            },
        },
    }
}

/// The span of the first `<param>` tag of an invocation's content from `pos` that does not
/// parse, where it is stated (not for an error in the quoting of its attributes).
pub open spec fn params_error_span(s: Seq<char>, offs: Seq<usize>, pos: int, hi: int) -> Option<(int, int)>
    decreases hi - pos,
{
    if pos < 0 || pos >= hi {
        None
    } else if open_tag_at(s, pos, hi) == Some(TagName::Param) {
        match first_match(s, pos + 6, hi, ">"@) {
            None => Some((offs[pos] as int, offs[pos] + 10)),
            Some(te) => match attributes_of(s.subrange(pos + 6, te)) {
                AttrOutcome::Parsed(a) => match attr_get(a, "name"@) {
                    None => Some((offs[pos] as int, offs[te + 1] as int)),
                    Some(_) => match first_match(s, te + 1, hi, "</param>"@) {
                        None => Some((offs[pos] as int, offs[te + 1] as int)),
                        Some(ce) => if pos < ce + 8 <= hi {
                            params_error_span(s, offs, ce + 8, hi)
                        } else {
                            None
                        },
                    },
                },
                _ => None,
            },
        }
    } else {
        params_error_span(s, offs, pos + 1, hi)
    }
}

// ---------------------------------------------------------------------------
// What a list of items holds
// ---------------------------------------------------------------------------

pub open spec fn item_children(items: Seq<BodyItem>) -> Seq<SpecNode>
    decreases items.len(),
{
    if items.len() == 0 {
        Seq::empty()
    } else {
        match items.last() {
            BodyItem::Child(n) => item_children(items.drop_last()).push(n),
            _ => item_children(items.drop_last()),
        }
    }
}

pub open spec fn item_params(items: Seq<BodyItem>) -> Seq<SpecParamDecl>
    decreases items.len(),
{
    if items.len() == 0 {
        Seq::empty()
    } else {
        match items.last() {
            BodyItem::Param(x) => item_params(items.drop_last()).push(x),
            _ => item_params(items.drop_last()),
        }
    }
}

pub open spec fn item_returns(items: Seq<BodyItem>) -> Seq<SpecReturnDecl>
    decreases items.len(),
{
    if items.len() == 0 {
        Seq::empty()
    } else {
        match items.last() {
            BodyItem::Returns(x) => item_returns(items.drop_last()).push(x),
            _ => item_returns(items.drop_last()),
        }
    }
}

/// The last `<reads>` declaration.
pub open spec fn item_reads(items: Seq<BodyItem>) -> Option<SpecIoDecl>
    decreases items.len(),
{
    if items.len() == 0 {
        None
    } else {
        match items.last() {
            BodyItem::Reads(x) => Some(x),
            _ => item_reads(items.drop_last()),
        }
    }
}

/// The last `<writes>` declaration.
pub open spec fn item_writes(items: Seq<BodyItem>) -> Option<SpecIoDecl>
    decreases items.len(),
{
    if items.len() == 0 {
        None
    } else {
        match items.last() {
            BodyItem::Writes(x) => Some(x),
            _ => item_writes(items.drop_last()),
        }
    }
}

pub open spec fn item_refs(items: Seq<BodyItem>) -> Seq<SpecSkillRef>
    decreases items.len(),
{
    if items.len() == 0 {
        Seq::empty()
    } else {
        match items.last() {
            BodyItem::Ref(x) => item_refs(items.drop_last()).push(x),
            _ => item_refs(items.drop_last()),
        }
    }
}

pub open spec fn item_constraints(items: Seq<BodyItem>) -> Seq<SpecToolConstraint>
    decreases items.len(),
{
    if items.len() == 0 {
        Seq::empty()
    } else {
        match items.last() {
            BodyItem::Constraint(x) => item_constraints(items.drop_last()).push(x),
            _ => item_constraints(items.drop_last()),
        }
    }
}

pub open spec fn item_fields(items: Seq<BodyItem>) -> Seq<SpecFieldDecl>
    decreases items.len(),
{
    if items.len() == 0 {
        Seq::empty()
    } else {
        match items.last() {
            BodyItem::Field(x) => item_fields(items.drop_last()).push(x),
            _ => item_fields(items.drop_last()),
        }
    }
}

/// The `<node>` declarations, those of wrapping skill references included, in order.
pub open spec fn item_node_decls(items: Seq<BodyItem>) -> Seq<SpecNodeDecl>
    decreases items.len(),
{
    if items.len() == 0 {
        Seq::empty()
    } else {
        match items.last() {
            BodyItem::NodeDecl(x) => item_node_decls(items.drop_last()).push(x),
            BodyItem::NodeDecls(xs) => item_node_decls(items.drop_last()) + xs,
            _ => item_node_decls(items.drop_last()),
        }
    }
}


// ---------------------------------------------------------------------------
// Stepping through a scan
// ---------------------------------------------------------------------------

/// `r` with `acc` in front of its items.
pub open spec fn glue_items(acc: Seq<BodyItem>, r: Option<Seq<BodyItem>>) -> Option<Seq<BodyItem>> {
    match r {
        Some(rest) => Some(acc + rest),
        None => None,
    }
}

/// A scan starts with nothing gathered.
pub proof fn lemma_scan_start(ctx: Ctx, s: Seq<char>, offs: Seq<usize>, lo: int, hi: int)
    ensures
        glue_items(Seq::empty(), items_scan(ctx, s, offs, lo, hi)) == items_scan(ctx, s, offs, lo, hi),
{
    match items_scan(ctx, s, offs, lo, hi) {
        Some(rest) => {
            assert(Seq::<BodyItem>::empty() + rest =~= rest);
        },
        None => {},
    }
}

/// A step that yields `xs` and goes on at `next` moves `xs` into what is gathered.
pub proof fn lemma_scan_advance(ctx: Ctx, s: Seq<char>, offs: Seq<usize>, p0: int, hi: int, next: int, xs: Seq<BodyItem>, acc: Seq<BodyItem>)
    requires
        0 <= p0 < next <= hi,
        step(ctx, s, offs, p0, hi) == Some((xs, next)),
    ensures
        glue_items(acc, items_scan(ctx, s, offs, p0, hi)) == glue_items(acc + xs, items_scan(ctx, s, offs, next, hi)),
        scan_error(ctx, s, offs, p0, hi) == scan_error(ctx, s, offs, next, hi),
        scan_error_span(ctx, s, offs, p0, hi) == scan_error_span(ctx, s, offs, next, hi),
{
    reveal_with_fuel(items_scan, 1);
    match items_scan(ctx, s, offs, next, hi) {
        Some(rest) => {
            assert(acc + (xs + rest) =~= (acc + xs) + rest);
        },
        None => {},
    }
}

/// A step that fails makes the scan fail.
pub proof fn lemma_scan_fail(ctx: Ctx, s: Seq<char>, offs: Seq<usize>, p0: int, hi: int)
    requires
        0 <= p0 < hi,
        step(ctx, s, offs, p0, hi) is None,
    ensures
        items_scan(ctx, s, offs, p0, hi) is None,
        scan_error(ctx, s, offs, p0, hi) == step_error(ctx, s, offs, p0, hi),
        scan_error_span(ctx, s, offs, p0, hi) == step_error_span(ctx, s, offs, p0, hi),
{
    reveal_with_fuel(items_scan, 1);
}

/// At the end of the region the scan yields what was gathered.
pub proof fn lemma_scan_end(ctx: Ctx, s: Seq<char>, offs: Seq<usize>, pos: int, hi: int, acc: Seq<BodyItem>)
    requires
        pos >= hi,
    ensures
        glue_items(acc, items_scan(ctx, s, offs, pos, hi)) == Some(acc),
{
    assert(acc + Seq::<BodyItem>::empty() =~= acc);
}

/// What one more item adds to each part of a list of items.
pub proof fn lemma_items_push(acc: Seq<BodyItem>, x: BodyItem)
    ensures
        item_children(acc.push(x)) == match x {
            BodyItem::Child(n) => item_children(acc).push(n),
            _ => item_children(acc),
        },
        item_params(acc.push(x)) == match x {
            BodyItem::Param(d) => item_params(acc).push(d),
            _ => item_params(acc),
        },
        item_returns(acc.push(x)) == match x {
            BodyItem::Returns(d) => item_returns(acc).push(d),
            _ => item_returns(acc),
        },
        item_reads(acc.push(x)) == match x {
            BodyItem::Reads(d) => Some(d),
            _ => item_reads(acc),
        },
        item_writes(acc.push(x)) == match x {
            BodyItem::Writes(d) => Some(d),
            _ => item_writes(acc),
        },
        item_refs(acc.push(x)) == match x {
            BodyItem::Ref(d) => item_refs(acc).push(d),
            _ => item_refs(acc),
        },
        item_constraints(acc.push(x)) == match x {
            BodyItem::Constraint(d) => item_constraints(acc).push(d),
            _ => item_constraints(acc),
        },
        item_fields(acc.push(x)) == match x {
            BodyItem::Field(d) => item_fields(acc).push(d),
            _ => item_fields(acc),
        },
        item_node_decls(acc.push(x)) == match x {
            BodyItem::NodeDecl(d) => item_node_decls(acc).push(d),
            BodyItem::NodeDecls(ds) => item_node_decls(acc) + ds,
            _ => item_node_decls(acc),
        },
{
    assert(acc.push(x).drop_last() =~= acc);
}

/// Nothing gathered holds nothing.
pub proof fn lemma_items_empty()
    ensures
        item_children(Seq::empty()) == Seq::<SpecNode>::empty(),
        item_params(Seq::empty()) == Seq::<SpecParamDecl>::empty(),
        item_returns(Seq::empty()) == Seq::<SpecReturnDecl>::empty(),
        item_reads(Seq::empty()) == None::<SpecIoDecl>,
        item_writes(Seq::empty()) == None::<SpecIoDecl>,
        item_refs(Seq::empty()) == Seq::<SpecSkillRef>::empty(),
        item_constraints(Seq::empty()) == Seq::<SpecToolConstraint>::empty(),
        item_fields(Seq::empty()) == Seq::<SpecFieldDecl>::empty(),
        item_node_decls(Seq::empty()) == Seq::<SpecNodeDecl>::empty(),
{
}


/// A skill tag read at `lo` ends within the text, at a `>`: that of its closing text
/// `</skill>`, or that of its own `/>` where it closes itself.
pub proof fn law_skill_tag_ends_in_its_closing_text(s: Seq<char>, offs: Seq<usize>, lo: int, hi: int)
    requires
        0 <= lo,
    ensures
        skill_tag_of(s, offs, lo, hi) matches Some((n, end)) ==> {
            &&& lo < end <= hi
            &&& s[end - 1] == '>'
            &&& (s.subrange(end - 8, end) == "</skill>"@ || s[end - 2] == '/')
        },
{
    reveal_strlit("skill");
    reveal_strlit("</skill>");
    crate::scan::lemma_tag_end_scan_range(s, lo + 1, hi, false, '"');
    if let Some((e, sc, a)) = open_tag_reading(s, lo, hi, "skill"@) {
        if !sc {
            crate::scan::lemma_close_scan_range(s, e + 1, hi, "skill"@, 1);
            if let Some(ce) = crate::scan::close_scan(s, e + 1, hi, "skill"@, 1) {
                assert(crate::scan::close_text("skill"@) =~= "</skill>"@);
                assert(s.subrange(ce, ce + 8)[7] == s[ce + 7]);
            }
        }
    }
}

} // verus!
